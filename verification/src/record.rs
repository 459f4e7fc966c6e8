//! The schema-less record model: one mandatory timestamp plus a mapping of
//! column name to raw text value, built from a header row and data rows with
//! last-value-wins on duplicate column names. A row whose resolved timestamp
//! is empty is dropped before it leaves the parser.
use vstd::prelude::*;

use crate::errors::ImportError;

verus! {

/// One row of a tabular file: the raw, unvalidated timestamp text and the
/// remaining columns as name/value pairs with unique names.
#[derive(Debug)]
pub struct Record {
    pub timestamp: String,
    pub fields: Vec<(String, String)>,
}

/// The mathematical model of a record.
pub ghost struct RecordV {
    pub timestamp: Seq<char>,
    pub fields: Seq<(Seq<char>, Seq<char>)>,
}

/// The view of a sequence of owned string pairs.
pub open spec fn pairs_view(v: Seq<(String, String)>) -> Seq<(Seq<char>, Seq<char>)> {
    v.map_values(|p: (String, String)| (p.0@, p.1@))
}

impl View for Record {
    type V = RecordV;

    open spec fn view(&self) -> RecordV {
        RecordV { timestamp: self.timestamp@, fields: pairs_view(self.fields@) }
    }
}

impl DeepView for Record {
    type V = RecordV;

    open spec fn deep_view(&self) -> RecordV {
        self.view()
    }
}

/// The index of the first pair whose name is `k`, or `-1` when no pair
/// carries it.
pub open spec fn key_idx(fields: Seq<(Seq<char>, Seq<char>)>, k: Seq<char>) -> int
    decreases fields.len(),
{
    if fields.len() == 0 {
        -1
    } else if fields.first().0 == k {
        0
    } else {
        let rest = key_idx(fields.drop_first(), k);
        if rest < 0 {
            -1
        } else {
            rest + 1
        }
    }
}

/// `key_idx` finds the first pair with the given name, and `-1` exactly when
/// none has it.
pub proof fn lemma_key_idx(fields: Seq<(Seq<char>, Seq<char>)>, k: Seq<char>)
    ensures
        -1 <= key_idx(fields, k) < fields.len(),
        key_idx(fields, k) >= 0 ==> fields[key_idx(fields, k)].0 == k,
        forall|j: int|
            0 <= j < fields.len() && fields[j].0 == k ==> key_idx(fields, k) >= 0 && key_idx(
                fields,
                k,
            ) <= j,
    decreases fields.len(),
{
    if fields.len() > 0 && fields.first().0 != k {
        let rest = fields.drop_first();
        lemma_key_idx(rest, k);
        assert forall|j: int| 0 <= j < fields.len() && fields[j].0 == k implies key_idx(fields, k)
            >= 0 && key_idx(fields, k) <= j by {
            assert(j >= 1);
            assert(rest[j - 1] == fields[j]);
        }
        if key_idx(rest, k) >= 0 {
            assert(fields[key_idx(rest, k) + 1] == rest[key_idx(rest, k)]);
        }
    }
}

/// Replaces the value of the pair named `k`, or appends a new pair when no
/// pair carries that name: last-value-wins on duplicate column names.
pub open spec fn spec_upsert(
    fields: Seq<(Seq<char>, Seq<char>)>,
    k: Seq<char>,
    v: Seq<char>,
) -> Seq<(Seq<char>, Seq<char>)> {
    let i = key_idx(fields, k);
    if i >= 0 {
        fields.update(i, (k, v))
    } else {
        fields.push((k, v))
    }
}

/// Inserts `key`/`value` into the field list, overwriting the value of an
/// existing pair with that name.
pub fn upsert_field(fields: &mut Vec<(String, String)>, key: String, value: String)
    ensures
        pairs_view(final(fields)@) == spec_upsert(pairs_view(old(fields)@), key@, value@),
{
    let ghost orig = pairs_view(fields@);
    let n: usize = fields.len();
    let mut i: usize = 0;
    while i < n
        invariant
            n == fields@.len(),
            i <= n,
            fields@ == old(fields)@,
            orig == pairs_view(old(fields)@),
            forall|j: int| 0 <= j < i ==> orig[j].0 != key@,
        decreases n - i,
    {
        let hit = fields[i].0.eq(&key);
        if hit {
            proof {
                lemma_key_idx(orig, key@);
                assert(orig[i as int].0 == key@);
                assert(orig[key_idx(orig, key@)].0 == key@);
                assert(key_idx(orig, key@) == i as int);
            }
            fields[i] = (key, value);
            proof {
                assert(pairs_view(fields@) =~= orig.update(i as int, (key@, value@)));
            }
            return ;
        }
        i += 1;
    }
    proof {
        lemma_key_idx(orig, key@);
        if key_idx(orig, key@) >= 0 {
            assert(orig[key_idx(orig, key@)].0 == key@);
        }
        assert(key_idx(orig, key@) == -1);
    }
    fields.push((key, value));
    proof {
        assert(pairs_view(fields@) =~= orig.push((key@, value@)));
    }
}

/// The record that the first `n` columns of a row resolve to: a column named
/// `timestamp` fills the timestamp, every other named column upserts a
/// field, and a cell beyond the header row is ignored.
pub open spec fn build_rec(headers: Seq<Seq<char>>, row: Seq<Seq<char>>, n: nat) -> (Seq<char>, Seq<
    (Seq<char>, Seq<char>),
>)
    decreases n,
{
    if n == 0 {
        (Seq::<char>::empty(), Seq::<(Seq<char>, Seq<char>)>::empty())
    } else {
        let prev = build_rec(headers, row, (n - 1) as nat);
        if n - 1 < headers.len() {
            if headers[n - 1] == "timestamp"@ {
                (row[n - 1], prev.1)
            } else {
                (prev.0, spec_upsert(prev.1, headers[n - 1], row[n - 1]))
            }
        } else {
            prev
        }
    }
}

/// The record one full row resolves to.
pub open spec fn record_of_row(headers: Seq<Seq<char>>, row: Seq<Seq<char>>) -> RecordV {
    let b = build_rec(headers, row, row.len());
    RecordV { timestamp: b.0, fields: b.1 }
}

/// The records a whole file resolves to: one per row, in row order, with the
/// rows whose resolved timestamp is empty dropped.
pub open spec fn records_of(headers: Seq<Seq<char>>, rows: Seq<Seq<Seq<char>>>) -> Seq<RecordV>
    decreases rows.len(),
{
    if rows.len() == 0 {
        Seq::<RecordV>::empty()
    } else {
        let rest = records_of(headers, rows.drop_last());
        let r = record_of_row(headers, rows.last());
        if r.timestamp.len() > 0 {
            rest.push(r)
        } else {
            rest
        }
    }
}

/// No emitted record carries an empty timestamp: a row whose resolved
/// timestamp is empty never appears in the decoded batch.
pub proof fn lemma_missing_timestamp_drop(headers: Seq<Seq<char>>, rows: Seq<Seq<Seq<char>>>)
    ensures
        forall|i: int|
            0 <= i < records_of(headers, rows).len() ==> records_of(headers, rows)[i].timestamp.len()
                > 0,
    decreases rows.len(),
{
    if rows.len() > 0 {
        lemma_missing_timestamp_drop(headers, rows.drop_last());
        let rest = records_of(headers, rows.drop_last());
        let r = record_of_row(headers, rows.last());
        let all = records_of(headers, rows);
        if r.timestamp.len() > 0 {
            assert(all == rest.push(r));
            assert forall|i: int| 0 <= i < all.len() implies all[i].timestamp.len() > 0 by {
                if i < rest.len() {
                    assert(all[i] == rest[i]);
                } else {
                    assert(all[i] == r);
                }
            }
        } else {
            assert(all == rest);
        }
    }
}

/// Builds the record of one row against the header row.
pub fn record_from_row(headers: &Vec<String>, row: &Vec<String>) -> (r: Record)
    ensures
        r@.timestamp == build_rec(headers.deep_view(), row.deep_view(), row@.len() as nat).0,
        r@.fields == build_rec(headers.deep_view(), row.deep_view(), row@.len() as nat).1,
{
    let ts_name: String = "timestamp".to_owned();
    let mut timestamp: String = String::new();
    let mut fields: Vec<(String, String)> = Vec::new();
    let ghost hv = headers.deep_view();
    let ghost rv = row.deep_view();
    let mut i: usize = 0;
    while i < row.len()
        invariant
            i <= row@.len(),
            hv == headers.deep_view(),
            rv == row.deep_view(),
            ts_name@ == "timestamp"@,
            timestamp@ == build_rec(hv, rv, i as nat).0,
            pairs_view(fields@) == build_rec(hv, rv, i as nat).1,
        decreases row@.len() - i,
    {
        if i < headers.len() {
            let is_ts = headers[i].eq(&ts_name);
            if is_ts {
                timestamp = row[i].clone();
            } else {
                upsert_field(&mut fields, headers[i].clone(), row[i].clone());
            }
        }
        proof {
            assert(build_rec(hv, rv, (i + 1) as nat) == (if i < hv.len() {
                if hv[i as int] == "timestamp"@ {
                    (rv[i as int], build_rec(hv, rv, i as nat).1)
                } else {
                    (
                        build_rec(hv, rv, i as nat).0,
                        spec_upsert(build_rec(hv, rv, i as nat).1, hv[i as int], rv[i as int]),
                    )
                }
            } else {
                build_rec(hv, rv, i as nat)
            }));
        }
        i += 1;
    }
    Record { timestamp, fields }
}

/// Builds the records of all rows, dropping every row whose resolved
/// timestamp is empty.
pub fn records_from_rows(headers: &Vec<String>, rows: &Vec<Vec<String>>) -> (r: Vec<Record>)
    ensures
        r.deep_view() == records_of(headers.deep_view(), rows.deep_view()),
{
    let ghost hv = headers.deep_view();
    let ghost rv = rows.deep_view();
    let mut out: Vec<Record> = Vec::new();
    let mut i: usize = 0;
    while i < rows.len()
        invariant
            i <= rows@.len(),
            hv == headers.deep_view(),
            rv == rows.deep_view(),
            out.deep_view() == records_of(hv, rv.take(i as int)),
        decreases rows@.len() - i,
    {
        let ghost prefix = out.deep_view();
        let rec = record_from_row(headers, &rows[i]);
        proof {
            assert(rv[i as int] == rows@[i as int].deep_view());
            assert(rec@ == record_of_row(hv, rv[i as int]));
        }
        let keep = !rec.timestamp.as_str().is_empty();
        if keep {
            out.push(rec);
            proof {
                assert(out.deep_view() =~= prefix.push(record_of_row(hv, rv[i as int])));
            }
        }
        proof {
            assert(rv.take(i + 1 as int).drop_last() =~= rv.take(i as int));
            assert(rv.take(i + 1 as int).last() == rv[i as int]);
            assert(out.deep_view() == records_of(hv, rv.take(i + 1 as int)));
        }
        i += 1;
    }
    proof {
        assert(rv.take(rows@.len() as int) =~= rv);
    }
    out
}

/// What the tabular reader yields for a byte content: the header row's
/// column names and the data rows' cells, or nothing when the content is
/// malformed.
pub uninterp spec fn csv_decode(data: Seq<u8>) -> Option<(Seq<Seq<char>>, Seq<Seq<Seq<char>>>)>;

/// Relies on `csv::Reader` (`from_reader`, `headers`, `records`): the decode
/// of a byte content depends on the bytes alone, and a malformed row fails
/// that content's whole decode.
#[verifier::external_body]
fn read_csv(data: &Vec<u8>) -> (r: Option<(Vec<String>, Vec<Vec<String>>)>)
    ensures
        match r {
            Some(hr) => csv_decode(data@) == Some((hr.0.deep_view(), hr.1.deep_view())),
            None => csv_decode(data@) is None,
        },
{
    let mut rdr = csv::Reader::from_reader(data.as_slice());
    let headers: Vec<String> = match rdr.headers() {
        Ok(h) => h.iter().map(|f| f.to_string()).collect(),
        Err(_) => return None,
    };
    let mut rows: Vec<Vec<String>> = Vec::new();
    for rec in rdr.records() {
        match rec {
            Ok(row) => rows.push(row.iter().map(|f| f.to_string()).collect()),
            Err(_) => return None,
        }
    }
    Some((headers, rows))
}

/// Decodes one file's bytes into its records: the header row names the
/// columns, a column literally named `timestamp` fills each record's
/// timestamp, every other column becomes a field, and a row whose resolved
/// timestamp is empty is dropped. A malformed content fails with
/// `DecodeError` and contributes nothing downstream.
pub fn parse_csv_dynamic(data: &Vec<u8>) -> (r: Result<Vec<Record>, ImportError>)
    ensures
        match r {
            Ok(recs) => csv_decode(data@) matches Some(hr) && recs.deep_view() == records_of(
                hr.0,
                hr.1,
            ),
            Err(e) => csv_decode(data@) is None && e == ImportError::DecodeError,
        },
        r matches Ok(recs) ==> forall|i: int|
            0 <= i < recs@.len() ==> (#[trigger] recs@[i])@.timestamp.len() > 0,
{
    match read_csv(data) {
        Some((headers, rows)) => {
            let records = records_from_rows(&headers, &rows);
            proof {
                lemma_missing_timestamp_drop(headers.deep_view(), rows.deep_view());
                assert(forall|i: int|
                    0 <= i < records@.len() ==> (#[trigger] records@[i])@
                        == records.deep_view()[i]);
            }
            Ok(records)
        },
        None => Err(ImportError::DecodeError),
    }
}

} // verus!
