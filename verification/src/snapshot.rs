//! The persisted cache snapshot: a text encoding of the full entry mapping,
//! one line per entry — length-prefixed path and fingerprint, then the
//! last-processed time and the record count as fixed-width hexadecimal —
//! with a proved round trip between encoding and parsing.
use vstd::prelude::*;

use crate::cache::{paths_unique, CacheEntry, CacheEntryV, IngestionCache};
use crate::errors::ImportError;
use crate::hexcode::{
    hex_u64, hex_u64_chars, lemma_hex_u64_len, lemma_hex_u64_roundtrip, lemma_parse_hex_bound,
    lemma_pow16_16, parse_hex, parse_hex_range, pow16,
};
use crate::numeric::copy_range;
use crate::strconv::{chars_to_string, str_chars};

verus! {

/// A text with its character count ahead of it, sixteen hexadecimal digits.
pub open spec fn len_prefixed(s: Seq<char>) -> Seq<char> {
    hex_u64(s.len() as u64, 16) + s
}

/// One encoded entry: length-prefixed path, length-prefixed fingerprint,
/// last-processed time, record count, and a line break.
pub open spec fn encode_entry(e: CacheEntryV) -> Seq<char> {
    len_prefixed(e.path) + len_prefixed(e.hash) + hex_u64(e.last_processed, 16) + hex_u64(
        e.records_count,
        16,
    ) + seq!['\n']
}

/// The encoded snapshot: the entries in mapping order.
pub open spec fn encode_entries(es: Seq<CacheEntryV>) -> Seq<char>
    decreases es.len(),
{
    if es.len() == 0 {
        Seq::<char>::empty()
    } else {
        encode_entry(es.first()) + encode_entries(es.drop_first())
    }
}

/// Reads one length-prefixed text off the front: the text and the rest.
pub open spec fn parse_len_str(s: Seq<char>) -> Option<(Seq<char>, Seq<char>)> {
    if s.len() < 16 {
        None
    } else {
        match parse_hex(s.take(16)) {
            Some(n) => if n + 16 <= s.len() {
                Some((s.subrange(16, 16 + n as int), s.skip(16 + n as int)))
            } else {
                None
            },
            None => None,
        }
    }
}

/// Reads one entry off the front: the entry and the rest.
pub open spec fn parse_entry(s: Seq<char>) -> Option<(CacheEntryV, Seq<char>)> {
    match parse_len_str(s) {
        Some((path, r1)) => match parse_len_str(r1) {
            Some((hash, r2)) => if r2.len() >= 33 && r2[32] == '\n' {
                match (parse_hex(r2.take(16)), parse_hex(r2.subrange(16, 32))) {
                    (Some(last), Some(count)) => if last < pow16(16) && count < pow16(16) {
                        Some(
                            (
                                CacheEntryV {
                                    path,
                                    hash,
                                    last_processed: last as u64,
                                    records_count: count as u64,
                                },
                                r2.skip(33),
                            ),
                        )
                    } else {
                        None
                    },
                    _ => None,
                }
            } else {
                None
            },
            None => None,
        },
        None => None,
    }
}

/// Reads a whole snapshot text back as its entries; `None` when the text is
/// not a valid snapshot.
pub open spec fn parse_entries(s: Seq<char>) -> Option<Seq<CacheEntryV>>
    decreases s.len(),
{
    if s.len() == 0 {
        Some(Seq::<CacheEntryV>::empty())
    } else {
        match parse_entry(s) {
            Some((e, rest)) => if rest.len() < s.len() {
                match parse_entries(rest) {
                    Some(es) => Some(seq![e] + es),
                    None => None,
                }
            } else {
                None
            },
            None => None,
        }
    }
}

/// Reading a length-prefixed text off the front gives back the text.
proof fn lemma_parse_len_str_roundtrip(s: Seq<char>, rest: Seq<char>)
    requires
        s.len() < pow16(16),
    ensures
        parse_len_str(len_prefixed(s) + rest) == Some((s, rest)),
{
    lemma_pow16_16();
    let n = s.len() as u64;
    let t = len_prefixed(s) + rest;
    lemma_hex_u64_len(n, 16);
    assert(t.len() == 16 + s.len() + rest.len());
    assert(t.take(16) =~= hex_u64(n, 16));
    lemma_hex_u64_roundtrip(n, 16);
    assert(parse_hex(t.take(16)) == Some(n as nat));
    assert(n as nat == s.len());
    assert(t.subrange(16, 16 + s.len() as int) =~= s);
    assert(t.skip(16 + s.len() as int) =~= rest);
}

/// Reading an encoded entry off the front gives back the entry.
proof fn lemma_parse_entry_roundtrip(e: CacheEntryV, rest: Seq<char>)
    requires
        e.path.len() < pow16(16),
        e.hash.len() < pow16(16),
    ensures
        parse_entry(encode_entry(e) + rest) == Some((e, rest)),
        (encode_entry(e) + rest).len() > rest.len(),
{
    lemma_pow16_16();
    lemma_hex_u64_len(e.path.len() as u64, 16);
    lemma_hex_u64_len(e.hash.len() as u64, 16);
    lemma_hex_u64_len(e.last_processed, 16);
    lemma_hex_u64_len(e.records_count, 16);
    let t = encode_entry(e) + rest;
    let tail1 = len_prefixed(e.hash) + hex_u64(e.last_processed, 16) + hex_u64(e.records_count, 16)
        + seq!['\n'] + rest;
    assert(t =~= len_prefixed(e.path) + tail1);
    lemma_parse_len_str_roundtrip(e.path, tail1);
    let tail2 = hex_u64(e.last_processed, 16) + hex_u64(e.records_count, 16) + seq!['\n'] + rest;
    assert(tail1 =~= len_prefixed(e.hash) + tail2);
    lemma_parse_len_str_roundtrip(e.hash, tail2);
    assert(parse_len_str(t) == Some((e.path, tail1)));
    assert(parse_len_str(tail1) == Some((e.hash, tail2)));
    assert(tail2.len() == 33 + rest.len());
    assert(tail2[32] == '\n');
    assert(tail2.take(16) =~= hex_u64(e.last_processed, 16));
    assert(tail2.subrange(16, 32) =~= hex_u64(e.records_count, 16));
    lemma_hex_u64_roundtrip(e.last_processed, 16);
    lemma_hex_u64_roundtrip(e.records_count, 16);
    assert(tail2.skip(33) =~= rest);
}

/// Cache round trip: parsing an encoded snapshot gives back exactly the
/// mapping that was encoded, entry for entry — persisting a freshly loaded
/// mapping is semantically a no-op.
pub proof fn lemma_snapshot_roundtrip(es: Seq<CacheEntryV>)
    requires
        forall|i: int|
            0 <= i < es.len() ==> (#[trigger] es[i]).path.len() < pow16(16) && es[i].hash.len()
                < pow16(16),
    ensures
        parse_entries(encode_entries(es)) == Some(es),
    decreases es.len(),
{
    if es.len() == 0 {
    } else {
        let first = es.first();
        let rest = es.drop_first();
        assert forall|i: int| 0 <= i < rest.len() implies (#[trigger] rest[i]).path.len() < pow16(
            16,
        ) && rest[i].hash.len() < pow16(16) by {
            assert(rest[i] == es[i + 1]);
        }
        lemma_snapshot_roundtrip(rest);
        assert(es[0] == first);
        lemma_parse_entry_roundtrip(first, encode_entries(rest));
        assert(seq![first] + rest =~= es);
    }
}

/// Encoding after an appended entry is the encoding plus that entry's line.
proof fn lemma_encode_entries_push(es: Seq<CacheEntryV>, e: CacheEntryV)
    ensures
        encode_entries(es.push(e)) == encode_entries(es) + encode_entry(e),
    decreases es.len(),
{
    let p = es.push(e);
    if es.len() == 0 {
        assert(p.drop_first() =~= Seq::<CacheEntryV>::empty());
        assert(p.first() == e);
        assert(encode_entries(p) == encode_entry(e) + encode_entries(Seq::<CacheEntryV>::empty()));
        assert(encode_entries(p) =~= encode_entries(es) + encode_entry(e));
    } else {
        lemma_encode_entries_push(es.drop_first(), e);
        assert(p.drop_first() =~= es.drop_first().push(e));
        assert(p.first() == es.first());
        assert(encode_entries(p) == encode_entry(es.first()) + encode_entries(
            es.drop_first().push(e),
        ));
        assert(encode_entries(es) == encode_entry(es.first()) + encode_entries(es.drop_first()));
        assert(encode_entries(p) =~= encode_entries(es) + encode_entry(e));
    }
}

/// Encodes one entry as its snapshot line.
fn encode_entry_chars(e: &CacheEntry) -> (r: Vec<char>)
    ensures
        r@ == encode_entry(e@),
{
    let mut pchars = str_chars(e.path.as_str());
    let mut hchars = str_chars(e.hash.as_str());
    let mut out = hex_u64_chars(pchars.len() as u64, 16);
    out.append(&mut pchars);
    let mut hlen = hex_u64_chars(hchars.len() as u64, 16);
    out.append(&mut hlen);
    out.append(&mut hchars);
    let mut t1 = hex_u64_chars(e.last_processed, 16);
    out.append(&mut t1);
    let mut t2 = hex_u64_chars(e.records_count, 16);
    out.append(&mut t2);
    out.push('\n');
    proof {
        assert(out@ =~= encode_entry(e@));
    }
    out
}

impl IngestionCache {
    /// The snapshot text of the full mapping, ready to be persisted.
    pub fn snapshot_text(&self) -> (r: String)
        ensures
            r@ == encode_entries(self@),
    {
        let ghost es = self@;
        let mut out: Vec<char> = Vec::new();
        let mut i: usize = 0;
        while i < self.entries.len()
            invariant
                i <= self.entries@.len(),
                es == self@,
                es.len() == self.entries@.len(),
                out@ == encode_entries(es.take(i as int)),
            decreases self.entries@.len() - i,
        {
            let mut chunk = encode_entry_chars(&self.entries[i]);
            proof {
                assert(es[i as int] == self.entries@[i as int]@);
            }
            out.append(&mut chunk);
            proof {
                lemma_encode_entries_push(es.take(i as int), es[i as int]);
                assert(es.take(i + 1 as int) =~= es.take(i as int).push(es[i as int]));
            }
            i += 1;
        }
        proof {
            assert(es.take(es.len() as int) =~= es);
        }
        chars_to_string(out)
    }
}

/// Parses the snapshot entries that start at `pos`.
#[verifier::rlimit(100)]
#[verifier::spinoff_prover]
fn parse_entries_at(s: &Vec<char>, pos: usize) -> (r: Option<Vec<CacheEntry>>)
    requires
        pos <= s@.len(),
    ensures
        match r {
            Some(v) => parse_entries(s@.skip(pos as int)) == Some(v.deep_view()),
            None => parse_entries(s@.skip(pos as int)) is None,
        },
    decreases s@.len() - pos,
{
    let ghost t = s@.skip(pos as int);
    if pos == s.len() {
        let r: Vec<CacheEntry> = Vec::new();
        proof {
            assert(t =~= Seq::<char>::empty());
            assert(r.deep_view() =~= Seq::<CacheEntryV>::empty());
        }
        return Some(r);
    }
    // the path's length prefix
    if s.len() - pos < 16 {
        return None;
    }
    proof {
        assert(t.take(16) =~= s@.subrange(pos as int, pos + 16 as int));
    }
    let plen = match parse_hex_range(s, pos, pos + 16) {
        Some(n) => n,
        None => {
            return None;
        },
    };
    if plen > (s.len() - pos - 16) as u64 {
        return None;
    }
    let plen_us = plen as usize;
    let p1 = pos + 16 + plen_us;
    let path_chars = copy_range(s, pos + 16, p1);
    let path = chars_to_string(path_chars);
    let ghost r1 = t.skip(16 + plen as int);
    proof {
        assert(t.subrange(16, 16 + plen as int) =~= s@.subrange(pos + 16 as int, p1 as int));
        assert(parse_len_str(t) == Some((path@, r1)));
        assert(r1 =~= s@.skip(p1 as int));
    }
    // the fingerprint's length prefix
    if s.len() - p1 < 16 {
        return None;
    }
    proof {
        assert(r1.take(16) =~= s@.subrange(p1 as int, p1 + 16 as int));
    }
    let hlen = match parse_hex_range(s, p1, p1 + 16) {
        Some(n) => n,
        None => {
            return None;
        },
    };
    if hlen > (s.len() - p1 - 16) as u64 {
        return None;
    }
    let hlen_us = hlen as usize;
    let p2 = p1 + 16 + hlen_us;
    let hash_chars = copy_range(s, p1 + 16, p2);
    let hash = chars_to_string(hash_chars);
    let ghost r2 = r1.skip(16 + hlen as int);
    proof {
        assert(r1.subrange(16, 16 + hlen as int) =~= s@.subrange(p1 + 16 as int, p2 as int));
        assert(parse_len_str(r1) == Some((hash@, r2)));
        assert(r2 =~= s@.skip(p2 as int));
    }
    // the two fixed-width numbers and the line break
    if s.len() - p2 < 33 {
        return None;
    }
    let nl = s[p2 + 32];
    if nl != '\n' {
        return None;
    }
    proof {
        assert(r2.take(16) =~= s@.subrange(p2 as int, p2 + 16 as int));
        assert(r2.subrange(16, 32) =~= s@.subrange(p2 + 16 as int, p2 + 32 as int));
        assert(r2[32] == s@[p2 + 32]);
    }
    let last = match parse_hex_range(s, p2, p2 + 16) {
        Some(n) => n,
        None => {
            return None;
        },
    };
    let count = match parse_hex_range(s, p2 + 16, p2 + 32) {
        Some(n) => n,
        None => {
            return None;
        },
    };
    proof {
        lemma_parse_hex_bound(r2.take(16));
        lemma_parse_hex_bound(r2.subrange(16, 32));
    }
    let entry = CacheEntry { path, hash, last_processed: last, records_count: count };
    let p3 = p2 + 33;
    let ghost rest = r2.skip(33);
    proof {
        assert(rest =~= s@.skip(p3 as int));
        assert(parse_entry(t) == Some((entry@, rest)));
        assert(rest.len() < t.len());
    }
    let mut out = match parse_entries_at(s, p3) {
        Some(v) => v,
        None => {
            return None;
        },
    };
    out.insert(0, entry);
    proof {
        assert(out.deep_view() =~= seq![entry@] + out.deep_view().drop_first());
        assert(out.deep_view().drop_first() =~= out@.drop_first().map_values(
            |x: CacheEntry| x.deep_view(),
        ));
    }
    Some(out)
}

/// Loads a cache from a snapshot text. The empty text is the empty mapping
/// (an absent snapshot loads as empty); a malformed text, or one with two
/// entries under one path, is a fatal startup error.
pub fn load_snapshot(text: &str) -> (r: Result<IngestionCache, ImportError>)
    ensures
        match r {
            Ok(c) => parse_entries(text@) == Some(c@) && c.wf(),
            Err(e) => e == ImportError::FatalStartupError && match parse_entries(text@) {
                Some(es) => !paths_unique(es),
                None => true,
            },
        },
{
    let chars = str_chars(text);
    proof {
        assert(chars@.skip(0) =~= text@);
    }
    let entries = match parse_entries_at(&chars, 0) {
        Some(v) => v,
        None => {
            return Err(ImportError::FatalStartupError);
        },
    };
    let cache = IngestionCache { entries };
    let ghost es = cache@;
    let n = cache.entries.len();
    let mut i: usize = 0;
    while i < n
        invariant
            n == cache.entries@.len(),
            es == cache@,
            es.len() == n,
            parse_entries(text@) == Some(es),
            forall|a: int, b: int|
                0 <= a < b < es.len() && a < i ==> (#[trigger] es[a]).path != (#[trigger] es[b]).path,
        decreases n - i,
    {
        let mut j: usize = i + 1;
        while j < n
            invariant
                n == cache.entries@.len(),
                es == cache@,
                es.len() == n,
                i < n,
                i < j <= n,
                parse_entries(text@) == Some(es),
                forall|b: int| i < b < j ==> (#[trigger] es[b]).path != es[i as int].path,
            decreases n - j,
        {
            let dup = cache.entries[i].path.eq(&cache.entries[j].path);
            if dup {
                proof {
                    assert(es[i as int].path == es[j as int].path);
                    assert(!paths_unique(es));
                }
                return Err(ImportError::FatalStartupError);
            }
            j += 1;
        }
        i += 1;
    }
    Ok(cache)
}

} // verus!
