//! The ingestion cache: a mapping from file path to fingerprint, last
//! processed time and record count. Loaded once at startup, consulted by the
//! scanner, mutated incrementally by the sink writer, and persisted as a
//! full snapshot after every completed file.
use vstd::prelude::*;

verus! {

/// One cache entry: what was recorded the last time a file was processed.
/// `last_processed` is the UTC wall clock in epoch nanoseconds.
#[derive(Debug)]
pub struct CacheEntry {
    pub path: String,
    pub hash: String,
    pub last_processed: u64,
    pub records_count: u64,
}

/// The mathematical model of a cache entry.
pub ghost struct CacheEntryV {
    pub path: Seq<char>,
    pub hash: Seq<char>,
    pub last_processed: u64,
    pub records_count: u64,
}

impl View for CacheEntry {
    type V = CacheEntryV;

    open spec fn view(&self) -> CacheEntryV {
        CacheEntryV {
            path: self.path@,
            hash: self.hash@,
            last_processed: self.last_processed,
            records_count: self.records_count,
        }
    }
}

impl DeepView for CacheEntry {
    type V = CacheEntryV;

    open spec fn deep_view(&self) -> CacheEntryV {
        self.view()
    }
}

impl Clone for CacheEntry {
    fn clone(&self) -> (r: Self)
        ensures
            r@ == self@,
    {
        CacheEntry {
            path: self.path.clone(),
            hash: self.hash.clone(),
            last_processed: self.last_processed,
            records_count: self.records_count,
        }
    }
}

/// The index of the first entry recorded under `path`, or `-1`.
pub open spec fn entry_idx(es: Seq<CacheEntryV>, path: Seq<char>) -> int
    decreases es.len(),
{
    if es.len() == 0 {
        -1
    } else if es.first().path == path {
        0
    } else {
        let rest = entry_idx(es.drop_first(), path);
        if rest < 0 {
            -1
        } else {
            rest + 1
        }
    }
}

/// `entry_idx` finds the first entry under the given path, and `-1` exactly
/// when none is recorded under it.
pub proof fn lemma_entry_idx(es: Seq<CacheEntryV>, path: Seq<char>)
    ensures
        -1 <= entry_idx(es, path) < es.len(),
        entry_idx(es, path) >= 0 ==> es[entry_idx(es, path)].path == path,
        forall|j: int|
            0 <= j < es.len() && (#[trigger] es[j]).path == path ==> entry_idx(es, path) >= 0
                && entry_idx(es, path) <= j,
    decreases es.len(),
{
    if es.len() > 0 && es.first().path != path {
        let rest = es.drop_first();
        lemma_entry_idx(rest, path);
        assert forall|j: int| 0 <= j < es.len() && (#[trigger] es[j]).path == path implies entry_idx(
            es,
            path,
        ) >= 0 && entry_idx(es, path) <= j by {
            assert(j >= 1);
            assert(rest[j - 1] == es[j]);
        }
        if entry_idx(rest, path) >= 0 {
            assert(es[entry_idx(rest, path) + 1] == rest[entry_idx(rest, path)]);
        }
    }
}

/// No two entries are recorded under the same path.
pub open spec fn paths_unique(es: Seq<CacheEntryV>) -> bool {
    forall|i: int, j: int|
        0 <= i < j < es.len() ==> (#[trigger] es[i]).path != (#[trigger] es[j]).path
}

/// The mapping after recording `e`: the first entry under `e.path` is
/// overwritten, or `e` is appended when the path is new.
pub open spec fn spec_upsert_entries(es: Seq<CacheEntryV>, e: CacheEntryV) -> Seq<CacheEntryV> {
    let i = entry_idx(es, e.path);
    if i >= 0 {
        es.update(i, e)
    } else {
        es.push(e)
    }
}

/// Recording an entry keeps paths unique, and the entry is then what the
/// mapping holds under its path.
pub proof fn lemma_upsert_then_get(es: Seq<CacheEntryV>, e: CacheEntryV)
    requires
        paths_unique(es),
    ensures
        paths_unique(spec_upsert_entries(es, e)),
        entry_idx(spec_upsert_entries(es, e), e.path) >= 0,
        spec_upsert_entries(es, e)[entry_idx(spec_upsert_entries(es, e), e.path)] == e,
{
    lemma_entry_idx(es, e.path);
    let i = entry_idx(es, e.path);
    let u = spec_upsert_entries(es, e);
    lemma_entry_idx(u, e.path);
    if i >= 0 {
        assert(u[i].path == e.path);
        let k = entry_idx(u, e.path);
        assert(k >= 0 && k <= i);
        if k < i {
            assert(u[k] == es[k]);
            assert(es[k].path == e.path);
            assert(entry_idx(es, e.path) <= k);
        }
        assert(k == i);
        assert forall|a: int, b: int| 0 <= a < b < u.len() implies (#[trigger] u[a]).path != (
        #[trigger] u[b]).path by {
            if a != i && b != i {
                assert(u[a] == es[a] && u[b] == es[b]);
            } else if a == i {
                assert(u[b] == es[b]);
                assert(es[i].path == e.path);
            } else {
                assert(u[a] == es[a]);
                assert(es[i].path == e.path);
            }
        }
    } else {
        assert(u[es.len() as int].path == e.path);
        let k = entry_idx(u, e.path);
        assert(k >= 0 && k <= es.len());
        if k < es.len() {
            assert(u[k] == es[k]);
            assert(es[k].path == e.path);
        }
        assert(k == es.len());
        assert forall|a: int, b: int| 0 <= a < b < u.len() implies (#[trigger] u[a]).path != (
        #[trigger] u[b]).path by {
            if b < es.len() {
                assert(u[a] == es[a] && u[b] == es[b]);
            } else {
                assert(u[a] == es[a]);
                if es[a].path == e.path {
                    assert(entry_idx(es, e.path) >= 0);
                }
            }
        }
    }
}

/// The in-memory ingestion cache: the full entry mapping, keyed by canonical
/// file path, paths unique.
#[derive(Debug)]
pub struct IngestionCache {
    pub entries: Vec<CacheEntry>,
}

impl View for IngestionCache {
    type V = Seq<CacheEntryV>;

    open spec fn view(&self) -> Seq<CacheEntryV> {
        self.entries.deep_view()
    }
}

impl IngestionCache {
    /// The cache's invariant: one entry per path.
    pub open spec fn wf(&self) -> bool {
        paths_unique(self@)
    }

    /// An empty mapping: what a run starts from when no snapshot exists.
    pub fn new() -> (r: Self)
        ensures
            r@ == Seq::<CacheEntryV>::empty(),
            r.wf(),
    {
        let r = IngestionCache { entries: Vec::new() };
        proof {
            assert(r@ =~= Seq::<CacheEntryV>::empty());
        }
        r
    }

    /// How many files the mapping has entries for.
    pub fn len(&self) -> (r: usize)
        ensures
            r == self@.len(),
    {
        self.entries.len()
    }

    /// The entry recorded under `path`, if any.
    pub fn get(&self, path: &String) -> (r: Option<&CacheEntry>)
        ensures
            match r {
                Some(e) => entry_idx(self@, path@) >= 0 && e@ == self@[entry_idx(self@, path@)],
                None => entry_idx(self@, path@) == -1,
            },
    {
        let ghost es = self@;
        let mut i: usize = 0;
        let n = self.entries.len();
        while i < n
            invariant
                n == self.entries@.len(),
                i <= n,
                es == self@,
                es.len() == n,
                forall|j: int| 0 <= j < i ==> (#[trigger] es[j]).path != path@,
            decreases n - i,
        {
            let hit = self.entries[i].path.eq(path);
            if hit {
                proof {
                    lemma_entry_idx(es, path@);
                    assert(es[i as int].path == path@);
                    assert(es[entry_idx(es, path@)].path == path@);
                    assert(entry_idx(es, path@) == i as int);
                }
                return Some(&self.entries[i]);
            }
            i += 1;
        }
        proof {
            lemma_entry_idx(es, path@);
            if entry_idx(es, path@) >= 0 {
                assert(es[entry_idx(es, path@)].path == path@);
            }
        }
        None
    }

    /// Records `entry`, overwriting the entry under the same path or
    /// appending a new one; paths stay unique.
    pub fn upsert(&mut self, entry: CacheEntry)
        requires
            old(self).wf(),
        ensures
            final(self)@ == spec_upsert_entries(old(self)@, entry@),
            final(self).wf(),
    {
        let ghost es = self@;
        let ghost ev = entry@;
        proof {
            lemma_upsert_then_get(es, ev);
        }
        let mut i: usize = 0;
        let n = self.entries.len();
        while i < n
            invariant
                n == self.entries@.len(),
                self@ == es,
                es.len() == n,
                i <= n,
                ev == entry@,
                es == old(self)@,
                paths_unique(es),
                forall|j: int| 0 <= j < i ==> (#[trigger] es[j]).path != ev.path,
            decreases n - i,
        {
            let hit = self.entries[i].path.eq(&entry.path);
            if hit {
                proof {
                    lemma_entry_idx(es, ev.path);
                    assert(es[i as int].path == ev.path);
                    assert(es[entry_idx(es, ev.path)].path == ev.path);
                    assert(entry_idx(es, ev.path) == i as int);
                }
                self.entries[i] = entry;
                proof {
                    assert(self@ =~= es.update(i as int, ev));
                    lemma_upsert_then_get(es, ev);
                }
                return ;
            }
            i += 1;
        }
        proof {
            lemma_entry_idx(es, ev.path);
            if entry_idx(es, ev.path) >= 0 {
                assert(es[entry_idx(es, ev.path)].path == ev.path);
            }
        }
        self.entries.push(entry);
        proof {
            assert(self@ =~= es.push(ev));
            lemma_upsert_then_get(es, ev);
        }
    }
}

/// The entry the sink writer records after a file's batch is fully
/// submitted: the file's fingerprint, the current UTC time, and a count of
/// all submissions, successes and failures alike.
pub fn batch_cache_entry(
    path: String,
    hash: String,
    now_nanos: u64,
    successful: u64,
    failed: u64,
) -> (e: CacheEntry)
    requires
        successful + failed <= u64::MAX,
    ensures
        e@.path == path@,
        e@.hash == hash@,
        e@.last_processed == now_nanos,
        e@.records_count == successful + failed,
{
    CacheEntry { path, hash, last_processed: now_nanos, records_count: successful + failed }
}

/// What the scanner does with a discovered file.
#[derive(Clone, Copy, PartialEq, Eq, Structural, Debug)]
pub enum ScanAction {
    Skip,
    Enqueue,
}

/// The view of an optional borrowed fingerprint.
pub open spec fn opt_str_view(o: Option<&String>) -> Option<Seq<char>> {
    match o {
        Some(s) => Some(s@),
        None => None,
    }
}

/// The scanner's decision for one discovered file: skip only when
/// reprocessing is not forced, an entry is cached, the fingerprint could be
/// recomputed, and the two fingerprints agree. A cache hit is a candidate
/// skip, never a guarantee; a fingerprint that could not be recomputed
/// falls through to processing.
pub open spec fn spec_scan_decision(
    force: bool,
    cached: Option<Seq<char>>,
    recomputed: Option<Seq<char>>,
) -> ScanAction {
    match (cached, recomputed) {
        (Some(c), Some(r)) => if !force && c == r {
            ScanAction::Skip
        } else {
            ScanAction::Enqueue
        },
        _ => ScanAction::Enqueue,
    }
}

/// Decides whether the scanner skips a discovered file or enqueues it.
pub fn scan_decision(force: bool, cached: Option<&String>, recomputed: Option<&String>) -> (r:
    ScanAction)
    ensures
        r == spec_scan_decision(force, opt_str_view(cached), opt_str_view(recomputed)),
{
    if force {
        return ScanAction::Enqueue;
    }
    match (cached, recomputed) {
        (Some(c), Some(r)) => if c.eq(r) {
            ScanAction::Skip
        } else {
            ScanAction::Enqueue
        },
        _ => ScanAction::Enqueue,
    }
}

impl IngestionCache {
    /// The scanner's full check for one discovered file: looks the path up
    /// and decides against the recomputed fingerprint. Under force the
    /// cache is not consulted at all.
    pub fn scan_file_decision(&self, force: bool, path: &String, recomputed: Option<&String>) -> (r:
        ScanAction)
        ensures
            r == spec_scan_decision(
                force,
                if entry_idx(self@, path@) >= 0 {
                    Some(self@[entry_idx(self@, path@)].hash)
                } else {
                    None
                },
                opt_str_view(recomputed),
            ),
    {
        if force {
            return ScanAction::Enqueue;
        }
        let cached: Option<&String> = match self.get(path) {
            Some(e) => Some(&e.hash),
            None => None,
        };
        scan_decision(force, cached, recomputed)
    }
}

/// Idempotence: once the writer has recorded a file's entry, rescanning the
/// unchanged file — same recomputed fingerprint, no force — finds that entry
/// and skips the file.
pub proof fn lemma_idempotent_rescan(es: Seq<CacheEntryV>, e: CacheEntryV)
    requires
        paths_unique(es),
    ensures
        paths_unique(spec_upsert_entries(es, e)),
        entry_idx(spec_upsert_entries(es, e), e.path) >= 0,
        spec_upsert_entries(es, e)[entry_idx(spec_upsert_entries(es, e), e.path)] == e,
        spec_scan_decision(false, Some(e.hash), Some(e.hash)) == ScanAction::Skip,
{
    lemma_upsert_then_get(es, e);
}

/// Change detection: a recomputed fingerprint differing from the cached one
/// forces reprocessing; an equal one is skipped; a fingerprint that could
/// not be recomputed is processed rather than skipped.
pub proof fn lemma_change_detection(cached: Seq<char>, recomputed: Seq<char>)
    ensures
        cached != recomputed ==> spec_scan_decision(false, Some(cached), Some(recomputed))
            == ScanAction::Enqueue,
        cached == recomputed ==> spec_scan_decision(false, Some(cached), Some(recomputed))
            == ScanAction::Skip,
        spec_scan_decision(false, Some(cached), None) == ScanAction::Enqueue,
{
}

/// Force-override: under the force flag every discovered file is enqueued,
/// whatever the cache holds.
pub proof fn lemma_force_override(cached: Option<Seq<char>>, recomputed: Option<Seq<char>>)
    ensures
        spec_scan_decision(true, cached, recomputed) == ScanAction::Enqueue,
{
}

} // verus!
