//! Run statistics: six monotonically increasing counters, mutated by the
//! three stages and read once for the final report. One collector is
//! constructed per run and threaded explicitly; the caller guards it with
//! its own exclusion mechanism.
use vstd::prelude::*;

verus! {

/// The counter set of one run.
#[derive(Clone, Copy, PartialEq, Eq, Structural, Debug)]
pub struct ImportStats {
    pub files_found: u64,
    pub files_processed: u64,
    pub files_skipped: u64,
    pub records_processed: u64,
    pub successful_inserts: u64,
    pub failed_inserts: u64,
}

impl ImportStats {
    /// All counters start at zero.
    pub fn new() -> (r: Self)
        ensures
            r.files_found == 0,
            r.files_processed == 0,
            r.files_skipped == 0,
            r.records_processed == 0,
            r.successful_inserts == 0,
            r.failed_inserts == 0,
    {
        ImportStats {
            files_found: 0,
            files_processed: 0,
            files_skipped: 0,
            records_processed: 0,
            successful_inserts: 0,
            failed_inserts: 0,
        }
    }

    /// The scanner found `n` more candidate files.
    pub fn add_files_found(&mut self, n: u64)
        requires
            old(self).files_found + n <= u64::MAX,
        ensures
            *final(self) == (ImportStats { files_found: (old(self).files_found + n) as u64, ..*old(self) }),
    {
        self.files_found = self.files_found + n;
    }

    /// The scanner skipped `n` more unchanged files.
    pub fn add_files_skipped(&mut self, n: u64)
        requires
            old(self).files_skipped + n <= u64::MAX,
        ensures
            *final(self) == (ImportStats {
                files_skipped: (old(self).files_skipped + n) as u64,
                ..*old(self)
            }),
    {
        self.files_skipped = self.files_skipped + n;
    }

    /// The parser took on `n` more files.
    pub fn add_files_processed(&mut self, n: u64)
        requires
            old(self).files_processed + n <= u64::MAX,
        ensures
            *final(self) == (ImportStats {
                files_processed: (old(self).files_processed + n) as u64,
                ..*old(self)
            }),
    {
        self.files_processed = self.files_processed + n;
    }

    /// The parser decoded `n` more records.
    pub fn add_records_processed(&mut self, n: u64)
        requires
            old(self).records_processed + n <= u64::MAX,
        ensures
            *final(self) == (ImportStats {
                records_processed: (old(self).records_processed + n) as u64,
                ..*old(self)
            }),
    {
        self.records_processed = self.records_processed + n;
    }

    /// The sink writer finished a batch: `successful` writes were accepted
    /// and `failed` rejected.
    pub fn add_write_results(&mut self, successful: u64, failed: u64)
        requires
            old(self).successful_inserts + successful <= u64::MAX,
            old(self).failed_inserts + failed <= u64::MAX,
        ensures
            *final(self) == (ImportStats {
                successful_inserts: (old(self).successful_inserts + successful) as u64,
                failed_inserts: (old(self).failed_inserts + failed) as u64,
                ..*old(self)
            }),
    {
        self.successful_inserts = self.successful_inserts + successful;
        self.failed_inserts = self.failed_inserts + failed;
    }
}

} // verus!
