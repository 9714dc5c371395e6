//! The durable processor cursor and its gap detector.
//!
//! The cursor records, per processor, the highest transaction version
//! whose batch committed (published and written), together with the
//! timestamp of its last transaction.  A batch may commit only when it
//! starts exactly one past the stored version: any gap is fatal and
//! leaves the cursor unchanged.

use vstd::prelude::*;

verus! {

/// How often rapid cursor advances are coalesced into one persisted
/// update, in seconds.
pub const DEFAULT_UPDATE_PROCESSOR_STATUS_SECS: u64 = 1;

/// The durable `(processor_name, last_success_version, last_timestamp)`
/// row.
pub struct ProcessorStatus {
    pub processor_name: String,
    pub last_success_version: u64,
    /// Microseconds since the epoch of the last committed transaction.
    pub last_transaction_timestamp: i64,
}

#[derive(PartialEq, Eq, Structural, Debug)]
pub enum CursorError {
    /// The batch does not start one past the stored version.
    Gap { stored: u64, batch_start: u64 },
}

/// A batch `[start, end]` may commit on top of `stored` exactly when it
/// starts one past the stored version.
pub open spec fn commit_allowed(stored: u64, start: u64, end: u64) -> bool {
    start == stored + 1 && start <= end
}

impl ProcessorStatus {
    pub fn new(processor_name: String, last_success_version: u64, last_transaction_timestamp: i64)
        -> (r: ProcessorStatus)
        ensures
            r.processor_name == processor_name,
            r.last_success_version == last_success_version,
            r.last_transaction_timestamp == last_transaction_timestamp,
    {
        ProcessorStatus { processor_name, last_success_version, last_transaction_timestamp }
    }

    /// Commits one batch: advances to its end version if it extends the
    /// stored version contiguously, and refuses it as a gap otherwise,
    /// leaving the row unchanged.  The new version strictly exceeds the
    /// stored one, so the durable update is monotonic.
    pub fn record_success(&mut self, start_version: u64, end_version: u64, timestamp: i64) -> (r:
        Result<(), CursorError>)
        requires
            start_version <= end_version,
            old(self).last_success_version < u64::MAX,
        ensures
            match r {
                Ok(()) => {
                    &&& commit_allowed(old(self).last_success_version, start_version, end_version)
                    &&& final(self).last_success_version == end_version
                    &&& final(self).last_success_version > old(self).last_success_version
                    &&& final(self).last_transaction_timestamp == timestamp
                    &&& final(self).processor_name == old(self).processor_name
                },
                Err(CursorError::Gap { stored, batch_start }) => {
                    &&& !commit_allowed(old(self).last_success_version, start_version, end_version)
                    &&& *final(self) == *old(self)
                    &&& stored == old(self).last_success_version
                    &&& batch_start == start_version
                },
            },
    {
        if start_version != self.last_success_version + 1 {
            return Err(
                CursorError::Gap { stored: self.last_success_version, batch_start: start_version },
            );
        }
        self.last_success_version = end_version;
        self.last_transaction_timestamp = timestamp;
        Ok(())
    }
}

/// Version monotonicity: when two batches commit in succession, the
/// second starts exactly one past where the first ended, so committed
/// spans tile the version space without gap or overlap.
pub proof fn lemma_version_monotonicity(
    stored: u64,
    start1: u64,
    end1: u64,
    start2: u64,
    end2: u64,
)
    requires
        commit_allowed(stored, start1, end1),
        commit_allowed(end1, start2, end2),
    ensures
        start2 == end1 + 1,
        end2 > end1,
        end1 > stored,
{
}

/// Whether enough time has passed since the last persisted update for
/// the coalesced cursor advance to be written out.
pub fn should_persist_status(elapsed_secs: u64) -> (r: bool)
    ensures
        r == (elapsed_secs >= DEFAULT_UPDATE_PROCESSOR_STATUS_SECS),
{
    elapsed_secs >= DEFAULT_UPDATE_PROCESSOR_STATUS_SECS
}

} // verus!
