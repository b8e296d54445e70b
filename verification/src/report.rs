use vstd::prelude::*;

use crate::convert::ConvertResult;

verus! {

/// How a file that was handed to the converter is reported.
#[derive(Debug, Clone, Copy, PartialEq, Eq, Structural)]
pub enum FileStatus {
    Error,
    Skipped,
    Changed,
    Unchanged,
}

/// The report for a conversion result: an error outweighs everything, then a
/// skip, then a change.
pub open spec fn status_for(error: bool, skipped: bool, changed: bool) -> FileStatus {
    if error {
        FileStatus::Error
    } else if skipped {
        FileStatus::Skipped
    } else if changed {
        FileStatus::Changed
    } else {
        FileStatus::Unchanged
    }
}

/// How a conversion result is reported.
pub fn status_of(result: &ConvertResult) -> (s: FileStatus)
    ensures
        s == status_for(result.error is Some, result.skipped, result.changed),
{
    if result.error.is_some() {
        FileStatus::Error
    } else if result.skipped {
        FileStatus::Skipped
    } else if result.changed {
        FileStatus::Changed
    } else {
        FileStatus::Unchanged
    }
}

/// Counts of the files of one run, by how they were reported.
#[derive(Debug, Clone, Copy, PartialEq, Eq, Structural)]
pub struct Tally {
    pub changed: u64,
    pub skipped: u64,
    pub unchanged: u64,
    pub errors: u64,
}

impl Tally {
    /// The count that `status` adds to.
    pub open spec fn count_of(&self, status: FileStatus) -> u64 {
        match status {
            FileStatus::Error => self.errors,
            FileStatus::Skipped => self.skipped,
            FileStatus::Changed => self.changed,
            FileStatus::Unchanged => self.unchanged,
        }
    }

    /// No file counted yet.
    pub fn new() -> (t: Tally)
        ensures
            t == (Tally { changed: 0, skipped: 0, unchanged: 0, errors: 0 }),
    {
        Tally { changed: 0, skipped: 0, unchanged: 0, errors: 0 }
    }

    /// Whether one more file of this status can be counted.
    pub fn has_room(&self, status: FileStatus) -> (r: bool)
        ensures
            r == (self.count_of(status) < u64::MAX),
    {
        match status {
            FileStatus::Error => self.errors < u64::MAX,
            FileStatus::Skipped => self.skipped < u64::MAX,
            FileStatus::Changed => self.changed < u64::MAX,
            FileStatus::Unchanged => self.unchanged < u64::MAX,
        }
    }

    /// Counts one more file of this status; the other counts stay.
    pub fn record(&mut self, status: FileStatus)
        requires
            old(self).count_of(status) < u64::MAX,
        ensures
            final(self).count_of(status) == old(self).count_of(status) + 1,
            forall|other: FileStatus|
                other != status ==> final(self).count_of(other) == old(self).count_of(other),
    {
        match status {
            FileStatus::Error => self.errors = self.errors + 1,
            FileStatus::Skipped => self.skipped = self.skipped + 1,
            FileStatus::Changed => self.changed = self.changed + 1,
            FileStatus::Unchanged => self.unchanged = self.unchanged + 1,
        }
    }
}

} // verus!
