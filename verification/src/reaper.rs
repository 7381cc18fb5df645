//! The rules of the sweep that removes stale temporary files.
//!
//! The caller walks the tree. For each file it reports what it could learn of
//! it and is told whether to delete it; for each directory, once everything
//! below it has been dealt with, it reports what is left of the directory and
//! is told whether to try removing it. The outcome of every attempt goes into
//! a `SweepResult`.

use vstd::prelude::*;

verus! {

/// A point in time by its distance from the Unix epoch: whole seconds, and
/// nanoseconds on top of them, before the epoch or after it.
#[derive(Clone, Copy, Debug, PartialEq, Eq)]
pub struct Timestamp {
    pub before_epoch: bool,
    pub secs: u64,
    pub nanos: u32,
}

impl View for Timestamp {
    type V = int;

    /// Nanoseconds since the Unix epoch; negative before it.
    open spec fn view(&self) -> int {
        if self.before_epoch {
            -(self.secs * 1_000_000_000 + self.nanos)
        } else {
            self.secs * 1_000_000_000 + self.nanos
        }
    }
}

impl Timestamp {
    /// The time as signed nanoseconds.
    fn nanos_since_epoch(&self) -> (n: i128)
        ensures
            n == self@,
    {
        let distance: i128 = self.secs as i128 * 1_000_000_000 + self.nanos as i128;
        if self.before_epoch {
            -distance
        } else {
            distance
        }
    }
}

/// A length of time: whole seconds, and nanoseconds on top of them.
#[derive(Clone, Copy, Debug, PartialEq, Eq)]
pub struct Span {
    pub secs: u64,
    pub nanos: u32,
}

impl View for Span {
    type V = int;

    /// The length in nanoseconds.
    open spec fn view(&self) -> int {
        self.secs * 1_000_000_000 + self.nanos
    }
}

/// An entry last modified at `modified` is stale at `now` when more than
/// `max_age` lies between the two. One modified after `now` is never stale.
pub open spec fn is_stale(modified: Timestamp, now: Timestamp, max_age: Span) -> bool {
    now@ - modified@ > max_age@
}

/// Decides whether an entry is stale.
pub fn older_than(modified: Timestamp, now: Timestamp, max_age: Span) -> (stale: bool)
    ensures
        stale == is_stale(modified, now, max_age),
        modified@ > now@ ==> !stale,
{
    let then: i128 = modified.nanos_since_epoch();
    let at: i128 = now.nanos_since_epoch();
    let limit: i128 = max_age.secs as i128 * 1_000_000_000 + max_age.nanos as i128;
    at - then > limit
}

/// What the walk learned of a file.
#[derive(Clone, Copy, Debug, PartialEq, Eq)]
pub enum FileProbe {
    /// Its metadata, or its modification time, could not be read.
    Unreadable,
    /// Its modification time and its size in bytes.
    Seen { modified: Timestamp, size: u64 },
}

/// What to do with a file.
#[derive(Clone, Copy, Debug, PartialEq, Eq)]
pub enum FileVerdict {
    /// Leave it: it is fresh, or its modification time lies in the future.
    Keep,
    /// Delete it; `size` is what it held when probed.
    Delete { size: u64 },
    /// Count an error and move on.
    Fault,
}

/// The verdict on a file.
pub open spec fn file_verdict(probe: FileProbe, now: Timestamp, max_age: Span) -> FileVerdict {
    match probe {
        FileProbe::Unreadable => FileVerdict::Fault,
        FileProbe::Seen { modified, size } => if is_stale(modified, now, max_age) {
            FileVerdict::Delete { size }
        } else {
            FileVerdict::Keep
        },
    }
}

/// Decides what to do with a file.
pub fn judge_file(probe: FileProbe, now: Timestamp, max_age: Span) -> (verdict: FileVerdict)
    ensures
        verdict == file_verdict(probe, now, max_age),
{
    match probe {
        FileProbe::Unreadable => FileVerdict::Fault,
        FileProbe::Seen { modified, size } => {
            if older_than(modified, now, max_age) {
                FileVerdict::Delete { size }
            } else {
                FileVerdict::Keep
            }
        },
    }
}

/// What the walk learned of a directory after it dealt with its contents.
#[derive(Clone, Copy, Debug, PartialEq, Eq)]
pub enum DirProbe {
    /// Its metadata, or its modification time, could not be read.
    Unreadable,
    /// Its modification time, and whether it was seen to hold an entry still.
    Seen { modified: Timestamp, occupied: bool },
}

/// A directory is due for removal when it is empty and its own modification
/// time is stale.
pub open spec fn dir_is_due(probe: DirProbe, now: Timestamp, max_age: Span) -> bool {
    match probe {
        DirProbe::Unreadable => false,
        DirProbe::Seen { modified, occupied } => !occupied && is_stale(modified, now, max_age),
    }
}

/// Decides whether to try removing a directory.
pub fn judge_dir(probe: DirProbe, now: Timestamp, max_age: Span) -> (due: bool)
    ensures
        due == dir_is_due(probe, now, max_age),
{
    match probe {
        DirProbe::Unreadable => false,
        DirProbe::Seen { modified, occupied } => !occupied && older_than(modified, now, max_age),
    }
}

/// No file whose modification time lies after the reference time is deleted,
/// and no such directory is removed, whatever the maximum age.
pub proof fn law_future_entries_are_kept(
    modified: Timestamp,
    size: u64,
    occupied: bool,
    now: Timestamp,
    max_age: Span,
)
    requires
        modified@ > now@,
    ensures
        file_verdict(FileProbe::Seen { modified, size }, now, max_age) == FileVerdict::Keep,
        !dir_is_due(DirProbe::Seen { modified, occupied }, now, max_age),
{
}

/// A directory that still holds an entry is never removed.
pub proof fn law_occupied_directories_are_kept(modified: Timestamp, now: Timestamp, max_age: Span)
    ensures
        !dir_is_due(DirProbe::Seen { modified, occupied: true }, now, max_age),
{
}

/// The counters of one sweep.
#[derive(Clone, Copy, Debug, PartialEq, Eq)]
pub struct SweepResult {
    /// Files deleted and directories removed.
    pub deleted_count: u64,
    /// Bytes held by the deleted files.
    pub deleted_bytes: u64,
    /// Files that could not be probed or deleted.
    pub error_count: u64,
}

impl SweepResult {
    /// The counters before anything was visited.
    pub fn new() -> (r: SweepResult)
        ensures
            r == (SweepResult { deleted_count: 0, deleted_bytes: 0, error_count: 0 }),
    {
        SweepResult { deleted_count: 0, deleted_bytes: 0, error_count: 0 }
    }

    /// The counters after one more file could not be probed.
    pub open spec fn with_fault(self) -> SweepResult {
        SweepResult { error_count: (self.error_count + 1) as u64, ..self }
    }

    /// The counters after an attempt to delete a file of `size` bytes: a
    /// deletion counts the file and its bytes, a failure counts an error.
    pub open spec fn with_file_attempt(self, size: u64, deleted: bool) -> SweepResult {
        if deleted {
            SweepResult {
                deleted_count: (self.deleted_count + 1) as u64,
                deleted_bytes: (self.deleted_bytes + size) as u64,
                ..self
            }
        } else {
            self.with_fault()
        }
    }

    /// The counters after an attempt to remove a directory: a removal counts
    /// the directory, a failure counts nothing.
    pub open spec fn with_dir_attempt(self, removed: bool) -> SweepResult {
        if removed {
            SweepResult { deleted_count: (self.deleted_count + 1) as u64, ..self }
        } else {
            self
        }
    }

    /// The counters of two sweeps taken together.
    pub open spec fn merged(self, other: SweepResult) -> SweepResult {
        SweepResult {
            deleted_count: (self.deleted_count + other.deleted_count) as u64,
            deleted_bytes: (self.deleted_bytes + other.deleted_bytes) as u64,
            error_count: (self.error_count + other.error_count) as u64,
        }
    }

    /// Records a file that could not be probed.
    pub fn record_fault(self) -> (r: SweepResult)
        requires
            self.error_count < u64::MAX,
        ensures
            r == self.with_fault(),
            r.error_count == self.error_count + 1,
    {
        SweepResult { error_count: self.error_count + 1, ..self }
    }

    /// Records the outcome of an attempt to delete a file of `size` bytes.
    pub fn record_file_attempt(self, size: u64, deleted: bool) -> (r: SweepResult)
        requires
            deleted ==> self.deleted_count < u64::MAX && self.deleted_bytes + size <= u64::MAX,
            !deleted ==> self.error_count < u64::MAX,
        ensures
            r == self.with_file_attempt(size, deleted),
            deleted ==> r.deleted_count == self.deleted_count + 1 && r.deleted_bytes
                == self.deleted_bytes + size && r.error_count == self.error_count,
            !deleted ==> r.deleted_count == self.deleted_count && r.deleted_bytes
                == self.deleted_bytes && r.error_count == self.error_count + 1,
    {
        if deleted {
            SweepResult {
                deleted_count: self.deleted_count + 1,
                deleted_bytes: self.deleted_bytes + size,
                ..self
            }
        } else {
            self.record_fault()
        }
    }

    /// Records the outcome of an attempt to remove a directory.
    pub fn record_dir_attempt(self, removed: bool) -> (r: SweepResult)
        requires
            removed ==> self.deleted_count < u64::MAX,
        ensures
            r == self.with_dir_attempt(removed),
            r.deleted_count == self.deleted_count + if removed {
                1int
            } else {
                0int
            },
            r.deleted_bytes == self.deleted_bytes,
            r.error_count == self.error_count,
    {
        if removed {
            SweepResult { deleted_count: self.deleted_count + 1, ..self }
        } else {
            self
        }
    }

    /// Adds the counters of the sweep of a subtree to these.
    pub fn merge(self, other: SweepResult) -> (r: SweepResult)
        requires
            self.deleted_count + other.deleted_count <= u64::MAX,
            self.deleted_bytes + other.deleted_bytes <= u64::MAX,
            self.error_count + other.error_count <= u64::MAX,
        ensures
            r == self.merged(other),
            r.deleted_count == self.deleted_count + other.deleted_count,
            r.deleted_bytes == self.deleted_bytes + other.deleted_bytes,
            r.error_count == self.error_count + other.error_count,
    {
        SweepResult {
            deleted_count: self.deleted_count + other.deleted_count,
            deleted_bytes: self.deleted_bytes + other.deleted_bytes,
            error_count: self.error_count + other.error_count,
        }
    }
}

} // verus!
