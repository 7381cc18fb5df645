use server_monitor::reaper::{
    judge_dir, judge_file, older_than, DirProbe, FileProbe, FileVerdict, Span, SweepResult,
    Timestamp,
};
use server_monitor::schedule::{
    max_age, pause_after_sweep, MAX_AGE_SECS, MONITOR_INTERVAL_SECS, SWEEP_INTERVAL_SECS,
};

const HOUR: Span = Span { secs: 3600, nanos: 0 };

fn at(secs: i64) -> Timestamp {
    Timestamp { before_epoch: secs < 0, secs: secs.unsigned_abs(), nanos: 0 }
}

fn at_nanos(secs: u64, nanos: u32) -> Timestamp {
    Timestamp { before_epoch: false, secs, nanos }
}

#[test]
fn stale_means_strictly_older_than_the_maximum_age() {
    let now = at(1_000_000);
    assert!(older_than(at(1_000_000 - 7200), now, HOUR));
    assert!(!older_than(at(1_000_000 - 600), now, HOUR));
    assert!(!older_than(at(1_000_000 - 3600), now, HOUR));
    assert!(older_than(at_nanos(1_000_000 - 3601, 999_999_999), now, HOUR));
    assert!(!older_than(at(1_000_000 - 3600), now, Span { secs: 3600, nanos: 1 }));
    assert!(older_than(at(1_000_000 - 3600), at_nanos(1_000_000, 1), HOUR));
}

#[test]
fn times_before_the_epoch_and_far_apart_are_handled() {
    assert!(older_than(at(-7200), at(0), HOUR));
    assert!(!older_than(at(0), at(-7200), HOUR));
    assert!(older_than(at(-3000), at(3000), HOUR));
    assert!(!older_than(at(-1000), at(1000), HOUR));
    let first = Timestamp { before_epoch: true, secs: u64::MAX, nanos: u32::MAX };
    let last = Timestamp { before_epoch: false, secs: u64::MAX, nanos: u32::MAX };
    assert!(older_than(first, last, Span { secs: u64::MAX, nanos: u32::MAX }));
    assert!(!older_than(last, first, Span { secs: 0, nanos: 0 }));
    assert!(!older_than(first, first, Span { secs: 0, nanos: 0 }));
    let same = Timestamp { before_epoch: true, secs: 0, nanos: 0 };
    assert!(!older_than(same, at(0), Span { secs: 0, nanos: 0 }));
    assert!(older_than(
        Timestamp { before_epoch: true, secs: 1, nanos: 500_000_000 },
        at(0),
        Span { secs: 1, nanos: 499_999_999 }
    ));
    assert!(!older_than(
        Timestamp { before_epoch: true, secs: 1, nanos: 500_000_000 },
        at(0),
        Span { secs: 1, nanos: 500_000_000 }
    ));
}

#[test]
fn a_file_from_the_future_is_never_deleted() {
    let now = at(500);
    let ahead = FileProbe::Seen { modified: at_nanos(500, 1), size: 9 };
    assert_eq!(judge_file(ahead, now, Span { secs: 0, nanos: 0 }), FileVerdict::Keep);
    assert_eq!(judge_file(ahead, now, HOUR), FileVerdict::Keep);
    let far = FileProbe::Seen { modified: at_nanos(u64::MAX, 0), size: 9 };
    assert_eq!(judge_file(far, now, Span { secs: 0, nanos: 0 }), FileVerdict::Keep);
    let zero = Span { secs: 0, nanos: 0 };
    assert!(!judge_dir(DirProbe::Seen { modified: at(501), occupied: false }, now, zero));
    assert!(judge_dir(DirProbe::Seen { modified: at(499), occupied: false }, now, zero));
}

#[test]
fn an_unreadable_file_is_a_fault() {
    assert_eq!(judge_file(FileProbe::Unreadable, at(0), HOUR), FileVerdict::Fault);
}

fn dir(modified: Timestamp, occupied: bool) -> DirProbe {
    DirProbe::Seen { modified, occupied }
}

#[test]
fn a_directory_is_due_when_it_is_empty_and_stale() {
    let now = at(100_000);
    assert!(judge_dir(dir(at(100_000 - 3601), false), now, HOUR));
    assert!(!judge_dir(dir(at(100_000 - 3600), false), now, HOUR));
    assert!(!judge_dir(dir(at(100_000), false), now, HOUR));
    assert!(!judge_dir(DirProbe::Unreadable, now, HOUR));
}

#[test]
fn a_directory_that_holds_something_is_kept() {
    let now = at(100_000);
    assert!(!judge_dir(dir(at(100_000 - 3601), true), now, HOUR));
    assert!(!judge_dir(dir(at(0), true), now, Span { secs: 0, nanos: 0 }));
    assert!(!judge_dir(dir(at(100_000), true), now, HOUR));
}

#[test]
fn a_sweep_of_a_stale_tree_counts_files_and_directories() {
    let now = at(10 * 3600);
    let stale = at(3600);
    let mut result = SweepResult::new();
    for size in [10u64, 20, 30] {
        match judge_file(FileProbe::Seen { modified: stale, size }, now, HOUR) {
            FileVerdict::Delete { size } => result = result.record_file_attempt(size, size != 20),
            other => panic!("{:?}", other),
        }
    }
    assert!(!judge_dir(dir(stale, true), now, HOUR));
    let mut below = SweepResult::new();
    if judge_dir(dir(stale, false), now, HOUR) {
        below = below.record_dir_attempt(true);
    }
    result = result.merge(below);
    assert_eq!(result, SweepResult { deleted_count: 3, deleted_bytes: 40, error_count: 1 });
}

#[test]
fn sweep_deletes_the_old_file_and_leaves_the_fresh_one() {
    let now = at(1_700_000_000);
    let old = FileProbe::Seen { modified: at(1_700_000_000 - 2 * 3600), size: 4321 };
    let fresh = FileProbe::Seen { modified: at(1_700_000_000 - 600), size: 77 };
    let mut result = SweepResult::new();
    let mut deleted = Vec::new();
    for (name, probe) in [("old", old), ("fresh", fresh)] {
        match judge_file(probe, now, HOUR) {
            FileVerdict::Delete { size } => {
                deleted.push(name);
                result = result.record_file_attempt(size, true);
            }
            FileVerdict::Fault => result = result.record_fault(),
            FileVerdict::Keep => {}
        }
    }
    assert_eq!(deleted, vec!["old"]);
    assert_eq!(
        result,
        SweepResult { deleted_count: 1, deleted_bytes: 4321, error_count: 0 }
    );
}

#[test]
fn counters_follow_the_outcomes() {
    let start = SweepResult::new();
    assert_eq!(start, SweepResult { deleted_count: 0, deleted_bytes: 0, error_count: 0 });
    let r = start.record_file_attempt(10, true);
    assert_eq!(r, SweepResult { deleted_count: 1, deleted_bytes: 10, error_count: 0 });
    let r = r.record_file_attempt(25, false);
    assert_eq!(r, SweepResult { deleted_count: 1, deleted_bytes: 10, error_count: 1 });
    let r = r.record_fault();
    assert_eq!(r, SweepResult { deleted_count: 1, deleted_bytes: 10, error_count: 2 });
    let r = r.record_dir_attempt(true);
    assert_eq!(r, SweepResult { deleted_count: 2, deleted_bytes: 10, error_count: 2 });
    let r = r.record_dir_attempt(false);
    assert_eq!(r, SweepResult { deleted_count: 2, deleted_bytes: 10, error_count: 2 });
}

#[test]
fn merging_adds_the_counters() {
    let a = SweepResult { deleted_count: 2, deleted_bytes: 10, error_count: 1 };
    let b = SweepResult { deleted_count: 3, deleted_bytes: 500, error_count: 0 };
    assert_eq!(
        a.merge(b),
        SweepResult { deleted_count: 5, deleted_bytes: 510, error_count: 1 }
    );
    assert_eq!(a.merge(SweepResult::new()), a);
}

#[test]
fn the_reaper_runs_once_or_every_hour() {
    assert_eq!(pause_after_sweep(false), None);
    assert_eq!(pause_after_sweep(true), Some(3600));
    assert_eq!(SWEEP_INTERVAL_SECS, 3600);
    assert_eq!(MONITOR_INTERVAL_SECS, 3600);
    assert_eq!(MAX_AGE_SECS, 3600);
    assert_eq!(max_age(), Span { secs: 3600, nanos: 0 });
}
