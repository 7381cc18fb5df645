//! What the tracker does over a whole sequence of polls.
//!
//! `replay` folds the transition over a sequence of usage percentages, on the
//! understanding that every alert is delivered and the marker is committed
//! before the next poll. The laws below are stated over it.

use vstd::prelude::*;
use crate::threshold::{
    is_news, ladder, lemma_top_rung_cases, top_rung, transition, RESET_FLOOR,
};

verus! {

/// What a sequence of polls leaves behind: the rungs alerted for, in order,
/// and the marker at the end.
pub ghost struct Outcome {
    pub alerts: Seq<u8>,
    pub marker: Option<u8>,
}

/// The outcome of polling `usages` in order, starting from `marker`.
pub open spec fn replay(usages: Seq<u8>, marker: Option<u8>) -> Outcome
    decreases usages.len(),
{
    if usages.len() == 0 {
        Outcome { alerts: Seq::empty(), marker }
    } else {
        let before = replay(usages.drop_last(), marker);
        let decision = transition(usages.last(), before.marker);
        Outcome {
            alerts: match decision.alert {
                Some(r) => before.alerts.push(r),
                None => before.alerts,
            },
            marker: decision.marker,
        }
    }
}

/// No poll reads lower than the poll before it.
pub open spec fn never_falls(usages: Seq<u8>) -> bool {
    forall|i: int, j: int| 0 <= i <= j < usages.len() ==> usages[i] <= usages[j]
}

/// No poll reads below the reset floor.
pub open spec fn stays_above_floor(usages: Seq<u8>) -> bool {
    forall|i: int| 0 <= i < usages.len() ==> usages[i] >= RESET_FLOOR
}

/// Each element is greater than the one before it.
pub open spec fn strictly_ascending(s: Seq<u8>) -> bool {
    forall|i: int, j: int| 0 <= i < j < s.len() ==> s[i] < s[j]
}

/// At some poll, `rung` is the highest rung that usage has reached.
pub open spec fn reaches(usages: Seq<u8>, rung: u8) -> bool {
    exists|i: int| 0 <= i < usages.len() && top_rung(#[trigger] usages[i]) == Some(rung)
}

/// How many times `x` occurs in `s`.
pub open spec fn count_of(s: Seq<u8>, x: u8) -> nat
    decreases s.len(),
{
    if s.len() == 0 {
        0
    } else {
        count_of(s.drop_last(), x) + if s.last() == x {
            1nat
        } else {
            0nat
        }
    }
}

/// What a climb leaves behind: the marker is the highest rung at the last
/// poll, the alerts ascend up to it, and a rung is among them exactly when it
/// was the highest rung at some poll.
proof fn lemma_climb(usages: Seq<u8>)
    requires
        never_falls(usages),
    ensures
        ({
            let o = replay(usages, None);
            &&& strictly_ascending(o.alerts)
            &&& o.marker == if usages.len() == 0 {
                None
            } else {
                top_rung(usages.last())
            }
            &&& o.alerts.len() > 0 ==> o.marker == Some(o.alerts.last())
            &&& o.alerts.len() == 0 ==> o.marker is None
            &&& forall|r: u8| o.alerts.contains(r) <==> reaches(usages, r)
        }),
    decreases usages.len(),
{
    let o = replay(usages, None);
    if usages.len() == 0 {
        assert forall|r: u8| o.alerts.contains(r) <==> reaches(usages, r) by {}
    } else {
        let prefix = usages.drop_last();
        let u = usages.last();
        let n = prefix.len() as int;
        assert(forall|i: int| 0 <= i < n ==> prefix[i] == usages[i]);
        assert(never_falls(prefix));
        lemma_climb(prefix);
        let b = replay(prefix, None);
        let d = transition(u, b.marker);
        lemma_top_rung_cases(u);
        if n > 0 {
            lemma_top_rung_cases(prefix.last());
            assert(prefix.last() == usages[n - 1]);
            assert(usages[n - 1] <= usages[n]);
        }
        assert(o.marker == top_rung(u));
        assert(strictly_ascending(o.alerts));
        assert forall|r: u8| o.alerts.contains(r) <==> reaches(usages, r) by {
            if o.alerts.contains(r) {
                let k = choose|k: int| 0 <= k < o.alerts.len() && o.alerts[k] == r;
                if k < b.alerts.len() {
                    assert(b.alerts[k] == r);
                    assert(b.alerts.contains(r));
                    assert(reaches(prefix, r));
                    let i = choose|i: int|
                        0 <= i < prefix.len() && top_rung(#[trigger] prefix[i]) == Some(r);
                    assert(top_rung(usages[i]) == Some(r));
                } else {
                    assert(d.alert == Some(r));
                    assert(top_rung(usages[n]) == Some(r));
                }
                assert(reaches(usages, r));
            }
            if reaches(usages, r) {
                let i = choose|i: int|
                    0 <= i < usages.len() && top_rung(#[trigger] usages[i]) == Some(r);
                if i < n {
                    assert(top_rung(prefix[i]) == Some(r));
                    assert(reaches(prefix, r));
                    assert(b.alerts.contains(r));
                    let k = choose|k: int| 0 <= k < b.alerts.len() && b.alerts[k] == r;
                    assert(o.alerts[k] == r);
                } else {
                    assert(top_rung(u) == Some(r));
                    assert(o.alerts.len() > 0);
                    assert(o.alerts[o.alerts.len() - 1] == r);
                }
                assert(o.alerts.contains(r));
            }
        }
    }
}

/// Polling `a` and then `b` alerts for what `a` alerts for, followed by what
/// `b` alerts for when started from the marker that `a` left.
pub proof fn lemma_replay_concat(a: Seq<u8>, b: Seq<u8>, marker: Option<u8>)
    ensures
        replay(a + b, marker).alerts == replay(a, marker).alerts + replay(
            b,
            replay(a, marker).marker,
        ).alerts,
        replay(a + b, marker).marker == replay(b, replay(a, marker).marker).marker,
    decreases b.len(),
{
    let mid = replay(a, marker);
    if b.len() == 0 {
        assert(a + b =~= a);
        assert(mid.alerts + Seq::<u8>::empty() =~= mid.alerts);
    } else {
        assert((a + b).drop_last() =~= a + b.drop_last());
        assert((a + b).last() == b.last());
        lemma_replay_concat(a, b.drop_last(), marker);
        let rest = replay(b.drop_last(), mid.marker);
        let d = transition(b.last(), rest.marker);
        match d.alert {
            Some(r) => {
                assert((mid.alerts + rest.alerts).push(r) =~= mid.alerts + rest.alerts.push(r));
            },
            None => {},
        }
    }
}

/// Occurrences in two sequences set one after the other add up.
proof fn lemma_count_concat(a: Seq<u8>, b: Seq<u8>, x: u8)
    ensures
        count_of(a + b, x) == count_of(a, x) + count_of(b, x),
    decreases b.len(),
{
    if b.len() == 0 {
        assert(a + b =~= a);
    } else {
        assert((a + b).drop_last() =~= a + b.drop_last());
        lemma_count_concat(a, b.drop_last(), x);
    }
}

/// In an ascending sequence nothing occurs twice.
proof fn lemma_count_in_ascending(s: Seq<u8>, x: u8)
    requires
        strictly_ascending(s),
    ensures
        count_of(s, x) == if s.contains(x) {
            1nat
        } else {
            0nat
        },
    decreases s.len(),
{
    if s.len() > 0 {
        let prefix = s.drop_last();
        assert(strictly_ascending(prefix));
        lemma_count_in_ascending(prefix, x);
        if s.last() == x {
            if prefix.contains(x) {
                let k = choose|k: int| 0 <= k < prefix.len() && prefix[k] == x;
                assert(s[k] < s[s.len() - 1]);
            }
            assert(s[s.len() - 1] == x);
        } else {
            if s.contains(x) {
                let k = choose|k: int| 0 <= k < s.len() && s[k] == x;
                assert(prefix[k] == x);
            }
            if prefix.contains(x) {
                let k = choose|k: int| 0 <= k < prefix.len() && prefix[k] == x;
                assert(s[k] == x);
            }
        }
    }
}

/// While usage climbs, however coarsely it is polled, each rung that is the
/// highest reached at some poll is alerted for exactly once, and the alerts
/// come in increasing order.
pub proof fn law_climb_alerts_once_per_rung(usages: Seq<u8>)
    requires
        never_falls(usages),
    ensures
        strictly_ascending(replay(usages, None).alerts),
        forall|r: u8| replay(usages, None).alerts.contains(r) <==> reaches(usages, r),
        forall|r: u8|
            count_of(replay(usages, None).alerts, r) == if reaches(usages, r) {
                1nat
            } else {
                0nat
            },
{
    lemma_climb(usages);
    assert forall|r: u8|
        count_of(replay(usages, None).alerts, r) == if reaches(usages, r) {
            1nat
        } else {
            0nat
        } by {
        lemma_count_in_ascending(replay(usages, None).alerts, r);
    }
}

/// A rung reached in two climbs that a fall below the reset floor separates is
/// alerted for twice, once in each.
pub proof fn law_new_excursion_alerts_again(first: Seq<u8>, low: u8, second: Seq<u8>, rung: u8)
    requires
        never_falls(first),
        never_falls(second),
        low < RESET_FLOOR,
        reaches(first, rung),
        reaches(second, rung),
    ensures
        count_of(replay(first.push(low) + second, None).alerts, rung) == 2,
{
    let after_first = replay(first, None);
    let after_low = replay(first.push(low), None);
    assert(first.push(low).drop_last() =~= first);
    assert(after_low.marker is None);
    assert(after_low.alerts == after_first.alerts);
    lemma_replay_concat(first.push(low), second, None);
    lemma_count_concat(after_low.alerts, replay(second, None).alerts, rung);
    law_climb_alerts_once_per_rung(first);
    law_climb_alerts_once_per_rung(second);
}

/// While usage stays below the first rung nothing is alerted for and no
/// marker appears.
pub proof fn law_silent_below_ladder(usages: Seq<u8>)
    requires
        forall|i: int| 0 <= i < usages.len() ==> usages[i] < ladder()[0],
    ensures
        replay(usages, None).alerts.len() == 0,
        replay(usages, None).marker is None,
    decreases usages.len(),
{
    if usages.len() > 0 {
        let prefix = usages.drop_last();
        assert(forall|i: int| 0 <= i < prefix.len() ==> prefix[i] == usages[i]);
        law_silent_below_ladder(prefix);
        lemma_top_rung_cases(usages.last());
    }
}

/// Polling the same usage a second time, with the marker that the first poll
/// left, alerts for nothing and leaves that marker as it is: of the two polls
/// at most one alerts.
pub proof fn law_repeat_poll_is_silent(usage: u8, marker: Option<u8>)
    ensures
        transition(usage, transition(usage, marker).marker).alert is None,
        transition(usage, transition(usage, marker).marker).marker == transition(
            usage,
            marker,
        ).marker,
        replay(seq![usage, usage], marker).alerts.len() <= 1,
        replay(seq![usage, usage], marker).marker == transition(usage, marker).marker,
{
    let twice = seq![usage, usage];
    let once = twice.drop_last();
    assert(once =~= seq![usage]);
    assert(once.drop_last() =~= Seq::<u8>::empty());
    assert(replay(once.drop_last(), marker).marker == marker);
    assert(replay(once, marker).marker == transition(usage, marker).marker);
}

/// Within one excursion, however usage moves above the floor, the alerts
/// come in increasing order, so that no rung is alerted for twice; each is
/// news against the marker the excursion started with; and the marker at the
/// end is the last rung alerted for, or the marker at the start where there
/// was no alert.
pub proof fn law_no_rung_twice_in_an_excursion(usages: Seq<u8>, marker: Option<u8>)
    requires
        stays_above_floor(usages),
    ensures
        strictly_ascending(replay(usages, marker).alerts),
        forall|i: int|
            0 <= i < replay(usages, marker).alerts.len() ==> is_news(
                #[trigger] replay(usages, marker).alerts[i],
                marker,
            ),
        replay(usages, marker).marker == if replay(usages, marker).alerts.len() > 0 {
            Some(replay(usages, marker).alerts.last())
        } else {
            marker
        },
        forall|r: u8| count_of(replay(usages, marker).alerts, r) <= 1,
    decreases usages.len(),
{
    if usages.len() > 0 {
        let prefix = usages.drop_last();
        assert(forall|i: int| 0 <= i < prefix.len() ==> prefix[i] == usages[i]);
        law_no_rung_twice_in_an_excursion(prefix, marker);
        lemma_top_rung_cases(usages.last());
        assert(usages[usages.len() - 1] >= RESET_FLOOR);
    }
    assert forall|r: u8| count_of(replay(usages, marker).alerts, r) <= 1 by {
        lemma_count_in_ascending(replay(usages, marker).alerts, r);
    }
}

/// Losing the marker never hides an alert: whatever a poll alerts for with a
/// marker, it alerts for without one.
pub proof fn law_missing_marker_hides_no_alert(usage: u8, marker: Option<u8>)
    ensures
        transition(usage, marker).alert is Some ==> transition(usage, None).alert == transition(
            usage,
            marker,
        ).alert,
{
}

} // verus!
