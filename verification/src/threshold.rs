//! The threshold ladder and the alert state machine that climbs it.
//!
//! Usage of a filesystem is an integer percentage. The ladder is a fixed
//! ascending list of percentages, its rungs. The only memory between two polls
//! is the marker: the highest rung that was already alerted for since usage
//! last fell below the reset floor.

use vstd::prelude::*;

verus! {

/// Usage below this percentage ends an excursion: the marker is cleared.
pub const RESET_FLOOR: u8 = 45;

/// The number of rungs on the ladder.
pub const RUNG_COUNT: usize = 6;

/// The rungs of the ladder, ascending.
pub open spec fn ladder() -> Seq<u8> {
    seq![50u8, 60u8, 70u8, 80u8, 90u8, 95u8]
}

/// `rung` is one of the ladder's percentages.
pub open spec fn is_rung(rung: u8) -> bool {
    ladder().contains(rung)
}

/// The highest of the lowest `n` rungs that `usage` has reached, scanning from
/// the top of those `n` downwards.
pub open spec fn top_rung_among(usage: u8, n: nat) -> Option<u8>
    decreases n,
{
    if n == 0 || n > ladder().len() {
        None
    } else if ladder()[n - 1] <= usage {
        Some(ladder()[n - 1])
    } else {
        top_rung_among(usage, (n - 1) as nat)
    }
}

/// The highest rung at or below `usage`, if usage has reached the ladder.
pub open spec fn top_rung(usage: u8) -> Option<u8> {
    top_rung_among(usage, ladder().len())
}

/// `top_rung` written out rung by rung.
pub proof fn lemma_top_rung_cases(usage: u8)
    ensures
        top_rung(usage) == if usage >= 95 {
            Some(95u8)
        } else if usage >= 90 {
            Some(90u8)
        } else if usage >= 80 {
            Some(80u8)
        } else if usage >= 70 {
            Some(70u8)
        } else if usage >= 60 {
            Some(60u8)
        } else if usage >= 50 {
            Some(50u8)
        } else {
            None
        },
{
    reveal_with_fuel(top_rung_among, 7);
}

/// The ladder ascends strictly, and the reset floor lies below its first rung.
pub proof fn law_ladder_ascends()
    ensures
        ladder().len() == RUNG_COUNT,
        RESET_FLOOR < ladder()[0],
        forall|i: int, j: int| 0 <= i < j < ladder().len() ==> ladder()[i] < ladder()[j],
{
}

/// `top_rung` names a rung that usage has reached, and no reached rung is
/// higher; it is `None` exactly when usage is below every rung.
pub proof fn law_top_rung_is_highest(usage: u8)
    ensures
        match top_rung(usage) {
            Some(r) => is_rung(r) && r <= usage && forall|q: u8|
                is_rung(q) && q <= usage ==> q <= r,
            None => forall|q: u8| is_rung(q) ==> usage < q,
        },
{
    lemma_top_rung_cases(usage);
    let l = ladder();
    assert(l[0] == 50 && l[1] == 60 && l[2] == 70 && l[3] == 80 && l[4] == 90 && l[5] == 95);
    assert forall|q: u8| is_rung(q) implies q == 50 || q == 60 || q == 70 || q == 80 || q == 90
        || q == 95 by {
        let i = choose|i: int| 0 <= i < l.len() && l[i] == q;
        assert(0 <= i < 6);
    }
}

/// The rungs as an array, ascending.
pub fn rungs() -> (r: [u8; 6])
    ensures
        r@ == ladder(),
{
    let r: [u8; 6] = [50, 60, 70, 80, 90, 95];
    assert(r@ =~= ladder());
    r
}

/// Finds the highest rung at or below `usage` by scanning the ladder from the
/// top down.
pub fn highest_rung(usage: u8) -> (r: Option<u8>)
    ensures
        r == top_rung(usage),
{
    let rungs = rungs();
    let mut i: usize = RUNG_COUNT;
    while i > 0
        invariant
            i <= 6,
            rungs@ == ladder(),
            top_rung(usage) == top_rung_among(usage, i as nat),
        decreases i,
    {
        i = i - 1;
        if rungs[i] <= usage {
            return Some(rungs[i]);
        }
    }
    None
}

/// Where a usage percentage stands relative to the floor and the ladder.
#[derive(Clone, Copy, Debug, PartialEq, Eq)]
pub enum UsageBand {
    /// Below the reset floor.
    BelowFloor,
    /// At or above the reset floor, below the first rung.
    Quiet,
    /// On the ladder; the value is the highest rung reached.
    AtRung(u8),
}

/// The band of a usage percentage.
pub open spec fn band_of(usage: u8) -> UsageBand {
    if usage < RESET_FLOOR {
        UsageBand::BelowFloor
    } else {
        match top_rung(usage) {
            Some(r) => UsageBand::AtRung(r),
            None => UsageBand::Quiet,
        }
    }
}

/// Classifies a usage percentage.
pub fn classify(usage: u8) -> (band: UsageBand)
    ensures
        band == band_of(usage),
{
    if usage < RESET_FLOOR {
        UsageBand::BelowFloor
    } else {
        match highest_rung(usage) {
            Some(r) => UsageBand::AtRung(r),
            None => UsageBand::Quiet,
        }
    }
}

/// A rung is news when no marker is set or the rung lies above the marker.
pub open spec fn is_news(rung: u8, marker: Option<u8>) -> bool {
    match marker {
        None => true,
        Some(m) => rung > m,
    }
}

/// Tells whether reaching `rung` calls for an alert, given the marker.
pub fn crosses_new_rung(rung: u8, marker: Option<u8>) -> (news: bool)
    ensures
        news == is_news(rung, marker),
{
    match marker {
        None => true,
        Some(m) => rung > m,
    }
}

/// What one poll decides: the rung to alert for, if any, and the marker to
/// carry into the next poll.
#[derive(Clone, Copy, Debug, PartialEq, Eq)]
pub struct Decision {
    /// The rung to alert for.
    pub alert: Option<u8>,
    /// The marker after this poll.
    pub marker: Option<u8>,
}

/// The transition of the tracker.
///
/// Below the floor the marker is cleared and nothing is alerted. Between the
/// floor and the first rung nothing changes. On the ladder, the highest rung
/// reached is alerted and becomes the marker if it is news; otherwise nothing
/// changes.
pub open spec fn transition(usage: u8, marker: Option<u8>) -> Decision {
    match band_of(usage) {
        UsageBand::BelowFloor => Decision { alert: None, marker: None },
        UsageBand::Quiet => Decision { alert: None, marker },
        UsageBand::AtRung(r) => if is_news(r, marker) {
            Decision { alert: Some(r), marker: Some(r) }
        } else {
            Decision { alert: None, marker }
        },
    }
}

/// Runs one poll of the tracker.
pub fn evaluate(usage: u8, marker: Option<u8>) -> (decision: Decision)
    ensures
        decision == transition(usage, marker),
{
    match classify(usage) {
        UsageBand::BelowFloor => Decision { alert: None, marker: None },
        UsageBand::Quiet => Decision { alert: None, marker },
        UsageBand::AtRung(r) => {
            if crosses_new_rung(r, marker) {
                Decision { alert: Some(r), marker: Some(r) }
            } else {
                Decision { alert: None, marker }
            }
        },
    }
}

/// The percentage of a filesystem in use, truncated to a whole number.
///
/// There is none where the filesystem reports no blocks at all, or more
/// available blocks than it has.
pub open spec fn usage_percent_of(total_blocks: u64, available_blocks: u64) -> Option<u8> {
    if total_blocks == 0 || available_blocks > total_blocks {
        None
    } else {
        Some((((total_blocks - available_blocks) * 100) / (total_blocks as int)) as u8)
    }
}

/// Computes the usage percentage from the block counts of a filesystem.
pub fn usage_percent(total_blocks: u64, available_blocks: u64) -> (pct: Option<u8>)
    ensures
        pct == usage_percent_of(total_blocks, available_blocks),
        pct matches Some(p) ==> p <= 100 && p * total_blocks <= (total_blocks - available_blocks)
            * 100 < (p + 1) * total_blocks,
{
    if total_blocks == 0 || available_blocks > total_blocks {
        return None;
    }
    let used: u128 = (total_blocks - available_blocks) as u128;
    let total: u128 = total_blocks as u128;
    let scaled: u128 = used * 100;
    let pct: u128 = scaled / total;
    proof {
        let s = scaled as int;
        let t = total as int;
        assert(s <= 100 * t);
        assert(s / t <= 100 && (s / t) * t <= s < (s / t + 1) * t) by (nonlinear_arith)
            requires
                0 <= s <= 100 * t,
                t > 0,
        ;
    }
    Some(pct as u8)
}

} // verus!
