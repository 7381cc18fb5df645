//! The two checks of one monitor cycle and the alerts they raise.
//!
//! The budget check compares the size of the watched directory with its
//! budget and alerts on every cycle in which the size is above it. The
//! percentage check runs the usage of the filesystem through the threshold
//! tracker and alerts only for a rung that is news. Its marker is written
//! after the alert was delivered, so that an alert that never left the host
//! is raised again at the next poll.

use vstd::prelude::*;
use vstd::string::StringExecFns;
use crate::marker::{marker_text, render_marker};
use crate::size::{rendered, SizeValue};
use crate::text::{decimal, push_decimal};
use crate::threshold::{band_of, crosses_new_rung, is_news, transition, UsageBand};

verus! {

/// The alert for a directory that is over its budget.
pub open spec fn budget_alert_text(current: SizeValue, budget: SizeValue) -> Seq<char> {
    "\u{26a0}\u{fe0f} Server Alert: ~/.local/state is "@ + rendered(current.bytes)
        + ", exceeds threshold of "@ + rendered(budget.bytes)
}

/// The alert for a filesystem whose usage reached a new rung.
pub open spec fn usage_alert_text(usage: u8, rung: u8) -> Seq<char> {
    "\u{26a0}\u{fe0f} Server Alert: / disk usage at "@ + decimal(usage as nat) + "% (crossed "@
        + decimal(rung as nat) + "% threshold)"@
}

/// The budget check: the alert to send, if the directory is over its budget.
/// Nothing is remembered between cycles.
pub fn budget_alert(current: SizeValue, budget: SizeValue) -> (message: Option<String>)
    ensures
        match message {
            Some(m) => current.bytes > budget.bytes && m@ == budget_alert_text(current, budget),
            None => current.bytes <= budget.bytes,
        },
{
    if !current.exceeds(&budget) {
        return None;
    }
    let mut m = String::from_str("\u{26a0}\u{fe0f} Server Alert: ~/.local/state is ");
    let size = current.render();
    m.append(size.as_str());
    m.append(", exceeds threshold of ");
    let limit = budget.render();
    m.append(limit.as_str());
    Some(m)
}

/// The percentage check once usage stands on `rung`: the alert to send, if
/// the rung is news against the marker.
pub fn usage_alert(usage: u8, rung: u8, marker: Option<u8>) -> (message: Option<String>)
    ensures
        match message {
            Some(m) => is_news(rung, marker) && m@ == usage_alert_text(usage, rung),
            None => !is_news(rung, marker),
        },
        band_of(usage) == UsageBand::AtRung(rung) ==> (message is Some <==> transition(
            usage,
            marker,
        ).alert == Some(rung)),
{
    if !crosses_new_rung(rung, marker) {
        return None;
    }
    let mut m = String::from_str("\u{26a0}\u{fe0f} Server Alert: / disk usage at ");
    push_decimal(&mut m, usage as u64);
    m.append("% (crossed ");
    push_decimal(&mut m, rung as u64);
    m.append("% threshold)");
    Some(m)
}

/// The marker in durable storage after one poll, given whether the alert of
/// that poll, if there was one, was delivered.
pub open spec fn stored_marker_after(usage: u8, marker: Option<u8>, delivered: bool) -> Option<
    u8,
> {
    match band_of(usage) {
        UsageBand::BelowFloor => None,
        UsageBand::Quiet => marker,
        UsageBand::AtRung(r) => if is_news(r, marker) && delivered {
            Some(r)
        } else {
            marker
        },
    }
}

/// What to write into the marker's file after an attempt to send the alert
/// for `rung`: the rung if the alert was delivered, nothing if not.
pub fn marker_to_store(rung: u8, delivered: bool) -> (content: Option<String>)
    ensures
        match content {
            Some(text) => delivered && text@ == marker_text(rung),
            None => !delivered,
        },
{
    if delivered {
        Some(render_marker(rung))
    } else {
        None
    }
}

/// With every alert delivered, durable storage holds the marker of the
/// tracker.
pub proof fn law_delivered_alert_commits_marker(usage: u8, marker: Option<u8>)
    ensures
        stored_marker_after(usage, marker, true) == transition(usage, marker).marker,
{
}

/// An alert that was not delivered leaves the marker as it was and is due
/// again at the next poll that reads the same usage.
pub proof fn law_failed_alert_is_raised_again(usage: u8, marker: Option<u8>)
    requires
        transition(usage, marker).alert is Some,
    ensures
        stored_marker_after(usage, marker, false) == marker,
        transition(usage, stored_marker_after(usage, marker, false)).alert == transition(
            usage,
            marker,
        ).alert,
{
}

} // verus!
