//! Formatting of playback durations.

use crate::text::{digits, push_digits};
use vstd::prelude::*;

verus! {

/// `n` in decimal, padded with a leading zero to at least two digits.
pub open spec fn two_digits(n: nat) -> Seq<char> {
    if n < 10 {
        seq!['0'] + digits(n, 10)
    } else {
        digits(n, 10)
    }
}

/// The label of a duration given in milliseconds: `hh:mm:ss` from one hour
/// on, `mm:ss` below. Fractions of a second are dropped.
pub open spec fn hh_mm_ss_spec(duration_ms: nat) -> Seq<char> {
    let seconds_total = duration_ms / 1000;
    let minutes_total = seconds_total / 60;
    let hours_total = minutes_total / 60;
    let tail = two_digits(minutes_total % 60) + seq![':'] + two_digits(seconds_total % 60);
    if hours_total > 0 {
        two_digits(hours_total) + seq![':'] + tail
    } else {
        tail
    }
}

fn push_two_digits(out: &mut String, n: u64)
    ensures
        final(out)@ == old(out)@ + two_digits(n as nat),
{
    if n < 10 {
        out.push('0');
    }
    push_digits(out, n, 10);
}

/// Formats a duration in milliseconds as `hh:mm:ss`, or `mm:ss` when it is
/// shorter than an hour.
pub fn hh_mm_ss(duration_ms: u64) -> (label: String)
    ensures
        label@ == hh_mm_ss_spec(duration_ms as nat),
{
    let seconds_total = duration_ms / 1000;
    let minutes_total = seconds_total / 60;
    let hours_total = minutes_total / 60;

    let seconds = seconds_total % 60;
    let minutes = minutes_total % 60;

    let mut label = String::new();
    if hours_total > 0 {
        push_two_digits(&mut label, hours_total);
        label.push(':');
    }
    push_two_digits(&mut label, minutes);
    label.push(':');
    push_two_digits(&mut label, seconds);
    label
}

} // verus!
