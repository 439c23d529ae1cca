use vstd::prelude::*;

use crate::model::SimModel;

verus! {

/// The single decimal digit `d` as a one-character string.
pub open spec fn dec_digit(d: int) -> Seq<char> {
    if d == 0 {
        "0"@
    } else if d == 1 {
        "1"@
    } else if d == 2 {
        "2"@
    } else if d == 3 {
        "3"@
    } else if d == 4 {
        "4"@
    } else if d == 5 {
        "5"@
    } else if d == 6 {
        "6"@
    } else if d == 7 {
        "7"@
    } else if d == 8 {
        "8"@
    } else {
        "9"@
    }
}

/// The usual decimal rendering of `n`, without leading zeros (a single "0"
/// for zero).
pub open spec fn dec_str(n: int) -> Seq<char>
    decreases n,
{
    if n < 10 {
        dec_digit(n)
    } else {
        dec_str(n / 10) + dec_digit(n % 10)
    }
}

/// A duration of `ns` nanoseconds rendered as seconds with two (truncated)
/// decimal places, e.g. "2.50".
pub open spec fn secs_str(ns: int) -> Seq<char> {
    let centi = (ns % 1_000_000_000) / 10_000_000;
    dec_str(ns / 1_000_000_000) + "."@ + dec_digit(centi / 10) + dec_digit(centi % 10)
}

/// The full statistics report.  With no vehicle passed yet, every field reads
/// as unavailable — whatever the give-way counter holds.  The crash,
/// near-miss, and speed figures are fixed display text, not computed
/// quantities.
pub open spec fn spec_report(m: SimModel) -> Seq<char> {
    if m.passed == 0 {
        "Crashes: 0\nNear misses: 0\nGive ways: 0\nCars passed: 0\nSlowest speed: N/A\nFastest speed: N/A\nMax time: N/A\nMin time: N/A"@
    } else {
        "Crashes: 0\nNear misses: 0\nGive ways: "@ + dec_str(m.give_ways) + "\nCars passed: "@
            + dec_str(m.passed) + "\nSlowest speed: "@ + (if m.give_ways == 0 {
            "250"@
        } else {
            "0"@
        }) + "px/s\nFastest speed: 1000px/s\nMax time: "@ + secs_str(m.max_time)
            + "s\nMin time: "@ + secs_str(m.min_time) + "s"@
    }
}

/// The one-character string of a single decimal digit.
fn digit_str(d: u64) -> (s: &'static str)
    requires
        d < 10,
    ensures
        s@ == dec_digit(d as int),
{
    match d {
        0 => "0",
        1 => "1",
        2 => "2",
        3 => "3",
        4 => "4",
        5 => "5",
        6 => "6",
        7 => "7",
        8 => "8",
        _ => "9",
    }
}

/// Decimal rendering of an unsigned counter.
pub fn u64_to_string(n: u64) -> (s: String)
    ensures
        s@ == dec_str(n as int),
    decreases n,
{
    if n < 10 {
        digit_str(n).to_owned()
    } else {
        let mut s = u64_to_string(n / 10);
        s.append(digit_str(n % 10));
        s
    }
}

/// A nanosecond duration as seconds with two decimal places.
pub fn secs_to_string(ns: u64) -> (s: String)
    ensures
        s@ == secs_str(ns as int),
{
    let secs = ns / 1_000_000_000;
    let centi = (ns % 1_000_000_000) / 10_000_000;
    let mut s = u64_to_string(secs);
    s.append(".");
    s.append(digit_str(centi / 10));
    s.append(digit_str(centi % 10));
    proof {
        assert(s@ =~= secs_str(ns as int));
    }
    s
}

} // verus!
