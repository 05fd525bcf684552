//! Throttled progress reports: which updates of a long batch are worth a line,
//! and what the line says.

use vstd::prelude::*;
use vstd::string::*;
use crate::text::{decimal, push_decimal};

verus! {

/// How many completions lie between two reports of a batch of `total`: a
/// quarter of a hundredth part of it, at least 1 and at most 25.
pub open spec fn report_threshold(total: int) -> int {
    let quarter = total * 25 / 100;
    if quarter < 1 {
        1
    } else if quarter > 25 {
        25
    } else {
        quarter
    }
}

/// Whether the update `current` of `total` is reported: always when verbose,
/// else at the start, at the end and at every threshold-th completion.
pub open spec fn reports(current: int, total: int, verbose: bool) -> bool {
    verbose || current == 0 || current == total || current % report_threshold(total) == 0
}

/// The line of a report: the label, then `current/total`.
pub open spec fn status_text(label: Seq<char>, current: nat, total: nat) -> Seq<char> {
    label + seq![' '] + decimal(current) + seq!['/'] + decimal(total)
}

/// How many completions lie between two reports of a batch of `len`.
pub fn threshold(len: u32) -> (step: u32)
    ensures
        step == report_threshold(len as int),
        1 <= step <= 25,
{
    let quarter: u64 = (len as u64) * 25 / 100;
    if quarter < 1 {
        1
    } else if quarter > 25 {
        25
    } else {
        quarter as u32
    }
}

/// Whether the update `current` of `len` is reported.
pub fn should_report(current: u32, len: u32, verbose: bool) -> (report: bool)
    ensures
        report == reports(current as int, len as int, verbose),
{
    verbose || current == 0 || current == len || current % threshold(len) == 0
}

/// The line of a report.
pub fn status_line(label: &str, current: u32, len: u32) -> (line: String)
    ensures
        line@ == status_text(label@, current as nat, len as nat),
{
    proof {
        reveal_strlit(" ");
        reveal_strlit("/");
        assert(" "@ =~= seq![' ']);
        assert("/"@ =~= seq!['/']);
    }
    let mut line = label.to_owned();
    line.append(" ");
    push_decimal(&mut line, current as u64);
    line.append("/");
    push_decimal(&mut line, len as u64);
    line
}

/// The line to print for the update `current` of `len`, if it is reported.
pub fn progress_line(current: u32, len: u32, label: &str, verbose: bool) -> (line: Option<String>)
    ensures
        line is Some <==> reports(current as int, len as int, verbose),
        line matches Some(text) ==> text@ == status_text(label@, current as nat, len as nat),
{
    if should_report(current, len, verbose) {
        Some(status_line(label, current, len))
    } else {
        None
    }
}

} // verus!
