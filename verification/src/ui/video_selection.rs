//! Text shown on the video list.

use vstd::prelude::*;
use crate::text::{digits, padded_digits, push_digits, string_from_chars};
use crate::ui::finding_matches::hours_of;

verus! {

/// `{h}:{mm}:{ss}` for a duration of `seconds`.
pub open spec fn clock_text(seconds: nat) -> Seq<char> {
    digits(hours_of(seconds)) + seq![':'] + padded_digits((seconds % 3600) / 60, 2) + seq![':'] + padded_digits(seconds % 60, 2)
}

/// Appends a number below 100 as two digits.
fn push_two_digits(out: &mut Vec<char>, n: u64)
    requires
        n < 100,
    ensures
        final(out)@ == old(out)@ + padded_digits(n as nat, 2),
{
    let tens = n / 10;
    let ones = n % 10;
    out.push(((48 + tens) as u8) as char);
    out.push(((48 + ones) as u8) as char);
    proof {
        reveal_with_fuel(padded_digits, 3);
        assert(padded_digits(n as nat, 2) =~= seq![
            ((48 + (n / 10) % 10) as u32) as char,
            ((48 + n % 10) as u32) as char,
        ]);
    }
}

/// The length of a video, as `{h}:{mm}:{ss}`.
pub fn format_duration(seconds: u64) -> (s: String)
    ensures
        s@ == clock_text(seconds as nat),
{
    let hours = seconds / 3600;
    let hours = if hours <= u32::MAX as u64 { hours } else { u32::MAX as u64 };
    let mut out: Vec<char> = Vec::new();
    push_digits(&mut out, hours);
    out.push(':');
    push_two_digits(&mut out, (seconds % 3600) / 60);
    out.push(':');
    push_two_digits(&mut out, seconds % 60);
    assert(out@ == clock_text(seconds as nat));
    string_from_chars(&out)
}

} // verus!
