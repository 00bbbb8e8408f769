//! Text shown while matches are found.

use vstd::prelude::*;
use crate::text::{digits, push_digits, string_from_chars};

verus! {

/// Hours of `seconds`, as far as a `u32` holds them.
pub open spec fn hours_of(seconds: nat) -> nat {
    if seconds / 3600 <= u32::MAX { seconds / 3600 } else { u32::MAX as nat }
}

/// `{h}h {m}m {s}s` for a duration of `seconds`.
pub open spec fn elapsed_text(seconds: nat) -> Seq<char> {
    digits(hours_of(seconds)) + seq!['h', ' '] + digits((seconds % 3600) / 60) + seq!['m', ' '] + digits(seconds % 60) + seq!['s']
}

/// The time spent finding matches, as `{h}h {m}m {s}s`.
pub fn format_duration(seconds: u64) -> (s: String)
    ensures
        s@ == elapsed_text(seconds as nat),
{
    let hours = seconds / 3600;
    let hours = if hours <= u32::MAX as u64 { hours } else { u32::MAX as u64 };
    let mut out: Vec<char> = Vec::new();
    push_digits(&mut out, hours);
    out.push('h');
    out.push(' ');
    push_digits(&mut out, (seconds % 3600) / 60);
    out.push('m');
    out.push(' ');
    push_digits(&mut out, seconds % 60);
    out.push('s');
    assert(out@ == elapsed_text(seconds as nat));
    string_from_chars(&out)
}

} // verus!
