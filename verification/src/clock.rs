//! Wall-clock rendering for log lines.

use vstd::prelude::*;
use crate::text::{decimal, digit_char, push_char, push_decimal, two_digits};

verus! {

/// "HH:MM:SS" of the time of day (UTC) at `secs` seconds since the epoch.
pub open spec fn clock_text(secs: u64) -> Seq<char> {
    two_digits(((secs / 3600) % 24) as nat) + seq![':'] + two_digits(((secs / 60) % 60) as nat)
        + seq![':'] + two_digits((secs % 60) as nat)
}

fn push_two_digits(s: &mut String, n: u64)
    requires
        n < 100,
    ensures
        final(s)@ == old(s)@ + two_digits(n as nat),
{
    if n < 10 {
        push_char(s, '0');
        proof {
            assert(decimal(n as nat) == seq![digit_char(n as int)]);
        }
    }
    push_decimal(s, n);
    proof {
        assert(final(s)@ =~= old(s)@ + two_digits(n as nat));
    }
}

/// Renders the time of day of a Unix timestamp as "HH:MM:SS".
pub fn format_clock(secs: u64) -> (r: String)
    ensures
        r@ == clock_text(secs),
{
    let mut s = String::new();
    push_two_digits(&mut s, (secs / 3600) % 24);
    push_char(&mut s, ':');
    push_two_digits(&mut s, (secs / 60) % 60);
    push_char(&mut s, ':');
    push_two_digits(&mut s, secs % 60);
    assert(s@ =~= clock_text(secs));
    s
}

} // verus!
