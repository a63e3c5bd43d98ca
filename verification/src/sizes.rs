//! The size sanitizer: every dimension, stride and count parameter crosses
//! the call boundary as a signed integer and is clamped to a non-negative
//! count before any loop bound is derived from it.

use vstd::prelude::*;

verus! {

/// The smaller of two counts.
pub open spec fn min_nat(a: nat, b: nat) -> nat {
    if a < b {
        a
    } else {
        b
    }
}

/// A caller-supplied signed size, clamped to a non-negative count.
pub open spec fn clamp_size(value: i32) -> nat {
    if value <= 0 {
        0
    } else {
        value as nat
    }
}

/// A recurrent step is a silent no-op when any of its three dimensions
/// sanitizes to zero.
pub open spec fn rnn_noop(in_size: i32, hidden_size: i32, batch_count: i32) -> bool {
    clamp_size(in_size) == 0 || clamp_size(hidden_size) == 0 || clamp_size(batch_count) == 0
}

/// Convert a signed size into a non-negative `usize` count: a negative or
/// zero size becomes an empty count, so a negative-size misuse degrades into
/// an empty computation instead of undefined behavior.
pub fn to_usize(value: i32) -> (r: usize)
    ensures
        r == clamp_size(value),
{
    if value <= 0 {
        0
    } else {
        value as usize
    }
}

} // verus!
