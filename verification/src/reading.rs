//! How the contracts speak of what a reading function hands back.
//!
//! A function that reads a value takes what is left of the input and hands
//! back the value at its front together with the number of bytes that the
//! value occupies; its caller moves on by that number. Nothing is handed back
//! where the value cannot be read.

use vstd::prelude::*;

verus! {

/// What a function that reads the front of its input hands back, the number
/// of bytes read taken as a natural number.
pub open spec fn counted<T>(r: Option<(T, usize)>) -> Option<(T, nat)> {
    match r {
        Some((value, n)) => Some((value, n as nat)),
        None => None,
    }
}

/// The model of the message that a function hands back, if it hands one back.
pub open spec fn viewed<T: View>(r: Option<T>) -> Option<T::V> {
    match r {
        Some(message) => Some(message@),
        None => None,
    }
}

} // verus!
