//! Variable-length integers: little-endian base-256 digits in which every
//! digit but the most significant one is announced by a `0xFF` byte.
//!
//! A group is either one byte below `0xFF`, which is the most significant
//! digit and ends the integer, or the byte `0xFF` followed by one digit (any
//! byte) and by the group of the digits above it.

use crate::reading::counted;
use vstd::prelude::*;
use vstd::slice::slice_subrange;

verus! {

/// The leading byte of a group that is followed by a digit and a further group.
pub const CONTINUE: u8 = 0xFF;

/// Reads one integer from the front of `s`: its value and the number of bytes
/// it occupies, or `None` where `s` ends before the integer does.
pub open spec fn unbounded_decoding(s: Seq<u8>) -> Option<(nat, nat)>
    decreases s.len(),
{
    if s.len() == 0 {
        None
    } else if s[0] != CONTINUE {
        Some((s[0] as nat, 1nat))
    } else if s.len() == 1 {
        None
    } else {
        match unbounded_decoding(s.skip(2)) {
            Some((high, n)) => Some((s[1] as nat + 256 * high, n + 2)),
            None => None,
        }
    }
}

/// The bytes that stand for `v`.
pub open spec fn unbounded_encoding(v: nat) -> Seq<u8>
    decreases v,
{
    if v < 255 {
        seq![v as u8]
    } else {
        seq![CONTINUE, (v % 256) as u8] + unbounded_encoding(v / 256)
    }
}

/// What a reader that holds its integers in 32 bits makes of `s`: the integer
/// at the front of `s` and the number of bytes it occupies. `None` where `s`
/// ends before the integer does, and where the integer is above `u32::MAX`.
pub open spec fn unbounded_read(s: Seq<u8>) -> Option<(u32, nat)> {
    match unbounded_decoding(s) {
        Some((v, n)) => if v <= u32::MAX {
            Some((v as u32, n))
        } else {
            None
        },
        None => None,
    }
}

/// `unbounded_read` of the bytes `first` and then `rest`, the count being that
/// of the bytes of `rest` alone.
pub open spec fn unbounded_read_after(first: u8, rest: Seq<u8>) -> Option<(u32, nat)> {
    match unbounded_read(seq![first] + rest) {
        Some((v, n)) => Some((v, (n - 1) as nat)),
        None => None,
    }
}

/// A reading takes at least one byte and no more bytes than there are.
pub proof fn lemma_unbounded_read_count(s: Seq<u8>)
    ensures
        unbounded_read(s) matches Some((_, n)) ==> 1 <= n <= s.len(),
{
    lemma_unbounded_decoding_count(s);
}

/// Reading behind a byte that was taken is reading with that byte in front.
pub proof fn lemma_unbounded_read_after(first: u8, rest: Seq<u8>)
    ensures
        unbounded_read(seq![first] + rest) == match unbounded_read_after(first, rest) {
            Some((v, n)) => Some((v, n + 1)),
            None => None,
        },
{
    lemma_unbounded_decoding_count(seq![first] + rest);
}

/// An integer occupies at least one byte and no more bytes than there are.
pub proof fn lemma_unbounded_decoding_count(s: Seq<u8>)
    ensures
        unbounded_decoding(s) matches Some((_, n)) ==> 1 <= n <= s.len(),
    decreases s.len(),
{
    if s.len() >= 2 && s[0] == CONTINUE {
        lemma_unbounded_decoding_count(s.skip(2));
    }
}

/// The first `k` groups of `s` all continue: each of them is led by `0xFF`.
spec fn continues(s: Seq<u8>, k: nat) -> bool
    decreases k,
{
    k == 0 || (2 * (k - 1) < s.len() && s[2 * (k - 1)] == CONTINUE && continues(
        s,
        (k - 1) as nat,
    ))
}

/// Where the first `k` groups of `s` continue and no integer stands behind
/// them, none stands at the front of `s`.
proof fn lemma_truncated(s: Seq<u8>, k: nat)
    requires
        continues(s, k),
        2 * k <= s.len(),
        unbounded_decoding(s.skip(2 * k as int)) is None,
    ensures
        unbounded_decoding(s) is None,
    decreases k,
{
    if k == 0 {
        assert(s.skip(0) =~= s);
    } else {
        assert(s.skip(2 * (k - 1)).skip(2) =~= s.skip(2 * k as int));
        lemma_truncated(s, (k - 1) as nat);
    }
}

/// Reads one integer of which the first byte, `first`, has been taken from the
/// input already and `rest` is what follows it. Gives the integer and the
/// number of bytes of `rest` that belong to it.
pub fn parse_unbounded_private(first: u8, rest: &[u8]) -> (r: Option<(u32, usize)>)
    ensures
        counted(r) == unbounded_read_after(first, rest@),
        r matches Some((_, n)) ==> n <= rest@.len(),
{
    let ghost s = seq![first] + rest@;
    if first != CONTINUE {
        return Some((first as u32, 0));
    }
    // Digits stand at the even places of `rest`, the leading bytes of the
    // groups above them at the odd places. Find the group that ends the integer.
    let mut lead: usize = 1;
    let ghost mut k: nat = 1;
    proof {
        assert(continues(s, 0));
    }
    while lead < rest.len() && rest[lead] == CONTINUE
        invariant
            s == seq![first] + rest@,
            first == CONTINUE,
            lead + 1 == 2 * k,
            lead <= rest.len() + 1,
            continues(s, k),
        decreases rest.len() + 1 - lead,
    {
        lead = lead + 2;
        proof {
            k = k + 1;
        }
    }
    if lead >= rest.len() {
        proof {
            if 2 * k == s.len() {
                lemma_truncated(s, k);
            } else {
                lemma_truncated(s, (k - 1) as nat);
            }
        }
        return None;
    }
    // Sum the digits from the most significant one down.
    let total: usize = lead + 1;
    let mut acc: u32 = rest[lead] as u32;
    let mut fits: bool = true;
    let mut group: usize = lead + 1;
    while group > 0
        invariant
            s == seq![first] + rest@,
            group == 2 * k,
            group <= total <= rest.len(),
            continues(s, k),
            match unbounded_decoding(s.skip(group as int)) {
                Some((v, n)) => n == total + 1 - group && if fits {
                    v == acc
                } else {
                    v > u32::MAX
                },
                None => false,
            },
        decreases group,
    {
        let digit = rest[group - 2];
        group = group - 2;
        proof {
            k = (k - 1) as nat;
            assert(s.skip(group as int).skip(2) =~= s.skip(group + 2));
        }
        if fits {
            let wide: u64 = digit as u64 + 256 * (acc as u64);
            if wide <= u32::MAX as u64 {
                acc = wide as u32;
            } else {
                fits = false;
            }
        }
    }
    proof {
        assert(s.skip(0) =~= s);
    }
    if fits {
        Some((acc, total))
    } else {
        None
    }
}

/// Reads one integer from the front of `input`. Gives the integer and the
/// number of bytes it occupies.
pub fn parse_unbounded(input: &[u8]) -> (r: Option<(u32, usize)>)
    ensures
        counted(r) == unbounded_read(input@),
        r matches Some((_, n)) ==> 1 <= n <= input@.len(),
{
    if input.len() == 0 {
        return None;
    }
    let rest = slice_subrange(input, 1, input.len());
    proof {
        assert(seq![input@[0]] + rest@ =~= input@);
        lemma_unbounded_read_after(input@[0], rest@);
    }
    match parse_unbounded_private(input[0], rest) {
        Some((v, n)) => Some((v, n + 1)),
        None => None,
    }
}

/// Writes `value` as the bytes that stand for it: nine at most.
pub fn encode_unbounded(value: u32) -> (out: Vec<u8>)
    ensures
        out@ == unbounded_encoding(value as nat),
        1 <= out@.len() <= 9,
{
    proof {
        lemma_unbounded_encoding_len(value as nat);
    }
    let mut out: Vec<u8> = Vec::new();
    let mut high: u32 = value;
    while high >= 255
        invariant
            unbounded_encoding(value as nat) == out@ + unbounded_encoding(high as nat),
        decreases high,
    {
        let ghost before = out@;
        out.push(CONTINUE);
        out.push((high % 256) as u8);
        proof {
            let digits = seq![CONTINUE, (high % 256) as u8];
            assert(before + (digits + unbounded_encoding((high / 256) as nat)) =~= (before + digits)
                + unbounded_encoding((high / 256) as nat));
        }
        high = high / 256;
    }
    out.push(high as u8);
    out
}

/// Reading what was written gives back the integer that was written, whatever
/// it is, and takes exactly the bytes written for it.
pub proof fn lemma_unbounded_round_trip(v: nat)
    ensures
        unbounded_decoding(unbounded_encoding(v)) == Some((v, unbounded_encoding(v).len())),
{
    lemma_unbounded_round_trip_prefix(v, Seq::empty());
}

/// What follows the bytes written for an integer changes nothing in how they
/// are read.
pub proof fn lemma_unbounded_round_trip_prefix(v: nat, tail: Seq<u8>)
    ensures
        unbounded_decoding(unbounded_encoding(v) + tail) == Some(
            (v, unbounded_encoding(v).len()),
        ),
    decreases v,
{
    let s = unbounded_encoding(v) + tail;
    if v < 255 {
    } else {
        assert(s.skip(2) =~= unbounded_encoding(v / 256) + tail);
        lemma_unbounded_round_trip_prefix(v / 256, tail);
    }
}

/// An integer below `256^k` is written in at most `2 * k + 1` bytes; one that
/// fits in 32 bits therefore in at most nine.
pub proof fn lemma_unbounded_encoding_len(v: nat)
    ensures
        1 <= unbounded_encoding(v).len(),
        v < 255 ==> unbounded_encoding(v).len() == 1,
        v < 0x100 ==> unbounded_encoding(v).len() <= 3,
        v < 0x1_0000 ==> unbounded_encoding(v).len() <= 5,
        v < 0x100_0000 ==> unbounded_encoding(v).len() <= 7,
        v < 0x1_0000_0000 ==> unbounded_encoding(v).len() <= 9,
    decreases v,
{
    if v >= 255 {
        lemma_unbounded_encoding_len(v / 256);
    }
}

/// For an integer that fits in 32 bits, the 32-bit reader gives back what was
/// written, whatever follows it.
pub proof fn lemma_unbounded_read_of_encoding(v: u32, tail: Seq<u8>)
    ensures
        unbounded_read(unbounded_encoding(v as nat) + tail) == Some(
            (v, unbounded_encoding(v as nat).len()),
        ),
{
    lemma_unbounded_round_trip_prefix(v as nat, tail);
}

} // verus!
