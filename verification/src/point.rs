//! Grid positions and unit moves.
//!
//! A position travels as one integer, its linear index `y * width + x` on a
//! board of the width that the enclosing message names.

use crate::reading::counted;
use crate::varint::{
    encode_unbounded, lemma_unbounded_read_after, lemma_unbounded_read_count,
    lemma_unbounded_read_of_encoding,
    parse_unbounded, parse_unbounded_private, unbounded_encoding, unbounded_read,
    unbounded_read_after,
};
use vstd::arithmetic::div_mod::lemma_fundamental_div_mod_converse;
use vstd::prelude::*;
use vstd::slice::slice_subrange;

verus! {

/// A cell of the board: column `x` and row `y`.
#[derive(Clone, Copy, Debug, PartialEq, Eq, Structural)]
pub struct Point {
    pub x: u32,
    pub y: u32,
}

/// `units` units leave `point` in `direction`. What a direction byte means is
/// the game's business; every byte is passed on as it came.
#[derive(Clone, Copy, Debug, PartialEq, Eq, Structural)]
pub struct Move {
    pub point: Point,
    pub direction: u8,
    pub units: u32,
}

/// The cell with linear index `index` on a board `width` cells wide.
pub open spec fn point_at(index: u32, width: u32) -> Point {
    Point { x: index % width, y: index / width }
}

/// The linear index of `point` on a board `width` cells wide.
pub open spec fn point_index(point: Point, width: u32) -> nat {
    (point.y * width + point.x) as nat
}

/// The position at the front of `s` on a board `width` cells wide, and the
/// number of bytes it occupies. `None` where its linear index cannot be read.
pub open spec fn point_read(s: Seq<u8>, width: u32) -> Option<(Point, nat)> {
    match unbounded_read(s) {
        Some((index, n)) => Some((point_at(index, width), n)),
        None => None,
    }
}

/// `point_read` of the bytes `first` and then `rest`, the count being that of
/// the bytes of `rest` alone.
pub open spec fn point_read_after(first: u8, rest: Seq<u8>, width: u32) -> Option<(Point, nat)> {
    match unbounded_read_after(first, rest) {
        Some((index, n)) => Some((point_at(index, width), n)),
        None => None,
    }
}

/// The bytes that stand for `point` on a board `width` cells wide.
pub open spec fn point_encoding(point: Point, width: u32) -> Seq<u8> {
    unbounded_encoding(point_index(point, width))
}

/// The move at the front of `s` and the number of bytes it occupies: a
/// position, one direction byte, then the number of units. `None` where one of
/// the three cannot be read.
pub open spec fn move_read(s: Seq<u8>, width: u32) -> Option<(Move, nat)> {
    match point_read(s, width) {
        Some((point, n)) => {
            let after = s.skip(n as int);
            if after.len() == 0 {
                None
            } else {
                match unbounded_read(after.skip(1)) {
                    Some((units, m)) => Some(
                        (Move { point, direction: after[0], units }, n + 1 + m),
                    ),
                    None => None,
                }
            }
        },
        None => None,
    }
}

/// A move takes at least three bytes and no more bytes than there are.
pub proof fn lemma_move_read_count(s: Seq<u8>, width: u32)
    ensures
        move_read(s, width) matches Some((_, n)) ==> 3 <= n <= s.len(),
{
    lemma_unbounded_read_count(s);
    if let Some((_, n)) = point_read(s, width) {
        let after = s.skip(n as int);
        if after.len() > 0 {
            lemma_unbounded_read_count(after.skip(1));
        }
    }
}

/// Reads one position of which the first byte, `first`, has been taken from
/// the input already and `rest` is what follows it.
pub fn parse_point_private(first: u8, rest: &[u8], width: u32) -> (r: Option<(Point, usize)>)
    requires
        width > 0,
    ensures
        counted(r) == point_read_after(first, rest@, width),
        r matches Some((_, n)) ==> n <= rest@.len(),
{
    match parse_unbounded_private(first, rest) {
        Some((index, n)) => Some((Point { x: index % width, y: index / width }, n)),
        None => None,
    }
}

/// Reads one position from the front of `input`.
pub fn parse_point(input: &[u8], width: u32) -> (r: Option<(Point, usize)>)
    requires
        width > 0,
    ensures
        counted(r) == point_read(input@, width),
        r matches Some((_, n)) ==> 1 <= n <= input@.len(),
{
    if input.len() == 0 {
        return None;
    }
    let rest = slice_subrange(input, 1, input.len());
    proof {
        assert(seq![input@[0]] + rest@ =~= input@);
        lemma_unbounded_read_after(input@[0], rest@);
    }
    match parse_point_private(input[0], rest, width) {
        Some((point, n)) => Some((point, n + 1)),
        None => None,
    }
}

/// Reads one move from the front of `input`.
pub fn parse_move_private(input: &[u8], width: u32) -> (r: Option<(Move, usize)>)
    requires
        width > 0,
    ensures
        counted(r) == move_read(input@, width),
        r matches Some((_, n)) ==> 3 <= n <= input@.len(),
{
    let (point, n) = match parse_point(input, width) {
        Some(read) => read,
        None => {
            return None;
        },
    };
    if n >= input.len() {
        return None;
    }
    let direction = input[n];
    let rest = slice_subrange(input, n + 1, input.len());
    assert(rest@ =~= input@.skip(n as int).skip(1));
    match parse_unbounded(rest) {
        Some((units, m)) => Some((Move { point, direction, units }, n + 1 + m)),
        None => None,
    }
}

/// Writes `point` as it travels on a board `width` cells wide. `None` where the
/// linear index of `point` does not fit in 32 bits.
pub fn encode_point(point: Point, width: u32) -> (r: Option<Vec<u8>>)
    ensures
        match r {
            Some(out) => point_index(point, width) <= u32::MAX && out@ == point_encoding(
                point,
                width,
            ),
            None => point_index(point, width) > u32::MAX,
        },
{
    assert(point.y * width <= 0xFFFF_FFFF * 0xFFFF_FFFF) by (nonlinear_arith)
        requires
            point.y <= 0xFFFF_FFFF,
            width <= 0xFFFF_FFFF,
    ;
    let index: u64 = (point.y as u64) * (width as u64) + (point.x as u64);
    if index > u32::MAX as u64 {
        return None;
    }
    Some(encode_unbounded(index as u32))
}

/// On a board of positive width, a position whose column lies on the board and
/// whose linear index fits in 32 bits is read back as it was written.
pub proof fn lemma_point_round_trip(point: Point, width: u32)
    requires
        width > 0,
        point.x < width,
        point_index(point, width) <= u32::MAX,
    ensures
        point_read(point_encoding(point, width), width) == Some(
            (point, point_encoding(point, width).len()),
        ),
{
    lemma_point_round_trip_prefix(point, width, Seq::empty());
}

/// What follows the bytes written for a position changes nothing in how they
/// are read.
pub proof fn lemma_point_round_trip_prefix(point: Point, width: u32, tail: Seq<u8>)
    requires
        width > 0,
        point.x < width,
        point_index(point, width) <= u32::MAX,
    ensures
        point_read(point_encoding(point, width) + tail, width) == Some(
            (point, point_encoding(point, width).len()),
        ),
{
    let index = point_index(point, width);
    lemma_unbounded_read_of_encoding(index as u32, tail);
    lemma_fundamental_div_mod_converse(
        index as int,
        width as int,
        point.y as int,
        point.x as int,
    );
}

} // verus!
