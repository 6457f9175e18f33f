//! The byte cursor every fuzz decision draws from.
//!
//! The cursor itself is `arbitrary::Unstructured`. What it still holds is
//! named by [`remaining`]. Each draw consumes a fixed number of bytes and
//! reads them as a little-endian number; a draw that finds fewer bytes
//! than it needs reports exhaustion and consumes nothing. (`arbitrary`
//! would fill a short read up with zeros; the draws never ask it for more
//! than it holds.)

use vstd::prelude::*;

verus! {

/// `arbitrary::Unstructured`, carried through as an opaque value.
#[verifier::external_type_specification]
#[verifier::external_body]
pub struct ExUnstructured<'a>(arbitrary::Unstructured<'a>);

/// `arbitrary::Error`, carried through as an opaque value.
#[verifier::external_type_specification]
#[verifier::external_body]
pub struct ExArbitraryError(arbitrary::Error);

/// The bytes that a cursor has not handed out yet, in the order in which
/// it will hand them out.
pub uninterp spec fn remaining(u: arbitrary::Unstructured) -> Seq<u8>;

/// The number that a little-endian byte string stands for.
pub open spec fn le_value(s: Seq<u8>) -> nat
    decreases s.len(),
{
    if s.len() == 0 {
        0
    } else {
        s[0] as nat + 256 * le_value(s.drop_first())
    }
}

/// Whether a draw of `width` bytes can be served from `bytes`.
pub open spec fn can_draw(bytes: Seq<u8>, width: nat) -> bool {
    width <= bytes.len()
}

/// The number that a draw of `width` bytes reads from `bytes`.
pub open spec fn drawn(bytes: Seq<u8>, width: nat) -> nat {
    le_value(bytes.take(width as int))
}

/// What a draw of `width` bytes leaves of `bytes`.
pub open spec fn after_draw(bytes: Seq<u8>, width: nat) -> Seq<u8> {
    bytes.skip(width as int)
}

/// What an attempt to draw `width` bytes leaves of `bytes`: a draw that
/// cannot be served consumes nothing.
pub open spec fn left_by_draw(bytes: Seq<u8>, width: nat) -> Seq<u8> {
    if can_draw(bytes, width) {
        after_draw(bytes, width)
    } else {
        bytes
    }
}

/// A draw of one byte reads the first byte.
pub proof fn lemma_drawn_one(bytes: Seq<u8>)
    requires
        can_draw(bytes, 1),
    ensures
        drawn(bytes, 1) == bytes[0],
{
    let one = bytes.take(1);
    assert(one.drop_first() =~= Seq::<u8>::empty());
    assert(le_value(one.drop_first()) == 0);
    assert(one[0] == bytes[0]);
}

/// `Unstructured::new`: a cursor over all of `data`.
#[verifier::external_body]
pub(crate) fn cursor_over<'a>(data: &'a [u8]) -> (u: arbitrary::Unstructured<'a>)
    ensures
        remaining(u) == data@,
{
    arbitrary::Unstructured::new(data)
}

/// `Unstructured::len`: the number of bytes that are left.
#[verifier::external_body]
pub(crate) fn cursor_len(u: &arbitrary::Unstructured) -> (n: usize)
    ensures
        n == remaining(*u).len(),
{
    u.len()
}

/// `<u8 as Arbitrary>::arbitrary`: with a byte left, succeeds with the
/// first byte and moves the cursor past it.
#[verifier::external_body]
fn arbitrary_u8(u: &mut arbitrary::Unstructured) -> (r: Result<u8, arbitrary::Error>)
    requires
        can_draw(remaining(*old(u)), 1),
    ensures
        r matches Ok(v) && v as nat == drawn(remaining(*old(u)), 1),
        remaining(*final(u)) == after_draw(remaining(*old(u)), 1),
{
    <u8 as arbitrary::Arbitrary>::arbitrary(u)
}

/// `<u16 as Arbitrary>::arbitrary`: with two bytes left, succeeds with
/// their little-endian value and moves the cursor past them.
#[verifier::external_body]
fn arbitrary_u16(u: &mut arbitrary::Unstructured) -> (r: Result<u16, arbitrary::Error>)
    requires
        can_draw(remaining(*old(u)), 2),
    ensures
        r matches Ok(v) && v as nat == drawn(remaining(*old(u)), 2),
        remaining(*final(u)) == after_draw(remaining(*old(u)), 2),
{
    <u16 as arbitrary::Arbitrary>::arbitrary(u)
}

/// `<u32 as Arbitrary>::arbitrary`: with four bytes left, succeeds with
/// their little-endian value and moves the cursor past them.
#[verifier::external_body]
fn arbitrary_u32(u: &mut arbitrary::Unstructured) -> (r: Result<u32, arbitrary::Error>)
    requires
        can_draw(remaining(*old(u)), 4),
    ensures
        r matches Ok(v) && v as nat == drawn(remaining(*old(u)), 4),
        remaining(*final(u)) == after_draw(remaining(*old(u)), 4),
{
    <u32 as arbitrary::Arbitrary>::arbitrary(u)
}

/// `<u64 as Arbitrary>::arbitrary`: with eight bytes left, succeeds with
/// their little-endian value and moves the cursor past them.
#[verifier::external_body]
fn arbitrary_u64(u: &mut arbitrary::Unstructured) -> (r: Result<u64, arbitrary::Error>)
    requires
        can_draw(remaining(*old(u)), 8),
    ensures
        r matches Ok(v) && v as nat == drawn(remaining(*old(u)), 8),
        remaining(*final(u)) == after_draw(remaining(*old(u)), 8),
{
    <u64 as arbitrary::Arbitrary>::arbitrary(u)
}

/// Draws one byte.
pub fn draw_u8(u: &mut arbitrary::Unstructured) -> (r: Option<u8>)
    ensures
        r.is_some() == can_draw(remaining(*old(u)), 1),
        r matches Some(v) ==> v as nat == drawn(remaining(*old(u)), 1),
        remaining(*final(u)) == left_by_draw(remaining(*old(u)), 1),
{
    if cursor_len(u) < 1 {
        return None;
    }
    match arbitrary_u8(u) {
        Ok(v) => Some(v),
        Err(_) => None,
    }
}

/// Draws a 16-bit number.
pub fn draw_u16(u: &mut arbitrary::Unstructured) -> (r: Option<u16>)
    ensures
        r.is_some() == can_draw(remaining(*old(u)), 2),
        r matches Some(v) ==> v as nat == drawn(remaining(*old(u)), 2),
        remaining(*final(u)) == left_by_draw(remaining(*old(u)), 2),
{
    if cursor_len(u) < 2 {
        return None;
    }
    match arbitrary_u16(u) {
        Ok(v) => Some(v),
        Err(_) => None,
    }
}

/// Draws a 32-bit number.
pub fn draw_u32(u: &mut arbitrary::Unstructured) -> (r: Option<u32>)
    ensures
        r.is_some() == can_draw(remaining(*old(u)), 4),
        r matches Some(v) ==> v as nat == drawn(remaining(*old(u)), 4),
        remaining(*final(u)) == left_by_draw(remaining(*old(u)), 4),
{
    if cursor_len(u) < 4 {
        return None;
    }
    match arbitrary_u32(u) {
        Ok(v) => Some(v),
        Err(_) => None,
    }
}

/// Draws a 64-bit number.
pub fn draw_u64(u: &mut arbitrary::Unstructured) -> (r: Option<u64>)
    ensures
        r.is_some() == can_draw(remaining(*old(u)), 8),
        r matches Some(v) ==> v as nat == drawn(remaining(*old(u)), 8),
        remaining(*final(u)) == left_by_draw(remaining(*old(u)), 8),
{
    if cursor_len(u) < 8 {
        return None;
    }
    match arbitrary_u64(u) {
        Ok(v) => Some(v),
        Err(_) => None,
    }
}

} // verus!
