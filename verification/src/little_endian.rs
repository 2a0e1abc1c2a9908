//! Little-endian byte strings of fixed-width integers.
//!
//! The model is positional: a byte string is a number written in base 256,
//! least significant digit first. Signed integers are carried by their two's
//! complement image.

use vstd::prelude::*;

verus! {

/// The number of values that `width` bytes can tell apart: `256` to the power `width`.
pub open spec fn span(width: nat) -> nat
    decreases width,
{
    if width == 0 {
        1
    } else {
        256 * span((width - 1) as nat)
    }
}

/// The `width` low-order base-256 digits of `value`, least significant first.
pub open spec fn le_digits(value: nat, width: nat) -> Seq<u8>
    decreases width,
{
    if width == 0 {
        Seq::empty()
    } else {
        seq![(value % 256) as u8] + le_digits(value / 256, (width - 1) as nat)
    }
}

/// The number whose base-256 digits, least significant first, are `bytes`.
pub open spec fn le_value(bytes: Seq<u8>) -> nat
    decreases bytes.len(),
{
    if bytes.len() == 0 {
        0
    } else {
        bytes[0] as nat + 256 * le_value(bytes.drop_first())
    }
}

/// The two's complement image of `value` in `width` bytes.
pub open spec fn unsigned_image(value: int, width: nat) -> nat {
    if value < 0 {
        (value + span(width)) as nat
    } else {
        value as nat
    }
}

/// The signed integer whose two's complement image in `width` bytes is `image`.
pub open spec fn signed_value(image: nat, width: nat) -> int {
    if 2 * image >= span(width) {
        image - span(width)
    } else {
        image as int
    }
}

/// `le_digits` yields exactly `width` bytes.
pub proof fn lemma_digits_len(value: nat, width: nat)
    ensures
        le_digits(value, width).len() == width,
    decreases width,
{
    if width > 0 {
        lemma_digits_len(value / 256, (width - 1) as nat);
    }
}

/// Reading back the digits of a number that fits in `width` bytes gives the number.
pub proof fn lemma_value_of_digits(value: nat, width: nat)
    requires
        value < span(width),
    ensures
        le_value(le_digits(value, width)) == value,
    decreases width,
{
    if width > 0 {
        let rest = le_digits(value / 256, (width - 1) as nat);
        let all = le_digits(value, width);
        lemma_digits_len(value / 256, (width - 1) as nat);
        assert(all.drop_first() =~= rest);
        assert(all[0] == (value % 256) as u8);
        lemma_value_of_digits(value / 256, (width - 1) as nat);
    }
}

/// Every byte string is the digit string of the number it denotes, and that
/// number fits in as many bytes as the string has.
pub proof fn lemma_digits_of_value(bytes: Seq<u8>)
    ensures
        le_value(bytes) < span(bytes.len()),
        le_digits(le_value(bytes), bytes.len()) == bytes,
    decreases bytes.len(),
{
    if bytes.len() > 0 {
        let tail = bytes.drop_first();
        lemma_digits_of_value(tail);
        let v = le_value(bytes);
        assert(v == bytes[0] as nat + 256 * le_value(tail));
        assert(v % 256 == bytes[0] as nat);
        assert(v / 256 == le_value(tail));
        assert(le_digits(v, bytes.len()) =~= bytes);
    } else {
        assert(le_digits(le_value(bytes), bytes.len()) =~= bytes);
    }
}

/// A signed integer in the range of `width` bytes is recovered from its two's
/// complement image.
pub proof fn lemma_signed_of_image(value: int, width: nat)
    requires
        -(span(width) as int) <= 2 * value < span(width),
    ensures
        unsigned_image(value, width) < span(width),
        signed_value(unsigned_image(value, width), width) == value,
{
}

/// The spans of the two widths that the integer encodings use.
pub proof fn lemma_spans()
    ensures
        span(4) == 0x1_0000_0000,
        span(8) == 0x1_0000_0000_0000_0000,
{
    reveal_with_fuel(span, 9);
}

/// The four little-endian bytes of `x`.
pub(crate) fn u32_le(x: u32) -> (bytes: [u8; 4])
    ensures
        bytes@ == le_digits(x as nat, 4),
{
    let x1: u32 = x / 256;
    let x2: u32 = x1 / 256;
    let x3: u32 = x2 / 256;
    let bytes = [(x % 256) as u8, (x1 % 256) as u8, (x2 % 256) as u8, (x3 % 256) as u8];
    proof {
        reveal_with_fuel(le_digits, 5);
        assert(bytes@ =~= le_digits(x as nat, 4));
    }
    bytes
}

/// The eight little-endian bytes of `x`.
pub(crate) fn u64_le(x: u64) -> (bytes: [u8; 8])
    ensures
        bytes@ == le_digits(x as nat, 8),
{
    let x1: u64 = x / 256;
    let x2: u64 = x1 / 256;
    let x3: u64 = x2 / 256;
    let x4: u64 = x3 / 256;
    let x5: u64 = x4 / 256;
    let x6: u64 = x5 / 256;
    let x7: u64 = x6 / 256;
    let bytes = [
        (x % 256) as u8,
        (x1 % 256) as u8,
        (x2 % 256) as u8,
        (x3 % 256) as u8,
        (x4 % 256) as u8,
        (x5 % 256) as u8,
        (x6 % 256) as u8,
        (x7 % 256) as u8,
    ];
    proof {
        reveal_with_fuel(le_digits, 9);
        assert(bytes@ =~= le_digits(x as nat, 8));
    }
    bytes
}

/// The two's complement image of `x` in four bytes.
pub(crate) fn i32_image(x: i32) -> (image: u32)
    ensures
        image == unsigned_image(x as int, 4),
{
    proof {
        lemma_spans();
    }
    if x >= 0 {
        x as u32
    } else {
        let above_min: i32 = x - i32::MIN;
        above_min as u32 + 0x8000_0000u32
    }
}

/// The two's complement image of `x` in eight bytes.
pub(crate) fn i64_image(x: i64) -> (image: u64)
    ensures
        image == unsigned_image(x as int, 8),
{
    proof {
        lemma_spans();
    }
    if x >= 0 {
        x as u64
    } else {
        let above_min: i64 = x - i64::MIN;
        above_min as u64 + 0x8000_0000_0000_0000u64
    }
}

} // verus!
