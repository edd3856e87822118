//! Little-endian integers on the wire.

use vstd::prelude::*;
use vstd::bytes::{
    lemma_auto_spec_u64_to_from_le_bytes, spec_u64_from_le_bytes, spec_u64_to_le_bytes_to_open,
};

verus! {

/// The number that eight bytes spell, least significant byte first.
pub open spec fn le_value(bytes: Seq<u8>) -> nat
    recommends
        bytes.len() == 8,
{
    (bytes[0] + bytes[1] * 0x100 + bytes[2] * 0x1_0000 + bytes[3] * 0x100_0000 + bytes[4]
        * 0x1_0000_0000 + bytes[5] * 0x100_0000_0000 + bytes[6] * 0x1_0000_0000_0000 + bytes[7]
        * 0x100_0000_0000_0000) as nat
}

/// The eight bytes that spell a number, least significant byte first.
pub open spec fn le_bytes(value: u64) -> Seq<u8> {
    seq![
        (value % 0x100) as u8,
        (value / 0x100 % 0x100) as u8,
        (value / 0x1_0000 % 0x100) as u8,
        (value / 0x100_0000 % 0x100) as u8,
        (value / 0x1_0000_0000 % 0x100) as u8,
        (value / 0x100_0000_0000 % 0x100) as u8,
        (value / 0x1_0000_0000_0000 % 0x100) as u8,
        (value / 0x100_0000_0000_0000 % 0x100) as u8,
    ]
}

/// Eight bytes never spell more than 64 bits hold.
pub proof fn lemma_le_value_fits(bytes: Seq<u8>)
    requires
        bytes.len() == 8,
    ensures
        le_value(bytes) <= u64::MAX,
{
}

/// Spelling a number and reading it back gives the number.
pub proof fn lemma_le_value_of_bytes(value: u64)
    ensures
        le_bytes(value).len() == 8,
        le_value(le_bytes(value)) == value,
{
    assert(value == (value % 0x100) as u8 + (value / 0x100 % 0x100) as u8 * 0x100 + (value
        / 0x1_0000 % 0x100) as u8 * 0x1_0000 + (value / 0x100_0000 % 0x100) as u8 * 0x100_0000 + (
    value / 0x1_0000_0000 % 0x100) as u8 * 0x1_0000_0000 + (value / 0x100_0000_0000 % 0x100) as u8
        * 0x100_0000_0000 + (value / 0x1_0000_0000_0000 % 0x100) as u8 * 0x1_0000_0000_0000 + (
    value / 0x100_0000_0000_0000 % 0x100) as u8 * 0x100_0000_0000_0000) by (bit_vector);
}

/// Reading eight bytes and spelling the number gives the bytes back.
pub proof fn lemma_le_bytes_of_value(bytes: Seq<u8>)
    requires
        bytes.len() == 8,
    ensures
        le_bytes(le_value(bytes) as u64) == bytes,
{
    let b0: u8 = bytes[0];
    let b1: u8 = bytes[1];
    let b2: u8 = bytes[2];
    let b3: u8 = bytes[3];
    let b4: u8 = bytes[4];
    let b5: u8 = bytes[5];
    let b6: u8 = bytes[6];
    let b7: u8 = bytes[7];
    let value: u64 = le_value(bytes) as u64;
    assert(value == b0 + b1 * 0x100 + b2 * 0x1_0000 + b3 * 0x100_0000 + b4 * 0x1_0000_0000 + b5
        * 0x100_0000_0000 + b6 * 0x1_0000_0000_0000 + b7 * 0x100_0000_0000_0000);
    assert(value == b0 + b1 * 0x100 + b2 * 0x1_0000 + b3 * 0x100_0000 + b4 * 0x1_0000_0000 + b5
        * 0x100_0000_0000 + b6 * 0x1_0000_0000_0000 + b7 * 0x100_0000_0000_0000 ==> {
        &&& value % 0x100 == b0
        &&& value / 0x100 % 0x100 == b1
        &&& value / 0x1_0000 % 0x100 == b2
        &&& value / 0x100_0000 % 0x100 == b3
        &&& value / 0x1_0000_0000 % 0x100 == b4
        &&& value / 0x100_0000_0000 % 0x100 == b5
        &&& value / 0x1_0000_0000_0000 % 0x100 == b6
        &&& value / 0x100_0000_0000_0000 % 0x100 == b7
    }) by (bit_vector);
}

/// The standard library's reading of eight little-endian bytes is `le_value`.
pub proof fn lemma_from_le_bytes_is_le_value(bytes: Seq<u8>)
    requires
        bytes.len() == 8,
    ensures
        spec_u64_from_le_bytes(bytes) == le_value(bytes),
{
    // The library reads bytes with shifts and masks and is the inverse of
    // splitting a number into its bytes; the split bytes add up to the
    // number.
    let value: u64 = spec_u64_from_le_bytes(bytes);
    lemma_auto_spec_u64_to_from_le_bytes();
    spec_u64_to_le_bytes_to_open(value);
    assert(value == (value & 0xff) as u8 + ((value >> 8) & 0xff) as u8 * 0x100 + ((value >> 16)
        & 0xff) as u8 * 0x1_0000 + ((value >> 24) & 0xff) as u8 * 0x100_0000 + ((value >> 32)
        & 0xff) as u8 * 0x1_0000_0000 + ((value >> 40) & 0xff) as u8 * 0x100_0000_0000 + ((value
        >> 48) & 0xff) as u8 * 0x1_0000_0000_0000 + ((value >> 56) & 0xff) as u8
        * 0x100_0000_0000_0000) by (bit_vector);
}

} // verus!
