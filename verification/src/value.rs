//! NaN-boxed values as raw 64-bit patterns.
//!
//! A value is an IEEE double whose bit pattern either is a number or carries a
//! tag in the upper 16 bits and a payload in the lower 48 bits.

use vstd::prelude::*;

verus! {

/// The value `undefined`.
pub const TAG_UNDEFINED: u64 = 0x7FFC_0000_0000_0001;

/// Bits of the number `-0`.
pub const NEGATIVE_ZERO: u64 = 0x8000_0000_0000_0000;

/// The lower 48 bits, where a tagged value keeps its payload.
pub const PAYLOAD_MASK: u64 = 0x0000_FFFF_FFFF_FFFF;

/// Smallest tag of the quiet-NaN space.
pub const NAN_TAG: u64 = 0x7FF8;

/// A further tag under which a nested array may arrive.
pub const ARRAY_TAG: u64 = 0x7FFA;

/// Tag of `undefined`, `null` and the booleans.
pub const SINGLETON_TAG: u64 = 0x7FFC;

/// Tag of pointers to heap objects.
pub const POINTER_TAG: u64 = 0x7FFD;

/// Tag of string pointers.
pub const STRING_TAG: u64 = 0x7FFF;

/// An untagged value is taken for a raw pointer only above this address.
pub const RAW_POINTER_FLOOR: u64 = 0x10000;

/// No string lives below this address.
pub const STRING_FLOOR: u64 = 0x1000;

/// The tag of a value: its upper 16 bits.
pub open spec fn tag(bits: u64) -> u64 {
    bits / 0x1_0000_0000_0000
}

/// The payload of a value: its lower 48 bits.
pub open spec fn payload(bits: u64) -> u64 {
    bits % 0x1_0000_0000_0000
}

/// The upper 16 bits of `bits`.
pub fn tag_of(bits: u64) -> (r: u64)
    ensures
        r == tag(bits),
{
    assert(bits >> 48 == bits / 0x1_0000_0000_0000) by (bit_vector);
    bits >> 48
}

/// The lower 48 bits of `bits`.
pub fn payload_of(bits: u64) -> (r: u64)
    ensures
        r == payload(bits),
{
    assert(bits & 0x0000_FFFF_FFFF_FFFF == bits % 0x1_0000_0000_0000) by (bit_vector);
    bits & PAYLOAD_MASK
}

/// The address that a possibly NaN-boxed map pointer stands for, 0 for null.
pub open spec fn clean_ptr(map: u64) -> u64 {
    if tag(map) < NAN_TAG {
        map
    } else if tag(map) == SINGLETON_TAG {
        0
    } else {
        payload(map)
    }
}

/// Strips the NaN-boxing tag from a map pointer. `undefined`, `null` and a
/// tagged zero become the null pointer.
pub fn clean_map_ptr(map: u64) -> (r: u64)
    ensures
        r == clean_ptr(map),
{
    let top16: u64 = tag_of(map);
    if top16 >= NAN_TAG {
        if top16 == SINGLETON_TAG || payload_of(map) == 0 {
            return 0;
        }
        payload_of(map)
    } else {
        map
    }
}

/// The two bit patterns of the number zero.
pub open spec fn is_zero(bits: u64) -> bool {
    bits == 0 || bits == NEGATIVE_ZERO
}

/// A key as the map stores it: `-0` becomes `+0`.
pub open spec fn normal(key: u64) -> u64 {
    if is_zero(key) {
        0
    } else {
        key
    }
}

/// Whether `bits` compares equal to the number zero.
pub fn is_zero_number(bits: u64) -> (r: bool)
    ensures
        r == is_zero(bits),
{
    bits == 0 || bits == NEGATIVE_ZERO
}

/// SameValueZero key normalization: `-0` and `+0` are one key, every other
/// value stands for itself.
pub fn normalize_zero(key: u64) -> (r: u64)
    ensures
        r == normal(key),
{
    if is_zero_number(key) {
        0
    } else {
        key
    }
}

/// Whether `bits` looks like a raw heap pointer: no tag and a payload above
/// `RAW_POINTER_FLOOR`.
pub fn looks_like_pointer(bits: u64) -> (r: bool)
    ensures
        r == (tag(bits) == 0 && payload(bits) > RAW_POINTER_FLOOR),
{
    tag_of(bits) == 0 && payload_of(bits) > RAW_POINTER_FLOOR
}

/// The string pointer that a value may hold, 0 for none. String-tagged and
/// pointer-tagged values hold one in their payload; an untagged value is a raw
/// pointer when it is above `RAW_POINTER_FLOOR`.
pub open spec fn string_ptr(bits: u64) -> u64 {
    if tag(bits) == STRING_TAG || tag(bits) == POINTER_TAG {
        payload(bits)
    } else if tag(bits) == 0 && payload(bits) > RAW_POINTER_FLOOR {
        payload(bits)
    } else {
        0
    }
}

/// Extracts a string pointer from a value boxed with any of the tags that
/// strings travel under, or 0.
pub fn extract_string_ptr_from_value(bits: u64) -> (r: u64)
    ensures
        r == string_ptr(bits),
{
    let upper: u64 = tag_of(bits);
    if upper == STRING_TAG || upper == POINTER_TAG {
        payload_of(bits)
    } else if upper == 0 {
        let lower: u64 = payload_of(bits);
        if lower > RAW_POINTER_FLOOR {
            lower
        } else {
            0
        }
    } else {
        0
    }
}

/// Whether a value looks like it holds a string or pointer.
pub fn is_string_like(bits: u64) -> (r: bool)
    ensures
        r == (string_ptr(bits) != 0),
{
    extract_string_ptr_from_value(bits) != 0
}

/// The value that boxes the heap address `addr`.
pub open spec fn boxed_pointer(addr: u64) -> u64 {
    (0x7FFD_0000_0000_0000 + payload(addr)) as u64
}

/// Boxes a heap address under `POINTER_TAG`.
pub fn nanbox_pointer(addr: u64) -> (r: u64)
    ensures
        r == boxed_pointer(addr),
        tag(r) == POINTER_TAG,
        payload(r) == payload(addr),
{
    0x7FFD_0000_0000_0000 + payload_of(addr)
}

} // verus!
