//! What holds of values and keys, on the words themselves.
//!
//! A word is tag times 2^48 plus payload. The laws speak of what calls of the
//! functions give.

use vstd::prelude::*;

use crate::header::{capacity_fits, entries_layout, EntriesLayout};
use crate::key::{is_readable, jsvalue_eq, key_of, readable, JSValueKey};
use crate::map_arrays::inner_array_of;
use crate::model::inner_array;
use crate::strings::{strings_equal, StringTable};
use crate::value::{
    boxed_pointer, clean_map_ptr, clean_ptr, extract_string_ptr_from_value, is_string_like,
    is_zero, is_zero_number, looks_like_pointer, nanbox_pointer, normal, normalize_zero, payload,
    payload_of, string_ptr, tag, tag_of,
};

verus! {

/// `p` is an address: not null, and within 48 bits.
pub open spec fn wide(p: u64) -> bool {
    0 < p < 0x1_0000_0000_0000
}

/// The word `bits` has the tag `t` and the payload `p`.
pub open spec fn word(bits: u64, t: int, p: u64) -> bool {
    0 <= t < 0x1_0000 && p < 0x1_0000_0000_0000 && bits == t * 0x1_0000_0000_0000 + p
}

/// Every word is made of one tag and one payload, which the two functions give.
pub proof fn law_words_split(bits: u64, t: u64, p: u64)
    requires
        call_ensures(tag_of, (bits,), t),
        call_ensures(payload_of, (bits,), p),
    ensures
        word(bits, t as int, p),
        tag(bits) == t,
        payload(bits) == p,
{
}

/// A word determines its tag and payload.
pub proof fn law_words_are_made_of(bits: u64, t: int, p: u64)
    requires
        word(bits, t, p),
    ensures
        tag(bits) == t,
        payload(bits) == p,
{
}

/// The value `bits` points to `p`: string-tagged or pointer-tagged at any
/// 48-bit address, or untagged above the first 64 KiB.
pub open spec fn points_to(bits: u64, p: u64) -> bool {
    wide(p) && (word(bits, 0x7FFF, p) || word(bits, 0x7FFD, p) || (bits == p && p > 0x10000))
}

/// The pointer that is taken from a value is the one it holds, at any 48-bit
/// address, and 0 when it holds none.
pub proof fn law_string_pointer(bits: u64, p: u64, r: u64, like: bool)
    requires
        call_ensures(extract_string_ptr_from_value, (bits,), r),
        call_ensures(is_string_like, (bits,), like),
    ensures
        points_to(bits, p) ==> r == p && like,
        (forall|q: u64| !points_to(bits, q)) ==> r == 0 && !like,
        r != 0 ==> points_to(bits, r),
        r == string_ptr(bits),
{
    lemma_string_ptr(bits);
}

/// The string pointer of a value is what it points to.
pub proof fn lemma_string_ptr(bits: u64)
    ensures
        forall|p: u64| points_to(bits, p) ==> string_ptr(bits) == p,
        string_ptr(bits) != 0 ==> points_to(bits, string_ptr(bits)),
        (forall|q: u64| !points_to(bits, q)) ==> string_ptr(bits) == 0,
{
    if string_ptr(bits) != 0 {
        assert(word(bits, tag(bits) as int, payload(bits)));
        assert(points_to(bits, string_ptr(bits)));
    }
}

/// A value that looks like a raw pointer is one above the first 64 KiB and
/// within 48 bits, and then it points to itself.
pub proof fn law_raw_pointers(bits: u64, r: bool)
    requires
        call_ensures(looks_like_pointer, (bits,), r),
    ensures
        r == (0x10000 < bits < 0x1_0000_0000_0000),
        r ==> points_to(bits, bits),
{
}

/// `map` names the address `p`: raw, or boxed under any tag of the quiet-NaN
/// space but that of `undefined` and `null`.
pub open spec fn names_address(map: u64, p: u64) -> bool {
    p != 0 && ((map == p && p < 0x7FF8_0000_0000_0000) || exists|t: int|
        0x7FF8 <= t && t != 0x7FFC && #[trigger] word(map, t, p))
}

/// A map pointer stands for the address that it names, and for null when it
/// names none: when it is 0, `undefined`, `null` or a boxed 0.
pub proof fn law_map_pointers(map: u64, p: u64, r: u64)
    requires
        call_ensures(clean_map_ptr, (map,), r),
    ensures
        names_address(map, p) ==> r == p,
        (forall|q: u64| !names_address(map, q)) ==> r == 0,
        r != 0 ==> names_address(map, r),
        map == 0 ==> r == 0,
        word(map, 0x7FFC, p) ==> r == 0,
        r == clean_ptr(map),
{
    lemma_clean_ptr(map);
}

/// The address of a map pointer is the one it names.
pub proof fn lemma_clean_ptr(map: u64)
    ensures
        forall|p: u64| names_address(map, p) ==> clean_ptr(map) == p,
        clean_ptr(map) != 0 ==> names_address(map, clean_ptr(map)),
        (forall|q: u64| !names_address(map, q)) ==> clean_ptr(map) == 0,
        map == 0 ==> clean_ptr(map) == 0,
        forall|p: u64| word(map, 0x7FFC, p) ==> clean_ptr(map) == 0,
{
    assert(word(map, tag(map) as int, payload(map)));
    if clean_ptr(map) != 0 {
        assert(names_address(map, clean_ptr(map)));
    }
}

/// Only `-0` is changed by normalization, to `+0`; they alone count as zero.
pub proof fn law_zero_normalization(key: u64, r: u64, zero: bool)
    requires
        call_ensures(normalize_zero, (key,), r),
        call_ensures(is_zero_number, (key,), zero),
    ensures
        key == 0x8000_0000_0000_0000 ==> r == 0,
        key != 0x8000_0000_0000_0000 ==> r == key,
        zero == (key == 0 || key == 0x8000_0000_0000_0000),
        r == normal(key),
        zero == is_zero(key),
{
}

/// A boxed address is pointer-tagged, points to the address, names it as a map
/// and holds it as an array; no other address is boxed alike.
pub proof fn law_boxed_pointers(addr: u64, r: u64, other: u64, s: u64)
    requires
        wide(addr),
        wide(other),
        call_ensures(nanbox_pointer, (addr,), r),
        call_ensures(nanbox_pointer, (other,), s),
    ensures
        word(r, 0x7FFD, addr),
        points_to(r, addr),
        names_address(r, addr),
        holds_array(r, addr),
        r == s ==> addr == other,
        r == boxed_pointer(addr),
{
}

/// An array element holds the array at `p`: boxed as a pointer, a string or an
/// array at any 48-bit address, or untagged above the first 64 KiB.
pub open spec fn holds_array(element: u64, p: u64) -> bool {
    wide(p) && (word(element, 0x7FFD, p) || word(element, 0x7FFF, p) || word(element, 0x7FFA, p)
        || (element == p && p > 0x10000))
}

/// The array that is taken from an element is the one it holds, and 0 when it
/// holds none.
pub proof fn law_inner_arrays(element: u64, p: u64, r: u64)
    requires
        call_ensures(inner_array_of, (element,), r),
    ensures
        holds_array(element, p) ==> r == p,
        (forall|q: u64| !holds_array(element, q)) ==> r == 0,
        r != 0 ==> holds_array(element, r),
        r == inner_array(element),
{
    lemma_inner_array(element);
}

/// The inner array of an element is the one it holds.
pub proof fn lemma_inner_array(element: u64)
    ensures
        forall|p: u64| holds_array(element, p) ==> inner_array(element) == p,
        inner_array(element) != 0 ==> holds_array(element, inner_array(element)),
        (forall|q: u64| !holds_array(element, q)) ==> inner_array(element) == 0,
{
    if inner_array(element) != 0 {
        assert(word(element, tag(element) as int, payload(element)));
        assert(holds_array(element, inner_array(element)));
    }
}

/// What two pointers point to is the same: the same string content, or, where
/// one of them is within the first 4 KiB, the same address.
pub open spec fn same_target(strings: Map<u64, Seq<u8>>, p: u64, q: u64) -> bool {
    if p < 0x1000 || q < 0x1000 {
        p == q
    } else {
        strings[p] == strings[q]
    }
}

/// Two values are the same key: the same bits, or pointers, under whatever
/// tags, to the same thing.
pub open spec fn same_key(strings: Map<u64, Seq<u8>>, a: u64, b: u64) -> bool {
    a == b || exists|p: u64, q: u64| #[trigger]
        points_to(a, p) && #[trigger] points_to(b, q) && same_target(strings, p, q)
}

/// Two values have the same key exactly when they are the same key.
pub proof fn lemma_same_key(strings: Map<u64, Seq<u8>>, a: u64, b: u64)
    ensures
        (key_of(strings, a) == key_of(strings, b)) == same_key(strings, a, b),
{
    lemma_string_ptr(a);
    lemma_string_ptr(b);
    let p = string_ptr(a);
    let q = string_ptr(b);
    if key_of(strings, a) == key_of(strings, b) && a != b {
        assert(p != 0 && q != 0);
        assert(points_to(a, p) && points_to(b, q) && same_target(strings, p, q));
    }
}

/// Comparison of strings is by content, of low addresses by address.
pub proof fn law_strings_compare_by_content(strings: StringTable, p: u64, q: u64, r: bool)
    requires
        call_ensures(strings_equal, (&strings, p, q), r),
    ensures
        r == same_target(strings@, p, q),
{
}

/// Comparison of values is sameness of keys.
pub proof fn law_values_compare_as_keys(strings: StringTable, a: u64, b: u64, r: bool, s: bool)
    requires
        call_ensures(jsvalue_eq, (&strings, a, b), r),
        call_ensures(JSValueKey::eq, (&JSValueKey(a), &JSValueKey(b), &strings), s),
    ensures
        r == same_key(strings@, a, b),
        s == r,
{
    lemma_same_key(strings@, a, b);
}

/// Two tagged strings are the same key exactly when their bytes are the same,
/// at any two 48-bit addresses and under either tag.
pub proof fn law_tagged_strings_are_keys_by_content(
    strings: StringTable,
    a: u64,
    b: u64,
    p: u64,
    q: u64,
    r: bool,
)
    requires
        0x1000 <= p < 0x1_0000_0000_0000,
        0x1000 <= q < 0x1_0000_0000_0000,
        word(a, 0x7FFF, p) || word(a, 0x7FFD, p),
        word(b, 0x7FFF, q) || word(b, 0x7FFD, q),
        call_ensures(jsvalue_eq, (&strings, a, b), r),
    ensures
        r == (strings@[p] == strings@[q]),
        (key_of(strings@, a) == key_of(strings@, b)) == (strings@[p] == strings@[q]),
{
    lemma_same_key(strings@, a, b);
    lemma_string_ptr(a);
    lemma_string_ptr(b);
    assert(points_to(a, p) && points_to(b, q));
}

/// Values that point nowhere are the same key only as the same word.
pub proof fn law_words_are_keys_by_bits(strings: StringTable, a: u64, b: u64, r: bool)
    requires
        forall|p: u64| !points_to(a, p),
        call_ensures(jsvalue_eq, (&strings, a, b), r),
    ensures
        r == (a == b),
{
    lemma_same_key(strings@, a, b);
}

/// A value can serve as a key unless it points to a missing string.
pub proof fn law_readable_keys(strings: StringTable, bits: u64, p: u64, r: bool)
    requires
        call_ensures(is_readable, (&strings, bits), r),
    ensures
        points_to(bits, p) && p >= 0x1000 ==> r == strings@.contains_key(p),
        points_to(bits, p) && p < 0x1000 ==> r,
        (forall|q: u64| !points_to(bits, q)) ==> r,
        r == readable(strings@, bits),
{
    lemma_string_ptr(bits);
}

/// Keys that are the same have the same hash code.
pub proof fn law_same_keys_have_one_code(strings: StringTable, a: u64, b: u64, x: u64, y: u64)
    requires
        same_key(strings@, a, b),
        call_ensures(JSValueKey::code, (&JSValueKey(a), &strings), x),
        call_ensures(JSValueKey::code, (&JSValueKey(b), &strings), y),
    ensures
        x == y,
{
    lemma_same_key(strings@, a, b);
}

/// A buffer of `capacity` entries takes 16 bytes for each, at least 8, aligned
/// to 8, where that is within what one allocation may hold.
pub proof fn law_entry_buffers(capacity: u32, fits: bool, layout: EntriesLayout)
    requires
        call_ensures(capacity_fits, (capacity,), fits),
        call_ensures(entries_layout, (capacity as usize,), layout),
    ensures
        fits == (16 * capacity <= isize::MAX),
        capacity > 0 ==> layout.size == 16 * capacity,
        capacity == 0 ==> layout.size == 8,
        layout.align == 8,
{
}

} // verus!
