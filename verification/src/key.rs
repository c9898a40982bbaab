//! Map keys: when two values are the same key, and how keys hash.

use std::collections::hash_map::DefaultHasher;
use std::hash::Hasher;
use vstd::prelude::*;
use vstd::std_specs::hash::DefaultHasherAdditionalSpecFns;

use crate::strings::{strings_equal, StringTable};
use crate::value::{extract_string_ptr_from_value, is_string_like, string_ptr, STRING_FLOOR};

verus! {

/// What a value is as a map key.
pub enum Key {
    /// A string, by its content.
    Text(Seq<u8>),
    /// A pointer too low to be a string, by its address.
    Handle(u64),
    /// Anything else, by its bits.
    Bits(u64),
}

/// The key that the value `bits` stands for.
pub open spec fn key_of(strings: Map<u64, Seq<u8>>, bits: u64) -> Key {
    let ptr = string_ptr(bits);
    if ptr == 0 {
        Key::Bits(bits)
    } else if ptr < STRING_FLOOR {
        Key::Handle(ptr)
    } else {
        Key::Text(strings[ptr])
    }
}

/// A value can serve as a key when the string it points to exists.
pub open spec fn readable(strings: Map<u64, Seq<u8>>, bits: u64) -> bool {
    string_ptr(bits) >= STRING_FLOOR ==> strings.contains_key(string_ptr(bits))
}

/// Two values can be compared when they are the same or the strings that both
/// point to exist.
pub open spec fn comparable(strings: Map<u64, Seq<u8>>, a: u64, b: u64) -> bool {
    a != b && string_ptr(a) >= STRING_FLOOR && string_ptr(b) >= STRING_FLOOR
        ==> strings.contains_key(string_ptr(a)) && strings.contains_key(string_ptr(b))
}

/// Whether the value can serve as a key.
pub fn is_readable(strings: &StringTable, bits: u64) -> (r: bool)
    ensures
        r == readable(strings@, bits),
{
    let ptr: u64 = extract_string_ptr_from_value(bits);
    if ptr >= STRING_FLOOR {
        strings.get(ptr).is_some()
    } else {
        true
    }
}

/// Whether two values are the same key: the same bits, or both string-like,
/// under any combination of tags, with the same content.
pub fn jsvalue_eq(strings: &StringTable, a: u64, b: u64) -> (r: bool)
    requires
        comparable(strings@, a, b),
    ensures
        r == (key_of(strings@, a) == key_of(strings@, b)),
{
    if a == b {
        return true;
    }
    if is_string_like(a) && is_string_like(b) {
        let ptr_a: u64 = extract_string_ptr_from_value(a);
        let ptr_b: u64 = extract_string_ptr_from_value(b);
        return strings_equal(strings, ptr_a, ptr_b);
    }
    false
}

/// The word by which the content of a slice of `len` bytes is preceded: its
/// length, as wide as a `usize`.
pub open spec fn length_prefix(len: nat) -> Seq<u8> {
    if usize::BITS == 64 {
        vstd::bytes::spec_u64_to_le_bytes(len as u64)
    } else {
        vstd::bytes::spec_u32_to_le_bytes(len as u32)
    }
}

/// The writes by which a key enters a hasher: a string is marked and written
/// with its 32-bit length and then as a slice, by length prefix and content;
/// everything else is written by its address or bits.
pub open spec fn hash_feed(key: Key) -> Seq<Seq<u8>> {
    match key {
        Key::Text(bytes) => seq![
            vstd::bytes::spec_u32_to_le_bytes(0xFFFF_FFFF),
            vstd::bytes::spec_u32_to_le_bytes(bytes.len() as u32),
            length_prefix(bytes.len()),
            bytes,
        ],
        Key::Handle(addr) => seq![vstd::bytes::spec_u64_to_le_bytes(addr)],
        Key::Bits(bits) => seq![vstd::bytes::spec_u64_to_le_bytes(bits)],
    }
}

/// The hash code of a key.
pub open spec fn hash_code(key: Key) -> u64 {
    DefaultHasher::spec_finish(hash_feed(key))
}

/// A value in its role as a map key.
#[derive(Clone, Copy, Debug)]
pub struct JSValueKey(pub u64);

impl JSValueKey {
    /// Feeds the key to a hasher, strings by content, so that equal keys hash
    /// alike whatever their pointers and tags.
    pub fn hash(&self, strings: &StringTable, state: &mut DefaultHasher)
        requires
            strings.wf(),
            readable(strings@, self.0),
        ensures
            final(state)@ == old(state)@ + hash_feed(key_of(strings@, self.0)),
    {
        let ghost before = state@;
        let ptr: u64 = extract_string_ptr_from_value(self.0);
        if ptr >= STRING_FLOOR {
            match strings.get(ptr) {
                Some(bytes) => {
                    let marker = vstd::bytes::u32_to_le_bytes(0xFFFF_FFFF);
                    let len = vstd::bytes::u32_to_le_bytes(bytes.len() as u32);
                    state.write(marker.as_slice());
                    state.write(len.as_slice());
                    let prefix: Vec<u8> = if usize::BITS == 64 {
                        vstd::bytes::u64_to_le_bytes(bytes.len() as u64)
                    } else {
                        vstd::bytes::u32_to_le_bytes(bytes.len() as u32)
                    };
                    state.write(prefix.as_slice());
                    state.write(bytes.as_slice());
                },
                None => {},
            }
        } else if ptr != 0 {
            let word = vstd::bytes::u64_to_le_bytes(ptr);
            state.write(word.as_slice());
        } else {
            let word = vstd::bytes::u64_to_le_bytes(self.0);
            state.write(word.as_slice());
        }
        assert(state@ =~= before + hash_feed(key_of(strings@, self.0)));
    }

    /// Whether the two values are the same key.
    pub fn eq(&self, other: &JSValueKey, strings: &StringTable) -> (r: bool)
        requires
            comparable(strings@, self.0, other.0),
        ensures
            r == (key_of(strings@, self.0) == key_of(strings@, other.0)),
    {
        jsvalue_eq(strings, self.0, other.0)
    }

    /// The hash code of the key.
    pub fn code(&self, strings: &StringTable) -> (h: u64)
        requires
            strings.wf(),
            readable(strings@, self.0),
        ensures
            h == hash_code(key_of(strings@, self.0)),
    {
        let mut state = DefaultHasher::new();
        self.hash(strings, &mut state);
        assert(Seq::<Seq<u8>>::empty() + hash_feed(key_of(strings@, self.0)) =~= hash_feed(
            key_of(strings@, self.0),
        ));
        state.finish()
    }
}

} // verus!
