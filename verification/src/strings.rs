//! The strings that values point to. Whatever a string-like value points to is
//! read as a string: its bytes are what the string header there spans.

use std::collections::HashMap;
use vstd::prelude::*;

use crate::value::STRING_FLOOR;

verus! {

broadcast use vstd::std_specs::hash::group_hash_axioms;

/// The strings of the heap, each under the address of its header.
pub struct StringTable {
    strings: HashMap<u64, Vec<u8>>,
}

impl View for StringTable {
    type V = Map<u64, Seq<u8>>;

    closed spec fn view(&self) -> Map<u64, Seq<u8>> {
        self.strings@.map_values(|bytes: Vec<u8>| bytes@)
    }
}

impl StringTable {
    /// Every string's length fits the 32-bit length field of its header.
    pub open spec fn wf(&self) -> bool {
        forall|addr: u64| #[trigger]
            self@.contains_key(addr) ==> self@[addr].len() <= u32::MAX
    }

    /// A table without strings.
    pub fn new() -> (table: StringTable)
        ensures
            table.wf(),
            table@ == Map::<u64, Seq<u8>>::empty(),
    {
        let table = StringTable { strings: HashMap::new() };
        assert(table@ =~= Map::<u64, Seq<u8>>::empty());
        table
    }

    /// Puts a string at `addr`, in place of any string there.
    pub fn insert(&mut self, addr: u64, bytes: Vec<u8>)
        requires
            old(self).wf(),
            bytes@.len() <= u32::MAX,
        ensures
            final(self).wf(),
            final(self)@ == old(self)@.insert(addr, bytes@),
    {
        let ghost before = self@;
        self.strings.insert(addr, bytes);
        assert(self@ =~= before.insert(addr, bytes@));
    }

    /// Removes the string at `addr`, if there is one.
    pub fn remove(&mut self, addr: u64)
        requires
            old(self).wf(),
        ensures
            final(self).wf(),
            final(self)@ == old(self)@.remove(addr),
    {
        let ghost before = self@;
        self.strings.remove(&addr);
        assert(self@ =~= before.remove(addr));
    }

    /// The bytes of the string at `addr`, if there is one.
    pub fn get(&self, addr: u64) -> (bytes: Option<&Vec<u8>>)
        ensures
            match bytes {
                Some(b) => self@.contains_key(addr) && b@ == self@[addr],
                None => !self@.contains_key(addr),
            },
    {
        self.strings.get(&addr)
    }
}

/// Whether two byte strings are the same.
fn bytes_equal(a: &Vec<u8>, b: &Vec<u8>) -> (r: bool)
    ensures
        r == (a@ == b@),
{
    if a.len() != b.len() {
        return false;
    }
    for i in 0..a.len()
        invariant
            a@.len() == b@.len(),
            a@.take(i as int) == b@.take(i as int),
    {
        if a[i] != b[i] {
            return false;
        }
        assert(a@.take(i + 1) =~= a@.take(i as int).push(a@[i as int]));
        assert(b@.take(i + 1) =~= b@.take(i as int).push(b@[i as int]));
    }
    assert(a@.take(a@.len() as int) =~= a@);
    assert(b@.take(b@.len() as int) =~= b@);
    true
}

/// Compares two strings by content. Below `STRING_FLOOR` there are no strings,
/// only plain handles, which are equal when their addresses are.
pub fn strings_equal(strings: &StringTable, a: u64, b: u64) -> (r: bool)
    requires
        a >= STRING_FLOOR && b >= STRING_FLOOR ==> strings@.contains_key(a)
            && strings@.contains_key(b),
    ensures
        r == (if a < STRING_FLOOR || b < STRING_FLOOR {
            a == b
        } else {
            strings@[a] == strings@[b]
        }),
{
    if a < STRING_FLOOR || b < STRING_FLOOR {
        return a == b;
    }
    match (strings.get(a), strings.get(b)) {
        (Some(x), Some(y)) => bytes_equal(x, y),
        _ => false,
    }
}

} // verus!
