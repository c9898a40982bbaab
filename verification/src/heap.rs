//! The part of the runtime's heap that maps live in: strings, arrays, map
//! headers, the registry of map addresses and the index of each map.

use std::collections::{HashMap, HashSet};
use vstd::prelude::*;
use vstd::std_specs::iter::IteratorSpec;

use crate::header::{swap_removed, MapHeader};
use crate::key::{jsvalue_eq, key_of, readable, JSValueKey};
use crate::side_table::{
    lemma_listing_push, lemma_listing_swap_remove, listing, SideTable,
};
use crate::strings::StringTable;
use crate::value::{extract_string_ptr_from_value, normal, string_ptr, STRING_FLOOR};

verus! {

broadcast use vstd::std_specs::hash::group_hash_axioms;

/// Up to this size a scan of the entries beats the index.
pub const SIDE_TABLE_THRESHOLD: u32 = 8;

/// Strings, arrays and maps by address.
pub struct Heap {
    strings: StringTable,
    arrays: HashMap<u64, Vec<u64>>,
    maps: HashMap<u64, MapHeader>,
    registry: HashSet<u64>,
    index: HashMap<u64, SideTable>,
}

/// The keys of a map can all be read, `-0` is not among them, and no two of
/// them are the same key.
pub open spec fn keys_wf(keys: Seq<u64>, strings: Map<u64, Seq<u8>>) -> bool {
    &&& forall|i: int| 0 <= i < keys.len() ==> readable(strings, #[trigger] keys[i])
    &&& forall|i: int| 0 <= i < keys.len() ==> normal(#[trigger] keys[i]) == keys[i]
    &&& forall|i: int, j: int|
        0 <= i < j < keys.len() ==> key_of(strings, #[trigger] keys[i]) != key_of(
            strings,
            #[trigger] keys[j],
        )
}

impl Heap {
    /// The string at each address.
    pub closed spec fn strings(&self) -> Map<u64, Seq<u8>> {
        self.strings@
    }

    /// The elements of the array at each address.
    pub closed spec fn arrays(&self) -> Map<u64, Seq<u64>> {
        self.arrays@.map_values(|elements: Vec<u64>| elements@)
    }

    /// The map at each address.
    pub closed spec fn maps(&self) -> Map<u64, MapHeader> {
        self.maps@
    }

    /// The addresses at which a map was ever made.
    pub closed spec fn registered(&self) -> Set<u64> {
        self.registry@
    }

    /// The addresses of the maps that have an index.
    pub closed spec fn indexed(&self) -> Set<u64> {
        self.index@.dom()
    }

    /// Each index lists exactly the entries of its map.
    pub closed spec fn index_wf(&self) -> bool {
        forall|p: u64| #[trigger]
            self.index@.contains_key(p) ==> self.maps@.contains_key(p) && self.index@[p].agrees(
                self.maps@[p].keys(),
                self.strings@,
            )
    }

    /// Lengths fit their 32-bit fields, each map is registered and well formed
    /// with distinct keys, and each index agrees with its map.
    pub open spec fn wf(&self) -> bool {
        &&& forall|addr: u64| #[trigger]
            self.strings().contains_key(addr) ==> self.strings()[addr].len() <= u32::MAX
        &&& forall|addr: u64| #[trigger]
            self.arrays().contains_key(addr) ==> self.arrays()[addr].len() <= u32::MAX
        &&& forall|p: u64| #[trigger]
            self.maps().contains_key(p) ==> self.maps()[p].wf() && keys_wf(
                self.maps()[p].keys(),
                self.strings(),
            )
        &&& forall|p: u64| #[trigger]
            self.maps().contains_key(p) ==> self.registered().contains(p)
        &&& self.index_wf()
    }

    /// Everything but the map at `p`, its index included, is as in `other`.
    pub open spec fn same_but_map(&self, other: Heap, p: u64) -> bool {
        &&& self.strings() == other.strings()
        &&& self.arrays() == other.arrays()
        &&& self.registered() == other.registered()
        &&& self.indexed().remove(p) == other.indexed().remove(p)
        &&& self.maps().remove(p) == other.maps().remove(p)
        &&& self.maps().contains_key(p)
    }

    /// The map at `p` has a key that points to `addr`.
    pub open spec fn map_pins(&self, p: u64, addr: u64) -> bool {
        self.maps().contains_key(p) && exists|i: int|
            0 <= i < self.maps()[p].size && string_ptr(#[trigger] self.maps()[p].keys()[i]) == addr
    }

    /// Some map has a key that points to `addr`.
    pub open spec fn pins(&self, addr: u64) -> bool {
        exists|p: u64| self.map_pins(p, addr)
    }

    /// A lookup of `key` in the map at `p` reads the string that the key points
    /// to: to hash it, or to compare it with another string.
    pub open spec fn reads_key(&self, p: u64, key: u64) -> bool {
        let header = self.maps()[p];
        string_ptr(key) >= STRING_FLOOR && (self.uses_index(p) || exists|i: int|
            0 <= i < header.size && #[trigger] header.keys()[i] != key && string_ptr(
                header.keys()[i],
            ) >= STRING_FLOOR)
    }

    /// Keys of the map at `p` are found through its index.
    pub open spec fn uses_index(&self, p: u64) -> bool {
        self.maps()[p].size > SIDE_TABLE_THRESHOLD && self.indexed().contains(p)
    }

    /// A heap without objects.
    pub fn new() -> (heap: Heap)
        ensures
            heap.wf(),
            heap.strings() == Map::<u64, Seq<u8>>::empty(),
            heap.arrays() == Map::<u64, Seq<u64>>::empty(),
            heap.maps() == Map::<u64, MapHeader>::empty(),
            heap.registered() == Set::<u64>::empty(),
            heap.indexed() == Set::<u64>::empty(),
    {
        let heap = Heap {
            strings: StringTable::new(),
            arrays: HashMap::new(),
            maps: HashMap::new(),
            registry: HashSet::new(),
            index: HashMap::new(),
        };
        assert(heap.arrays() =~= Map::<u64, Seq<u64>>::empty());
        assert(heap.indexed() =~= Set::<u64>::empty());
        heap
    }

    /// The strings of the heap.
    pub fn string_table(&self) -> (strings: &StringTable)
        requires
            self.wf(),
        ensures
            strings@ == self.strings(),
            strings.wf(),
    {
        assert(self.strings() == self.strings@);
        &self.strings
    }

    /// A map that has a key that points to `addr`, if there is one.
    pub fn pinning_map(&self, addr: u64) -> (r: Option<u64>)
        requires
            self.wf(),
        ensures
            match r {
                Some(p) => self.map_pins(p, addr),
                None => !self.pins(addr),
            },
    {
        if addr >= STRING_FLOOR && self.strings.get(addr).is_none() {
            assert(!self.pins(addr)) by {
                assert(!self.strings().contains_key(addr));
                assert forall|p: u64, i: int|
                    self.maps().contains_key(p) && 0 <= i < self.maps()[p].size implies string_ptr(
                    #[trigger] self.maps()[p].keys()[i],
                ) != addr by {
                    assert(readable(self.strings(), self.maps()[p].keys()[i]));
                }
            }
            return None;
        }
        for entry in it: self.maps.iter()
            invariant
                self.wf(),
                it.seq() == self.maps.iter().remaining(),
                forall|n: int, i: int|
                    0 <= n < it.index() && 0 <= i < it.seq()[n].1.size ==> string_ptr(
                        #[trigger] it.seq()[n].1.keys()[i],
                    ) != addr,
        {
            let (p, header) = entry;
            assert(self.maps@.contains_key(*it.seq()[it.index() as int].0));
            assert(self.maps().contains_key(*p) && self.maps()[*p] == *header);
            let mut i: u32 = 0;
            while i < header.size
                invariant
                    header.wf(),
                    self.maps().contains_key(*p) && self.maps()[*p] == *header,
                    i <= header.size,
                    forall|m: int|
                        0 <= m < i ==> string_ptr(#[trigger] header.keys()[m]) != addr,
                decreases header.size - i,
            {
                let key: u64 = header.key_at(i);
                assert(key == header.keys()[i as int]);
                if extract_string_ptr_from_value(key) == addr {
                    assert(string_ptr(self.maps()[*p].keys()[i as int]) == addr);
                    return Some(*p);
                }
                i = i + 1;
            }
        }
        proof {
            if self.pins(addr) {
                let p = choose|p: u64| self.map_pins(p, addr);
                let i = choose|i: int|
                    0 <= i < self.maps()[p].size && string_ptr(#[trigger] self.maps()[p].keys()[i])
                        == addr;
                let seen = self.maps.iter().remaining();
                assert(self.maps@.contains_key(p));
                assert(seen.contains((&p, &self.maps@[p])));
                let n = choose|n: int| 0 <= n < seen.len() && seen[n] == (&p, &self.maps@[p]);
                assert(string_ptr(seen[n].1.keys()[i]) == addr);
            }
        }
        None
    }

    /// Puts a string at `addr` unless some map has a key that points there, so
    /// that the keys of maps keep their content. Tells whether it did.
    pub fn write_string(&mut self, addr: u64, bytes: Vec<u8>) -> (done: bool)
        requires
            old(self).wf(),
            bytes@.len() <= u32::MAX,
        ensures
            final(self).wf(),
            done == !old(self).pins(addr),
            final(self).strings() == (if done {
                old(self).strings().insert(addr, bytes@)
            } else {
                old(self).strings()
            }),
            final(self).arrays() == old(self).arrays(),
            final(self).maps() == old(self).maps(),
            final(self).registered() == old(self).registered(),
            final(self).indexed() == old(self).indexed(),
    {
        if self.pinning_map(addr).is_some() {
            return false;
        }
        let ghost before = *self;
        assert(self.strings() == self.strings@);
        self.strings.insert(addr, bytes);
        proof {
            self.lemma_string_changed(before, addr);
        }
        true
    }

    /// Frees the string at `addr` unless some map has a key that points there.
    /// Tells whether it did.
    pub fn free_string(&mut self, addr: u64) -> (done: bool)
        requires
            old(self).wf(),
        ensures
            final(self).wf(),
            done == !old(self).pins(addr),
            final(self).strings() == (if done {
                old(self).strings().remove(addr)
            } else {
                old(self).strings()
            }),
            final(self).arrays() == old(self).arrays(),
            final(self).maps() == old(self).maps(),
            final(self).registered() == old(self).registered(),
            final(self).indexed() == old(self).indexed(),
    {
        if self.pinning_map(addr).is_some() {
            return false;
        }
        let ghost before = *self;
        assert(self.strings() == self.strings@);
        self.strings.remove(addr);
        proof {
            self.lemma_string_changed(before, addr);
        }
        true
    }

    /// Puts an array at `addr`, in place of any array there.
    pub fn write_array(&mut self, addr: u64, elements: Vec<u64>)
        requires
            old(self).wf(),
            elements@.len() <= u32::MAX,
        ensures
            final(self).wf(),
            final(self).strings() == old(self).strings(),
            final(self).arrays() == old(self).arrays().insert(addr, elements@),
            final(self).maps() == old(self).maps(),
            final(self).registered() == old(self).registered(),
            final(self).indexed() == old(self).indexed(),
    {
        let ghost before = *self;
        self.arrays.insert(addr, elements);
        assert(self.arrays() =~= before.arrays().insert(addr, elements@));
        assert(self.strings() == before.strings() && self.maps() == before.maps());
        assert(before.index_wf());
    }

    /// Takes the array at `addr` out of the heap, if there is one.
    pub fn take_array(&mut self, addr: u64) -> (elements: Option<Vec<u64>>)
        requires
            old(self).wf(),
        ensures
            final(self).wf(),
            match elements {
                Some(e) => old(self).arrays().contains_key(addr) && e@ == old(self).arrays()[addr],
                None => !old(self).arrays().contains_key(addr),
            },
            final(self).strings() == old(self).strings(),
            final(self).arrays() == old(self).arrays().remove(addr),
            final(self).maps() == old(self).maps(),
            final(self).registered() == old(self).registered(),
            final(self).indexed() == old(self).indexed(),
    {
        let ghost before = *self;
        let elements = self.arrays.remove(&addr);
        assert(self.arrays() =~= before.arrays().remove(addr));
        assert(elements is Some ==> before.arrays().contains_key(addr));
        assert(self.strings() == before.strings() && self.maps() == before.maps());
        assert(self.registered() == before.registered());
        assert(before.index_wf());
        assert forall|a: u64| #[trigger] self.arrays().contains_key(a) implies self.arrays()[a].len()
            <= u32::MAX by {
            assert(before.arrays().contains_key(a));
        }
        elements
    }

    /// The elements of the array at `addr`, if there is one.
    pub fn array(&self, addr: u64) -> (elements: Option<&Vec<u64>>)
        requires
            self.wf(),
        ensures
            match elements {
                Some(e) => self.arrays().contains_key(addr) && e@ == self.arrays()[addr]
                    && e@.len() <= u32::MAX,
                None => !self.arrays().contains_key(addr),
            },
    {
        let elements = self.arrays.get(&addr);
        assert(elements is Some ==> self.arrays().contains_key(addr));
        elements
    }

    /// The map at `p`, if there is one.
    pub fn header(&self, p: u64) -> (header: Option<&MapHeader>)
        ensures
            match header {
                Some(h) => self.maps().contains_key(p) && *h == self.maps()[p],
                None => !self.maps().contains_key(p),
            },
    {
        self.maps.get(&p)
    }

    /// Whether a map was ever made at `p`.
    pub fn is_registered(&self, p: u64) -> (r: bool)
        ensures
            r == self.registered().contains(p),
    {
        self.registry.contains(&p)
    }

    /// Puts an empty map with a fresh index at `p`, in place of any map there,
    /// and registers the address.
    pub fn place_map(&mut self, p: u64, header: MapHeader)
        requires
            old(self).wf(),
            header.wf(),
            header.size == 0,
        ensures
            final(self).wf(),
            final(self).strings() == old(self).strings(),
            final(self).arrays() == old(self).arrays(),
            final(self).maps() == old(self).maps().insert(p, header),
            final(self).registered() == old(self).registered().insert(p),
            final(self).indexed() == old(self).indexed().insert(p),
    {
        let ghost before = *self;
        self.maps.insert(p, header);
        self.registry.insert(p);
        self.index.insert(p, SideTable::new());
        proof {
            assert(header.keys() =~= Seq::<u64>::empty());
            assert(listing(header.keys(), self.strings@) =~= Set::<(u64, u32)>::empty());
            assert(self.indexed() =~= before.indexed().insert(p));
            assert(self.strings() == before.strings() && self.arrays() == before.arrays());
            assert forall|q: u64| #[trigger] self.index@.contains_key(q) implies self.maps@.contains_key(
                q,
            ) && self.index@[q].agrees(self.maps@[q].keys(), self.strings@) by {
                if q != p {
                    assert(before.index@.contains_key(q));
                }
            }
            assert forall|q: u64| #[trigger] self.maps().contains_key(q) implies self.maps()[q].wf()
                && keys_wf(self.maps()[q].keys(), self.strings()) && self.registered().contains(
                q,
            ) by {
                if q != p {
                    assert(before.maps().contains_key(q));
                }
            }
        }
    }

    /// Forgets the index of `p`, if there is one.
    pub fn drop_index(&mut self, p: u64)
        requires
            old(self).wf(),
        ensures
            final(self).wf(),
            final(self).strings() == old(self).strings(),
            final(self).arrays() == old(self).arrays(),
            final(self).maps() == old(self).maps(),
            final(self).registered() == old(self).registered(),
            final(self).indexed() == old(self).indexed().remove(p),
    {
        let ghost before = *self;
        self.index.remove(&p);
        assert(self.indexed() =~= before.indexed().remove(p));
        assert(self.strings() == before.strings() && self.arrays() == before.arrays());
        assert(self.maps() == before.maps());
        assert forall|q: u64| #[trigger] self.index@.contains_key(q) implies self.maps@.contains_key(
            q,
        ) && self.index@[q].agrees(self.maps@[q].keys(), self.strings@) by {
            assert(before.index@.contains_key(q));
        }
    }

    /// Frees the map at `p`, if there is one, and its index. The address stays
    /// registered.
    pub fn free_map(&mut self, p: u64)
        requires
            old(self).wf(),
        ensures
            final(self).wf(),
            final(self).strings() == old(self).strings(),
            final(self).arrays() == old(self).arrays(),
            final(self).maps() == old(self).maps().remove(p),
            final(self).registered() == old(self).registered(),
            final(self).indexed() == old(self).indexed().remove(p),
    {
        self.drop_index(p);
        let ghost before = *self;
        self.maps.remove(&p);
        assert(self.maps() =~= before.maps().remove(p));
        assert(self.strings() == before.strings() && self.arrays() == before.arrays());
        assert(self.registered() == before.registered());
        assert(self.indexed() == before.indexed());
        assert forall|q: u64| #[trigger] self.maps().contains_key(q) implies self.maps()[q].wf()
            && keys_wf(self.maps()[q].keys(), self.strings()) && self.registered().contains(q) by {
            assert(before.maps().contains_key(q));
        }
        assert forall|q: u64| #[trigger] self.index@.contains_key(q) implies self.maps@.contains_key(
            q,
        ) && self.index@[q].agrees(self.maps@[q].keys(), self.strings@) by {
            assert(before.index@.contains_key(q));
            assert(before.indexed().contains(q));
        }
    }

    /// The entry of the map at `p` whose key is `key`: by a scan when the map is
    /// small or has no index, through its index otherwise.
    pub fn find_key_index(&self, p: u64, key: u64) -> (r: Option<u32>)
        requires
            self.wf(),
            self.maps().contains_key(p),
            self.reads_key(p, key) ==> readable(self.strings(), key),
        ensures
            match r {
                Some(i) => i < self.maps()[p].size && key_of(
                    self.strings(),
                    self.maps()[p].keys()[i as int],
                ) == key_of(self.strings(), key),
                None => forall|i: int|
                    #![trigger self.maps()[p].keys()[i]]
                    0 <= i < self.maps()[p].size ==> key_of(
                        self.strings(),
                        self.maps()[p].keys()[i],
                    ) != key_of(self.strings(), key),
            },
    {
        let strings = self.string_table();
        match self.header(p) {
            Some(header) => {
                assert(keys_wf(header.keys(), strings@));
                if header.size > SIDE_TABLE_THRESHOLD {
                    match self.index.get(&p) {
                        Some(table) => {
                            assert(self.uses_index(p));
                            return table.lookup(header, strings, key);
                        },
                        None => {},
                    }
                }
                let mut i: u32 = 0;
                while i < header.size
                    invariant
                        header.wf(),
                        keys_wf(header.keys(), strings@),
                        self.reads_key(p, key) ==> readable(strings@, key),
                        i <= header.size,
                        forall|m: int|
                            0 <= m < i ==> key_of(strings@, #[trigger] header.keys()[m]) != key_of(
                                strings@,
                                key,
                            ),
                        *header == self.maps()[p],
                        strings@ == self.strings(),
                    decreases header.size - i,
                {
                    let entry_key: u64 = header.key_at(i);
                    assert(entry_key == header.keys()[i as int]);
                    assert(readable(strings@, header.keys()[i as int]));
                    if jsvalue_eq(strings, entry_key, key) {
                        return Some(i);
                    }
                    i = i + 1;
                }
                None
            },
            None => None,
        }
    }

    /// Whether a lookup of `key` in the map at `p` reads the string that the key
    /// points to.
    pub fn lookup_reads(&self, p: u64, key: u64) -> (r: bool)
        requires
            self.wf(),
            self.maps().contains_key(p),
        ensures
            r == self.reads_key(p, key),
    {
        if extract_string_ptr_from_value(key) < STRING_FLOOR {
            return false;
        }
        match self.header(p) {
            Some(header) => {
                if header.size > SIDE_TABLE_THRESHOLD && self.index.contains_key(&p) {
                    assert(self.uses_index(p));
                    return true;
                }
                let mut i: u32 = 0;
                while i < header.size
                    invariant
                        header.wf(),
                        *header == self.maps()[p],
                        string_ptr(key) >= STRING_FLOOR,
                        i <= header.size,
                        forall|m: int|
                            0 <= m < i ==> #[trigger] header.keys()[m] == key || string_ptr(
                                header.keys()[m],
                            ) < STRING_FLOOR,
                    decreases header.size - i,
                {
                    let entry_key: u64 = header.key_at(i);
                    assert(entry_key == header.keys()[i as int]);
                    if entry_key != key && extract_string_ptr_from_value(entry_key)
                        >= STRING_FLOOR {
                        return true;
                    }
                    i = i + 1;
                }
                false
            },
            None => false,
        }
    }

    /// Overwrites the value of entry `i` of the map at `p`.
    pub fn set_value(&mut self, p: u64, i: u32, value: u64)
        requires
            old(self).wf(),
            old(self).maps().contains_key(p),
            i < old(self).maps()[p].size,
        ensures
            final(self).wf(),
            final(self).same_but_map(*old(self), p),
            final(self).indexed() == old(self).indexed(),
            final(self).maps()[p].capacity == old(self).maps()[p].capacity,
            final(self).maps()[p].pairs() == old(self).maps()[p].pairs().update(
                i as int,
                (old(self).maps()[p].pairs()[i as int].0, value),
            ),
            final(self).maps()[p].same_slots_but(old(self).maps()[p], i as int),
    {
        let ghost before = *self;
        match self.maps.remove(&p) {
            Some(mut header) => {
                let ghost was = header;
                header.set_value(i, value);
                self.maps.insert(p, header);
                proof {
                    lemma_keys_from_pairs(was);
                    lemma_keys_from_pairs(header);
                    assert(header.keys() =~= was.keys());
                    self.lemma_replaced(before, p);
                }
            },
            None => {},
        }
    }

    /// Adds an entry to the map at `p` and lists it in the map's index. A map
    /// without an index gets one that lists all its entries.
    pub fn append(&mut self, p: u64, key: u64, value: u64)
        requires
            old(self).wf(),
            old(self).maps().contains_key(p),
            old(self).maps()[p].growable(),
            readable(old(self).strings(), key),
            normal(key) == key,
            forall|i: int|
                0 <= i < old(self).maps()[p].size ==> key_of(
                    old(self).strings(),
                    #[trigger] old(self).maps()[p].keys()[i],
                ) != key_of(old(self).strings(), key),
        ensures
            final(self).wf(),
            final(self).same_but_map(*old(self), p),
            final(self).indexed() == old(self).indexed().insert(p),
            final(self).maps()[p].capacity == old(self).maps()[p].grown_capacity(),
            final(self).maps()[p].pairs() == old(self).maps()[p].pairs().push((key, value)),
            final(self).maps()[p].same_slots_but(
                old(self).maps()[p],
                old(self).maps()[p].size as int,
            ),
    {
        let ghost before = *self;
        assert(self.strings() == self.strings@);
        match self.maps.remove(&p) {
            Some(mut header) => {
                let ghost was = header;
                let at: u32 = header.size;
                header.append(key, value);
                proof {
                    lemma_keys_from_pairs(was);
                    lemma_keys_from_pairs(header);
                    assert(header.keys() =~= was.keys().push(key));
                    assert(keys_wf(header.keys(), self.strings@));
                }
                match self.index.remove(&p) {
                    Some(mut table) => {
                        let code: u64 = JSValueKey(key).code(&self.strings);
                        table.insert(code, at);
                        proof {
                            lemma_listing_push(was.keys(), key, self.strings@);
                        }
                        self.index.insert(p, table);
                    },
                    None => {
                        let table = SideTable::build(&header, &self.strings);
                        self.index.insert(p, table);
                    },
                }
                self.maps.insert(p, header);
                proof {
                    assert(self.indexed() =~= before.indexed().insert(p));
                    self.lemma_replaced(before, p);
                }
            },
            None => {},
        }
    }

    /// Removes entry `i` of the map at `p`; the last entry takes its place, in
    /// the buffer and in the index.
    pub fn swap_remove(&mut self, p: u64, i: u32)
        requires
            old(self).wf(),
            old(self).maps().contains_key(p),
            i < old(self).maps()[p].size,
        ensures
            final(self).wf(),
            final(self).same_but_map(*old(self), p),
            final(self).indexed() == old(self).indexed(),
            final(self).maps()[p].capacity == old(self).maps()[p].capacity,
            final(self).maps()[p].pairs() == swap_removed(old(self).maps()[p].pairs(), i as int),
            final(self).maps()[p].same_slots_but(old(self).maps()[p], i as int),
    {
        let ghost before = *self;
        assert(self.strings() == self.strings@);
        match self.maps.remove(&p) {
            Some(mut header) => {
                let ghost was = header;
                let key: u64 = header.key_at(i);
                let last: u32 = header.size - 1;
                let moved = header.swap_pop(i);
                proof {
                    lemma_keys_from_pairs(was);
                    lemma_keys_from_pairs(header);
                    assert(key == was.keys()[i as int]);
                    assert(header.keys() =~= was.keys().update(
                        i as int,
                        was.keys().last(),
                    ).drop_last());
                    lemma_listing_swap_remove(was.keys(), i as int, self.strings@);
                    assert(keys_wf(was.keys(), self.strings@));
                    lemma_keys_swap_remove(was.keys(), i as int, self.strings@);
                }
                match self.index.remove(&p) {
                    Some(mut table) => {
                        table.remove(JSValueKey(key).code(&self.strings), i);
                        if let Some(moved_key) = moved {
                            assert(moved_key == was.keys()[last as int]);
                            let code: u64 = JSValueKey(moved_key).code(&self.strings);
                            table.remove(code, last);
                            table.insert(code, i);
                        }
                        self.index.insert(p, table);
                    },
                    None => {},
                }
                self.maps.insert(p, header);
                proof {
                    assert(self.indexed() =~= before.indexed());
                    self.lemma_replaced(before, p);
                }
            },
            None => {},
        }
    }

    /// Makes the map at `p` empty; its buffer stays as it is.
    pub fn clear_map(&mut self, p: u64)
        requires
            old(self).wf(),
            old(self).maps().contains_key(p),
        ensures
            final(self).wf(),
            final(self).same_but_map(*old(self), p),
            final(self).indexed() == old(self).indexed(),
            final(self).maps()[p].capacity == old(self).maps()[p].capacity,
            final(self).maps()[p].pairs() == Seq::<(u64, u64)>::empty(),
            final(self).maps()[p].entries@ == old(self).maps()[p].entries@,
    {
        let ghost before = *self;
        assert(self.strings() == self.strings@);
        match self.maps.remove(&p) {
            Some(mut header) => {
                header.size = 0;
                match self.index.remove(&p) {
                    Some(mut table) => {
                        table.clear();
                        self.index.insert(p, table);
                    },
                    None => {},
                }
                self.maps.insert(p, header);
                proof {
                    assert(header.keys() =~= Seq::<u64>::empty());
                    assert(header.pairs() =~= Seq::<(u64, u64)>::empty());
                    assert(listing(header.keys(), self.strings@) =~= Set::<(u64, u32)>::empty());
                    assert(self.indexed() =~= before.indexed());
                    self.lemma_replaced(before, p);
                }
            },
            None => {},
        }
    }

    /// A heap in which only the string at `addr` changed, to which no key of a map
    /// points, is well formed.
    proof fn lemma_string_changed(&self, before: Heap, addr: u64)
        requires
            before.wf(),
            !before.pins(addr),
            self.strings.wf(),
            self.strings@.remove(addr) =~= before.strings@.remove(addr),
            self.arrays == before.arrays,
            self.maps == before.maps,
            self.registry == before.registry,
            self.index == before.index,
        ensures
            self.wf(),
    {
        assert(self.arrays() == before.arrays() && self.maps() == before.maps());
        assert(self.registered() == before.registered());
        let old_strings = before.strings();
        let new_strings = self.strings();
        assert forall|a: u64| #[trigger] new_strings.contains_key(a) implies new_strings[a].len()
            <= u32::MAX by {
            assert(self.strings@.contains_key(a));
        }
        assert forall|a: u64| a != addr && #[trigger] old_strings.contains_key(a) implies
            new_strings.contains_key(a) && new_strings[a] == old_strings[a] by {
            assert(before.strings@.remove(addr).contains_key(a));
            assert(self.strings@.remove(addr).contains_key(a));
            assert(self.strings@.remove(addr)[a] == before.strings@.remove(addr)[a]);
        }
        assert forall|p: u64| #[trigger]
            self.maps().contains_key(p) implies self.maps()[p].wf() && keys_wf(
            self.maps()[p].keys(),
            new_strings,
        ) && listing(self.maps()[p].keys(), new_strings) == listing(
            self.maps()[p].keys(),
            old_strings,
        ) by {
            let keys = self.maps()[p].keys();
            assert(before.maps().contains_key(p));
            assert forall|i: int| 0 <= i < keys.len() implies key_of(
                new_strings,
                #[trigger] keys[i],
            ) == key_of(old_strings, keys[i]) && readable(new_strings, keys[i]) by {
                assert(!before.map_pins(p, addr));
                assert(string_ptr(before.maps()[p].keys()[i]) != addr);
                assert(readable(old_strings, keys[i]));
                if string_ptr(keys[i]) >= STRING_FLOOR {
                    assert(old_strings.contains_key(string_ptr(keys[i])));
                }
            }
            assert(listing(keys, new_strings) =~= listing(keys, old_strings));
        }
        assert forall|p: u64| #[trigger] self.index@.contains_key(p) implies self.maps@.contains_key(
            p,
        ) && self.index@[p].agrees(self.maps@[p].keys(), self.strings@) by {
            assert(before.index@.contains_key(p));
            assert(self.maps().contains_key(p));
        }
    }

    /// A heap in which only the map at `p` and its index were replaced, by
    /// well-formed ones, is well formed and otherwise the same.
    proof fn lemma_replaced(&self, before: Heap, p: u64)
        requires
            before.wf(),
            before.maps().contains_key(p),
            self.strings == before.strings,
            self.arrays == before.arrays,
            self.registry == before.registry,
            self.maps@ =~= before.maps@.insert(p, self.maps@[p]),
            self.index@.remove(p) =~= before.index@.remove(p),
            self.maps@[p].wf(),
            keys_wf(self.maps@[p].keys(), self.strings@),
            self.index@.contains_key(p) ==> self.index@[p].agrees(
                self.maps@[p].keys(),
                self.strings@,
            ),
        ensures
            self.wf(),
            self.same_but_map(before, p),
    {
        assert(self.strings() == before.strings() && self.arrays() == before.arrays());
        assert(self.maps@ == before.maps@.insert(p, self.maps@[p]));
        assert forall|q: u64| #[trigger] self.maps().contains_key(q) implies self.maps()[q].wf()
            && keys_wf(self.maps()[q].keys(), self.strings()) by {
            if q != p {
                assert(before.maps().contains_key(q));
            }
        }
        assert forall|q: u64| #[trigger] self.index@.contains_key(q) implies self.maps@.contains_key(
            q,
        ) && self.index@[q].agrees(self.maps@[q].keys(), self.strings@) by {
            if q != p {
                assert(self.index@.remove(p).contains_key(q));
                assert(before.index@.remove(p).contains_key(q));
                assert(self.index@.remove(p)[q] == before.index@.remove(p)[q]);
                assert(before.index@.contains_key(q));
            }
        }
        assert(self.maps().remove(p) =~= before.maps().remove(p));
        assert(self.indexed().remove(p) =~= self.index@.remove(p).dom());
        assert(before.indexed().remove(p) =~= before.index@.remove(p).dom());
    }
}

/// The keys of a map are the first components of its pairs.
pub proof fn lemma_keys_from_pairs(header: MapHeader)
    ensures
        header.keys() == header.pairs().map_values(|pair: (u64, u64)| pair.0),
{
    assert(header.keys() =~= header.pairs().map_values(|pair: (u64, u64)| pair.0));
}

/// Distinct keys stay distinct when one goes and the last takes its place.
proof fn lemma_keys_swap_remove(keys: Seq<u64>, i: int, strings: Map<u64, Seq<u8>>)
    requires
        keys_wf(keys, strings),
        0 <= i < keys.len(),
    ensures
        keys_wf(keys.update(i, keys.last()).drop_last(), strings),
{
    let after = keys.update(i, keys.last()).drop_last();
    assert forall|m: int, n: int| 0 <= m < n < after.len() implies key_of(
        strings,
        #[trigger] after[m],
    ) != key_of(strings, #[trigger] after[n]) by {
        let last = keys.len() - 1;
        let a = if m == i { last } else { m };
        let b = if n == i { last } else { n };
        assert(after[m] == keys[a] && after[n] == keys[b]);
    }
}

} // verus!
