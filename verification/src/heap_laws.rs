//! What calls on the heap, its strings and its buffers give, and which calls are
//! open.

use std::collections::hash_map::DefaultHasher;
use vstd::prelude::*;

use crate::array_call_laws::{can_be_read, lemma_names_pairs};
use crate::foreach::js_map_foreach;
use crate::header::MapHeader;
use crate::heap::Heap;
use crate::key::{hash_feed, key_of, JSValueKey};
use crate::map_arrays::{js_map_entries, js_map_keys, js_map_values, try_map_from_array};
use crate::map_call_laws::{
    entry_of, kept, key_word, lemma_entries, names, no_entry_of, same_words, set_words, value_word,
};
use crate::model::holds;
use crate::strings::StringTable;
use crate::value::{normal, string_ptr};
use crate::value_laws::{lemma_clean_ptr, lemma_string_ptr, points_to};

verus! {

/// A new heap holds nothing.
pub proof fn law_new_heap(heap: Heap)
    requires
        call_ensures(Heap::new, (), heap),
    ensures
        heap.wf(),
        forall|a: u64| !heap.strings().contains_key(a),
        forall|a: u64| !heap.arrays().contains_key(a),
        forall|a: u64| !heap.maps().contains_key(a),
        forall|a: u64| !heap.registered().contains(a),
        forall|a: u64| !heap.indexed().contains(a),
{
}

/// A string table gives back the bytes that were put at an address last, and
/// none where they were removed or never put.
pub proof fn law_string_table(
    before: StringTable,
    put: StringTable,
    removed: StringTable,
    addr: u64,
    bytes: Vec<u8>,
    other: u64,
    r: Option<&Vec<u8>>,
    s: Option<&Vec<u8>>,
    was: Option<&Vec<u8>>,
)
    requires
        exists|t: &mut StringTable|
            *t == before && *final(t) == put && #[trigger] call_ensures(
                StringTable::insert,
                (t, addr, bytes),
                (),
            ),
        exists|t: &mut StringTable|
            *t == before && *final(t) == removed && #[trigger] call_ensures(
                StringTable::remove,
                (t, addr),
                (),
            ),
        call_ensures(StringTable::get, (&before, other), was),
        call_ensures(StringTable::get, (&put, other), r),
        call_ensures(StringTable::get, (&removed, other), s),
    ensures
        other == addr ==> r is Some && r.unwrap()@ == bytes@ && s is None,
        other != addr ==> r is Some == was is Some && s is Some == was is Some,
        other != addr && was is Some ==> r.unwrap()@ == was.unwrap()@ && s.unwrap()@
            == was.unwrap()@,
{
}

/// A string is written where no key of a map points, any string at any address,
/// and refused elsewhere; freeing is refused alike. Nothing else changes.
pub proof fn law_heap_strings(
    before: Heap,
    wrote: Heap,
    freed: Heap,
    addr: u64,
    bytes: Vec<u8>,
    r: bool,
    s: bool,
    p: u64,
    i: int,
    holder: Option<u64>,
)
    requires
        before.wf(),
        exists|h: &mut Heap|
            *h == before && *final(h) == wrote && #[trigger] call_ensures(
                Heap::write_string,
                (h, addr, bytes),
                r,
            ),
        exists|h: &mut Heap|
            *h == before && *final(h) == freed && #[trigger] call_ensures(
                Heap::free_string,
                (h, addr),
                s,
            ),
        call_ensures(Heap::pinning_map, (&before, addr), holder),
    ensures
        r == s,
        r == holder is None,
        addr != 0 && before.maps().contains_key(p) && 0 <= i < before.maps()[p].size && points_to(
            key_word(before.maps()[p], i),
            addr,
        ) ==> !r,
        addr != 0 && holder is Some ==> before.maps().contains_key(holder.unwrap()) && exists|j: int|
            0 <= j < before.maps()[holder.unwrap()].size && points_to(
                #[trigger] key_word(before.maps()[holder.unwrap()], j),
                addr,
            ),
        wrote.wf(),
        freed.wf(),
        wrote.strings() == (if r {
            before.strings().insert(addr, bytes@)
        } else {
            before.strings()
        }),
        freed.strings() == (if r {
            before.strings().remove(addr)
        } else {
            before.strings()
        }),
        wrote.arrays() == before.arrays() && freed.arrays() == before.arrays(),
        wrote.maps() == before.maps() && freed.maps() == before.maps(),
        wrote.registered() == before.registered() && freed.registered() == before.registered(),
        wrote.indexed() == before.indexed() && freed.indexed() == before.indexed(),
{
    if addr != 0 && before.maps().contains_key(p) && 0 <= i < before.maps()[p].size && points_to(
        key_word(before.maps()[p], i),
        addr,
    ) {
        lemma_string_ptr(key_word(before.maps()[p], i));
        assert(string_ptr(before.maps()[p].keys()[i]) == addr);
        assert(before.map_pins(p, addr));
    }
    if holder is Some {
        let q = holder.unwrap();
        assert(before.map_pins(q, addr));
        let j = choose|j: int|
            0 <= j < before.maps()[q].size && string_ptr(#[trigger] before.maps()[q].keys()[j])
                == addr;
        lemma_string_ptr(before.maps()[q].keys()[j]);
        assert(key_word(before.maps()[q], j) == before.maps()[q].keys()[j]);
    }
}

/// The strings of the heap are what its table gives, and what any address holds
/// is what was put there.
pub proof fn law_heap_reads(
    heap: Heap,
    addr: u64,
    table: &StringTable,
    array: Option<&Vec<u64>>,
    map: Option<&MapHeader>,
    registered: bool,
)
    requires
        call_ensures(Heap::string_table, (&heap,), table),
        call_ensures(Heap::array, (&heap, addr), array),
        call_ensures(Heap::header, (&heap, addr), map),
        call_ensures(Heap::is_registered, (&heap, addr), registered),
    ensures
        table@ == heap.strings(),
        array is Some == heap.arrays().contains_key(addr),
        array is Some ==> array.unwrap()@ == heap.arrays()[addr],
        map is Some == heap.maps().contains_key(addr),
        map is Some ==> *map.unwrap() == heap.maps()[addr],
        registered == heap.registered().contains(addr),
{
}

/// An array is written as it is and taken as it was; a freed map goes with its
/// index and leaves everything else.
pub proof fn law_heap_writes(
    before: Heap,
    wrote: Heap,
    took: Heap,
    freed: Heap,
    addr: u64,
    elements: Vec<u64>,
    taken: Option<Vec<u64>>,
)
    requires
        exists|h: &mut Heap|
            *h == before && *final(h) == wrote && #[trigger] call_ensures(
                Heap::write_array,
                (h, addr, elements),
                (),
            ),
        exists|h: &mut Heap|
            *h == before && *final(h) == took && #[trigger] call_ensures(
                Heap::take_array,
                (h, addr),
                taken,
            ),
        exists|h: &mut Heap|
            *h == before && *final(h) == freed && #[trigger] call_ensures(
                Heap::free_map,
                (h, addr),
                (),
            ),
    ensures
        wrote.wf() && took.wf() && freed.wf(),
        wrote.arrays() == before.arrays().insert(addr, elements@),
        took.arrays() == before.arrays().remove(addr),
        taken is Some == before.arrays().contains_key(addr),
        taken is Some ==> taken.unwrap()@ == before.arrays()[addr],
        freed.maps() == before.maps().remove(addr),
        freed.indexed() == before.indexed().remove(addr),
        wrote.strings() == before.strings() && took.strings() == before.strings()
            && freed.strings() == before.strings(),
        wrote.maps() == before.maps() && took.maps() == before.maps(),
        freed.arrays() == before.arrays(),
        wrote.registered() == before.registered() && took.registered() == before.registered()
            && freed.registered() == before.registered(),
        wrote.indexed() == before.indexed() && took.indexed() == before.indexed(),
{
}

/// A key is found where its entry is, with or without an index, and nowhere when
/// it has none.
pub proof fn law_find(heap: Heap, p: u64, key: u64, r: Option<u32>, i: int)
    requires
        heap.wf(),
        heap.maps().contains_key(p),
        call_ensures(Heap::find_key_index, (&heap, p, kept(key)), r),
    ensures
        entry_of(heap, p, key, i) ==> r is Some && r.unwrap() == i,
        no_entry_of(heap, p, key) ==> r is None,
{
    lemma_entries(heap, p, key);
    let h = heap.maps()[p];
    assert(kept(key) == normal(key));
    assert forall|j: int| 0 <= j < h.size implies h.keys()[j] == #[trigger] h.pairs()[j].0 by {}
    match r {
        Some(j) => {
            assert(h.pairs()[j as int].0 == h.keys()[j as int]);
            assert(holds(heap.strings(), h.pairs(), normal(key), j as int));
            assert(entry_of(heap, p, key, j as int));
        },
        None => {
            if entry_of(heap, p, key, i) {
                assert(holds(heap.strings(), h.pairs(), normal(key), i));
                assert(h.keys()[i] == h.pairs()[i].0);
            }
        },
    }
}

/// A key enters a hasher by what it is: a string at any address by a mark, its
/// length, its length as a slice and its bytes; a low pointer by its address; any
/// other value by its word.
pub proof fn law_hashed_words(
    strings: StringTable,
    before: DefaultHasher,
    after: DefaultHasher,
    bits: u64,
    p: u64,
)
    requires
        exists|h: &mut DefaultHasher|
            *h == before && *final(h) == after && #[trigger] call_ensures(
                JSValueKey::hash,
                (&JSValueKey(bits), &strings, h),
                (),
            ),
    ensures
        points_to(bits, p) && p >= 0x1000 ==> after@ == before@ + seq![
            vstd::bytes::spec_u32_to_le_bytes(0xFFFF_FFFF),
            vstd::bytes::spec_u32_to_le_bytes(strings@[p].len() as u32),
            if usize::BITS == 64 {
                vstd::bytes::spec_u64_to_le_bytes(strings@[p].len() as u64)
            } else {
                vstd::bytes::spec_u32_to_le_bytes(strings@[p].len() as u32)
            },
            strings@[p],
        ],
        points_to(bits, p) && p < 0x1000 ==> after@ == before@.push(
            vstd::bytes::spec_u64_to_le_bytes(p),
        ),
        (forall|q: u64| !points_to(bits, q)) ==> after@ == before@.push(
            vstd::bytes::spec_u64_to_le_bytes(bits),
        ),
{
    lemma_string_ptr(bits);
    let key = key_of(strings@, bits);
    assert(after@ == before@ + hash_feed(key));
    if points_to(bits, p) && p < 0x1000 {
        assert(after@ =~= before@.push(vstd::bytes::spec_u64_to_le_bytes(p)));
    }
    if forall|q: u64| !points_to(bits, q) {
        assert(after@ =~= before@.push(vstd::bytes::spec_u64_to_le_bytes(bits)));
    }
}

/// A buffer is read and written by words: an entry's key at twice its number and
/// its value behind it.
pub proof fn law_buffer_reads(h: MapHeader, i: u32, key: u64, value: u64, slot: (u64, u64))
    requires
        i < h.size,
        call_ensures(MapHeader::key_at, (&h, i), key),
        call_ensures(MapHeader::value_at, (&h, i), value),
        call_ensures(MapHeader::slot_at, (&h, i), slot),
    ensures
        key == h.entries@[2 * i],
        value == h.entries@[2 * i + 1],
        slot == (key, value),
{
}

/// Setting an entry's value, adding an entry and growing the buffer change the
/// words that they name and no others.
pub proof fn law_buffer_writes(
    before: MapHeader,
    set: MapHeader,
    longer: MapHeader,
    grown: MapHeader,
    i: u32,
    key: u64,
    value: u64,
)
    requires
        before.wf(),
        i < before.size,
        exists|h: &mut MapHeader|
            *h == before && *final(h) == set && #[trigger] call_ensures(
                MapHeader::set_value,
                (h, i, value),
                (),
            ),
        exists|h: &mut MapHeader|
            *h == before && *final(h) == longer && #[trigger] call_ensures(
                MapHeader::append,
                (h, key, value),
                (),
            ),
        exists|h: &mut MapHeader|
            *h == before && *final(h) == grown && #[trigger] call_ensures(
                MapHeader::ensure_capacity,
                (h,),
                (),
            ),
    ensures
        set_words(before, set, key, value, i as int),
        longer.size == before.size + 1,
        key_word(longer, before.size as int) == key,
        value_word(longer, before.size as int) == value,
        forall|j: int| 0 <= j < before.size ==> #[trigger] same_words(longer, before, j),
        grown.size == before.size,
        grown.capacity == (if before.size == before.capacity {
            2 * before.capacity
        } else {
            before.capacity as int
        }),
        longer.capacity == grown.capacity,
        forall|j: int| 0 <= j < before.capacity ==> #[trigger] same_words(grown, before, j),
{
    assert(set.size == set.pairs().len() && before.size == before.pairs().len());
    assert(longer.size == longer.pairs().len());
    assert(set.pairs()[i as int] == (before.pairs()[i as int].0, value));
    assert forall|j: int| 0 <= j < before.capacity && j != i implies #[trigger] same_words(
        set,
        before,
        j,
    ) by {
        assert(set.slot(j) == before.slot(j));
    }
    assert(longer.pairs()[before.size as int] == (key, value));
    assert forall|j: int| 0 <= j < before.size implies #[trigger] same_words(longer, before, j) by {
        assert(longer.pairs()[j] == before.pairs()[j]);
    }
    assert forall|j: int| 0 <= j < before.capacity implies #[trigger] same_words(
        grown,
        before,
        j,
    ) by {
        assert(grown.slot(j) == before.slot(j));
    }
}

/// Removing an entry puts the words of the last entry in its place, and tells
/// the key that moved.
pub proof fn law_buffer_removes(
    before: MapHeader,
    after: MapHeader,
    i: u32,
    moved: Option<u64>,
)
    requires
        before.wf(),
        i < before.size,
        exists|h: &mut MapHeader|
            *h == before && *final(h) == after && #[trigger] call_ensures(
                MapHeader::swap_pop,
                (h, i),
                moved,
            ),
    ensures
        after.size == before.size - 1,
        after.capacity == before.capacity,
        i < after.size ==> moved == Some(key_word(before, before.size - 1)) && key_word(
            after,
            i as int,
        ) == key_word(before, before.size - 1) && value_word(after, i as int) == value_word(
            before,
            before.size - 1,
        ),
        i == after.size ==> moved is None,
        forall|j: int| 0 <= j < before.capacity && j != i ==> #[trigger] same_words(after, before, j),
{
    assert(after.size == after.pairs().len() && before.size == before.pairs().len());
    if i < after.size {
        assert(after.pairs()[i as int] == before.pairs()[before.size - 1]);
    }
    assert forall|j: int| 0 <= j < before.capacity && j != i implies #[trigger] same_words(
        after,
        before,
        j,
    ) by {
        assert(after.slot(j) == before.slot(j));
    }
}

/// Arrays of a map's keys and values, and visits of a map, can be had of every
/// map; arrays of its entries, with an address for each entry; and a map can be
/// made from any array that can be read, at any 48-bit address.
pub proof fn law_conversions_accept(
    heap: Heap,
    map: u64,
    p: u64,
    result: u64,
    addrs: Vec<u64>,
    callback: u64,
    addr: u64,
    arr: u64,
)
    requires
        names(heap, map, p),
        heap.maps()[p].size <= addrs@.len(),
        addrs@.no_duplicates(),
        !addrs@.contains(result),
        0 < addr < 0x1_0000_0000_0000,
        can_be_read(heap, arr),
    ensures
        call_requires(js_map_foreach, (&heap, map, callback)),
        forall|h: &mut Heap|
            *h == heap ==> #[trigger] call_requires(js_map_keys, (h, map, result)),
        forall|h: &mut Heap|
            *h == heap ==> #[trigger] call_requires(js_map_values, (h, map, result)),
        forall|h: &mut Heap|
            *h == heap ==> #[trigger] call_requires(js_map_entries, (h, map, result, &addrs)),
        forall|h: &mut Heap|
            *h == heap ==> #[trigger] call_requires(try_map_from_array, (h, addr, arr)),
{
    lemma_clean_ptr(map);
    lemma_names_pairs(heap, arr);
}

/// Strings and arrays of up to 2^32 - 1 elements can be put at every address.
pub proof fn law_writes_accept(heap: Heap, addr: u64, bytes: Vec<u8>, elements: Vec<u64>)
    requires
        heap.wf(),
        bytes@.len() <= 0xFFFF_FFFF,
        elements@.len() <= 0xFFFF_FFFF,
    ensures
        forall|h: &mut Heap|
            *h == heap ==> #[trigger] call_requires(Heap::write_string, (h, addr, bytes)),
        forall|h: &mut Heap|
            *h == heap ==> #[trigger] call_requires(Heap::write_array, (h, addr, elements)),
        forall|h: &mut Heap| *h == heap ==> #[trigger] call_requires(Heap::free_map, (h, addr)),
{
}

} // verus!
