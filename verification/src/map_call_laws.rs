//! What calls of the map operations give, on the words of the map's buffer.
//!
//! Entry `i` of a map has its key in word `2 * i` of the buffer and its value
//! in the word after. A call that changes the heap is given by the heap before
//! it and the heap after it.

use vstd::prelude::*;

use crate::header::MapHeader;
use crate::heap::{keys_wf, Heap};
use crate::key::{key_of, readable};
use crate::map::{
    drop_map_index, has_room, is_map, is_registered_map, js_map_alloc, js_map_clear, js_map_delete,
    js_map_get, js_map_has, js_map_set, js_map_size, names_map, reads_key,
};
use crate::model::{has_key, holds, position};
use crate::value::{clean_ptr, normal, string_ptr};
use crate::value_laws::{
    lemma_clean_ptr, lemma_same_key, lemma_string_ptr, names_address, points_to, same_key,
};

verus! {

/// The key word of entry `i`.
pub open spec fn key_word(h: MapHeader, i: int) -> u64 {
    h.entries@[2 * i]
}

/// The value word of entry `i`.
pub open spec fn value_word(h: MapHeader, i: int) -> u64 {
    h.entries@[2 * i + 1]
}

/// The word of the number zero, of either sign.
pub open spec fn zero(bits: u64) -> bool {
    bits == 0 || bits == 0x8000_0000_0000_0000
}

/// The word under which a key is kept: that of `+0` for both zeros, its own for
/// any other.
pub open spec fn kept(key: u64) -> u64 {
    if key == 0x8000_0000_0000_0000 {
        0
    } else {
        key
    }
}

/// Two values are one key of a map: both zero, or the same key.
pub open spec fn one_key(strings: Map<u64, Seq<u8>>, a: u64, b: u64) -> bool {
    (zero(a) && zero(b)) || same_key(strings, a, b)
}

/// `map` names the map at `p`.
pub open spec fn names(heap: Heap, map: u64, p: u64) -> bool {
    heap.wf() && names_address(map, p) && heap.maps().contains_key(p)
}

/// Entry `i` of the map at `p` is that of `key`.
pub open spec fn entry_of(heap: Heap, p: u64, key: u64, i: int) -> bool {
    0 <= i < heap.maps()[p].size && one_key(heap.strings(), key_word(heap.maps()[p], i), key)
}

/// The map at `p` has no entry of `key`.
pub open spec fn no_entry_of(heap: Heap, p: u64, key: u64) -> bool {
    forall|i: int| !entry_of(heap, p, key, i)
}

/// No map is named: null, `undefined` or a boxed null.
pub open spec fn names_nothing(map: u64) -> bool {
    forall|p: u64| !names_address(map, p)
}

/// Nothing but the map at `p` differs between the heaps.
pub open spec fn only_map_changed(before: Heap, after: Heap, p: u64) -> bool {
    &&& after.wf()
    &&& after.strings() == before.strings()
    &&& after.arrays() == before.arrays()
    &&& after.registered() == before.registered()
    &&& after.maps().dom() == before.maps().dom()
    &&& forall|q: u64| q != p && #[trigger] before.maps().contains_key(q) ==> after.maps()[q]
        == before.maps()[q]
    &&& forall|q: u64| q != p ==> #[trigger] after.indexed().contains(q)
        == before.indexed().contains(q)
}

/// The words of entry `i` are the same in both buffers.
pub open spec fn same_words(a: MapHeader, b: MapHeader, i: int) -> bool {
    key_word(a, i) == key_word(b, i) && value_word(a, i) == value_word(b, i)
}

/// Values are one key exactly when their kept words have the same key.
pub proof fn lemma_one_key(strings: Map<u64, Seq<u8>>, a: u64, b: u64)
    ensures
        one_key(strings, a, b) == (key_of(strings, normal(a)) == key_of(strings, normal(b))),
        normal(a) == kept(a),
{
    lemma_same_key(strings, normal(a), normal(b));
    lemma_string_ptr(a);
    lemma_string_ptr(b);
    assert forall|p: u64| #[trigger] points_to(a, p) implies !zero(a) by {}
    assert forall|p: u64| #[trigger] points_to(b, p) implies !zero(b) by {}
    assert(forall|p: u64| !points_to(0, p));
}

/// The entries of a key are where its pair is, and there is at most one.
pub proof fn lemma_entries(heap: Heap, p: u64, key: u64)
    requires
        heap.wf(),
        heap.maps().contains_key(p),
    ensures
        forall|i: int|
            #![trigger entry_of(heap, p, key, i)]
            entry_of(heap, p, key, i) == holds(
                heap.strings(),
                heap.maps()[p].pairs(),
                normal(key),
                i,
            ),
        forall|i: int| #[trigger]
            entry_of(heap, p, key, i) ==> has_key(
                heap.strings(),
                heap.maps()[p].pairs(),
                normal(key),
            ) && position(heap.strings(), heap.maps()[p].pairs(), normal(key)) == i,
        no_entry_of(heap, p, key) == !has_key(
            heap.strings(),
            heap.maps()[p].pairs(),
            normal(key),
        ),
{
    let strings = heap.strings();
    let h = heap.maps()[p];
    assert(keys_wf(h.keys(), strings));
    assert forall|i: int| #[trigger] entry_of(heap, p, key, i) == holds(
        strings,
        h.pairs(),
        normal(key),
        i,
    ) by {
        if 0 <= i < h.size {
            assert(normal(h.keys()[i]) == h.keys()[i]);
            assert(h.pairs()[i].0 == key_word(h, i));
            lemma_one_key(strings, key_word(h, i), key);
        }
    }
    assert forall|i: int| #[trigger] entry_of(heap, p, key, i) implies has_key(
        strings,
        h.pairs(),
        normal(key),
    ) && position(strings, h.pairs(), normal(key)) == i by {
        assert(holds(strings, h.pairs(), normal(key), i));
        let j = position(strings, h.pairs(), normal(key));
        assert(holds(strings, h.pairs(), normal(key), j));
        assert(h.pairs()[i].0 == h.keys()[i] && h.pairs()[j].0 == h.keys()[j]);
    }
    if has_key(strings, h.pairs(), normal(key)) {
        let j = position(strings, h.pairs(), normal(key));
        assert(holds(strings, h.pairs(), normal(key), j));
        assert(entry_of(heap, p, key, j));
    } else {
        assert forall|i: int| !entry_of(heap, p, key, i) by {
            assert(!holds(strings, h.pairs(), normal(key), i));
        }
    }
}

/// A pointer that names a map leads to it; one that names nothing to none.
proof fn lemma_names(heap: Heap, map: u64)
    ensures
        forall|p: u64| names_address(map, p) ==> clean_ptr(map) == p,
        names_nothing(map) ==> clean_ptr(map) == 0,
        forall|p: u64| names(heap, map, p) ==> names_map(heap, map),
{
    lemma_clean_ptr(map);
}

/// A lookup gives the value word of the key's entry, through the raw pointer or
/// any boxed one, and `undefined` when there is no entry; `has` tells which.
pub proof fn law_lookup(heap: Heap, map: u64, p: u64, key: u64, i: int, value: u64, found: i32)
    requires
        names(heap, map, p),
        call_ensures(js_map_get, (&heap, map, key), value),
        call_ensures(js_map_has, (&heap, map, key), found),
    ensures
        entry_of(heap, p, key, i) ==> value == value_word(heap.maps()[p], i) && found == 1,
        no_entry_of(heap, p, key) ==> value == 0x7FFC_0000_0000_0001 && found == 0,
        found == 0 || found == 1,
        found == 0 ==> no_entry_of(heap, p, key),
{
    lemma_names(heap, map);
    lemma_entries(heap, p, key);
}

/// A pointer that names nothing has no entries.
pub proof fn law_null_map_is_empty(
    heap: Heap,
    map: u64,
    key: u64,
    value: u64,
    found: i32,
    size: u32,
    known: bool,
)
    requires
        names_nothing(map),
        call_ensures(js_map_get, (&heap, map, key), value),
        call_ensures(js_map_has, (&heap, map, key), found),
        call_ensures(js_map_size, (&heap, map), size),
        call_ensures(is_map, (&heap, map), known),
    ensures
        value == 0x7FFC_0000_0000_0001,
        found == 0,
        size == 0,
        known,
{
    lemma_names(heap, map);
    assert forall|i: int| !holds(heap.strings(), Seq::empty(), normal(key), i) by {}
}

/// Operations on a pointer that names nothing change nothing.
pub proof fn law_null_map_is_unchanged(
    before: Heap,
    after_set: Heap,
    after_delete: Heap,
    after_clear: Heap,
    map: u64,
    key: u64,
    value: u64,
    r: u64,
    gone: i32,
)
    requires
        names_nothing(map),
        exists|h: &mut Heap|
            *h == before && *final(h) == after_set && #[trigger] call_ensures(
                js_map_set,
                (h, map, key, value),
                r,
            ),
        exists|h: &mut Heap|
            *h == before && *final(h) == after_delete && #[trigger] call_ensures(
                js_map_delete,
                (h, map, key),
                gone,
            ),
        exists|h: &mut Heap|
            *h == before && *final(h) == after_clear && #[trigger] call_ensures(
                js_map_clear,
                (h, map),
                (),
            ),
    ensures
        after_set == before,
        after_delete == before,
        after_clear == before,
        r == 0,
        gone == 0,
{
    lemma_names(before, map);
    assert forall|i: int| !holds(before.strings(), Seq::empty(), normal(key), i) by {}
}

/// The size of a map is that of its header; a pointer is known when a map is at
/// the address it names.
pub proof fn law_size(heap: Heap, map: u64, p: u64, size: u32, known: bool)
    requires
        names_address(map, p),
        call_ensures(js_map_size, (&heap, map), size),
        call_ensures(is_map, (&heap, map), known),
    ensures
        known == heap.maps().contains_key(p),
        known ==> size == heap.maps()[p].size,
{
    lemma_names(heap, map);
}

/// What a set leaves of the map `was`: with an entry `i` of the key, that
/// entry's value word alone is new; without one, a new entry stands behind the
/// others, in a buffer that was doubled if it was full.
pub open spec fn set_words(was: MapHeader, now: MapHeader, key: u64, value: u64, i: int) -> bool {
    if 0 <= i < was.size {
        &&& now.size == was.size
        &&& now.capacity == was.capacity
        &&& key_word(now, i) == key_word(was, i)
        &&& value_word(now, i) == value
        &&& forall|j: int| 0 <= j < was.capacity && j != i ==> #[trigger] same_words(now, was, j)
    } else {
        &&& now.size == was.size + 1
        &&& now.capacity == (if was.size == was.capacity {
            2 * was.capacity
        } else {
            was.capacity as int
        })
        &&& key_word(now, was.size as int) == kept(key)
        &&& value_word(now, was.size as int) == value
        &&& forall|j: int|
            0 <= j < was.capacity && j != was.size ==> #[trigger] same_words(now, was, j)
    }
}

/// A set gives the key's entry the value, in place, or adds an entry behind the
/// others; nothing else changes, and the map stays where it is.
pub proof fn law_set(
    before: Heap,
    after: Heap,
    map: u64,
    p: u64,
    key: u64,
    value: u64,
    r: u64,
    i: int,
)
    requires
        names(before, map, p),
        exists|h: &mut Heap|
            *h == before && *final(h) == after && #[trigger] call_ensures(
                js_map_set,
                (h, map, key, value),
                r,
            ),
    ensures
        r == p,
        only_map_changed(before, after, p),
        entry_of(before, p, key, i) ==> set_words(
            before.maps()[p],
            after.maps()[p],
            key,
            value,
            i,
        ) && after.indexed() == before.indexed(),
        no_entry_of(before, p, key) ==> set_words(
            before.maps()[p],
            after.maps()[p],
            key,
            value,
            -1,
        ) && after.indexed() == before.indexed().insert(p),
{
    lemma_names(before, map);
    lemma_entries(before, p, key);
    lemma_one_key(before.strings(), key, key);
    let was = before.maps()[p];
    let now = after.maps()[p];
    lemma_same_but_map(before, after, p);
    assert(was.wf() && now.wf());
    assert(now.size == now.pairs().len() && was.size == was.pairs().len());
    assert forall|j: int| 0 <= j < was.capacity && now.slot(j) == was.slot(j) implies
        #[trigger] same_words(now, was, j) by {}
    if entry_of(before, p, key, i) {
        assert(now.pairs()[i] == (was.pairs()[i].0, value));
        assert forall|j: int| 0 <= j < was.capacity && j != i implies #[trigger] same_words(
            now,
            was,
            j,
        ) by {
            assert(now.slot(j) == was.slot(j));
        }
    }
    if no_entry_of(before, p, key) {
        assert(now.pairs()[was.size as int] == (normal(key), value));
        assert forall|j: int| 0 <= j < was.capacity && j != was.size implies #[trigger] same_words(
            now,
            was,
            j,
        ) by {
            assert(now.slot(j) == was.slot(j));
        }
    }
}

/// Heaps that are the same but for one map differ in nothing else.
proof fn lemma_same_but_map(before: Heap, after: Heap, p: u64)
    requires
        after.wf(),
        after.same_but_map(before, p),
        before.maps().contains_key(p),
    ensures
        only_map_changed(before, after, p),
{
    assert forall|q: u64| #[trigger] after.maps().contains_key(q) == before.maps().contains_key(q) by {
        if q != p {
            assert(after.maps().remove(p).contains_key(q) == before.maps().remove(p).contains_key(q));
        }
    }
    assert(after.maps().dom() =~= before.maps().dom());
    assert forall|q: u64| q != p && #[trigger] before.maps().contains_key(q) implies after.maps()[q]
        == before.maps()[q] by {
        assert(after.maps().remove(p)[q] == before.maps().remove(p)[q]);
    }
    assert forall|q: u64| q != p implies #[trigger] after.indexed().contains(q)
        == before.indexed().contains(q) by {
        assert(after.indexed().remove(p).contains(q) == before.indexed().remove(p).contains(q));
    }
}

/// A delete removes the key's entry, whose place the last entry takes, and tells
/// so; without an entry it changes nothing.
pub proof fn law_delete(
    before: Heap,
    after: Heap,
    map: u64,
    p: u64,
    key: u64,
    r: i32,
    i: int,
)
    requires
        names(before, map, p),
        exists|h: &mut Heap|
            *h == before && *final(h) == after && #[trigger] call_ensures(
                js_map_delete,
                (h, map, key),
                r,
            ),
    ensures
        no_entry_of(before, p, key) ==> r == 0 && after == before,
        entry_of(before, p, key, i) ==> {
            let was = before.maps()[p];
            let now = after.maps()[p];
            &&& r == 1
            &&& only_map_changed(before, after, p)
            &&& after.indexed() == before.indexed()
            &&& now.size == was.size - 1
            &&& now.capacity == was.capacity
            &&& i < now.size ==> key_word(now, i) == key_word(was, was.size - 1) && value_word(
                now,
                i,
            ) == value_word(was, was.size - 1)
            &&& forall|j: int|
                0 <= j < was.capacity && j != i ==> #[trigger] same_words(now, was, j)
        },
{
    lemma_names(before, map);
    lemma_entries(before, p, key);
    if entry_of(before, p, key, i) {
        let was = before.maps()[p];
        let now = after.maps()[p];
        lemma_same_but_map(before, after, p);
        assert(was.wf() && now.wf());
        assert(now.size == now.pairs().len() && was.size == was.pairs().len());
        if i < now.size {
            assert(now.pairs()[i] == was.pairs()[was.size - 1]);
        }
        assert forall|j: int| 0 <= j < was.capacity && j != i implies #[trigger] same_words(
            now,
            was,
            j,
        ) by {
            assert(now.slot(j) == was.slot(j));
        }
    }
}

/// A clear leaves no entry and touches no word of the buffer.
pub proof fn law_clear(before: Heap, after: Heap, map: u64, p: u64, key: u64)
    requires
        names(before, map, p),
        exists|h: &mut Heap|
            *h == before && *final(h) == after && #[trigger] call_ensures(
                js_map_clear,
                (h, map),
                (),
            ),
    ensures
        only_map_changed(before, after, p),
        after.indexed() == before.indexed(),
        after.maps()[p].size == 0,
        after.maps()[p].capacity == before.maps()[p].capacity,
        after.maps()[p].entries@ == before.maps()[p].entries@,
        no_entry_of(after, p, key),
{
    lemma_names(before, map);
    lemma_same_but_map(before, after, p);
    assert(after.maps()[p].size == after.maps()[p].pairs().len());
}

/// A new map is registered, empty and zeroed, whatever was at its address, with
/// room for what was asked for, or for four entries when nothing was; no other
/// map is touched.
pub proof fn law_alloc(before: Heap, after: Heap, addr: u64, capacity: u32, r: u64, key: u64)
    requires
        exists|h: &mut Heap|
            *h == before && *final(h) == after && #[trigger] call_ensures(
                js_map_alloc,
                (h, addr, capacity),
                r,
            ),
    ensures
        r == addr,
        after.wf(),
        after.maps().contains_key(addr),
        after.maps()[addr].size == 0,
        after.maps()[addr].capacity == (if capacity == 0 {
            4
        } else {
            capacity
        }),
        after.maps()[addr].entries@.len() == 2 * after.maps()[addr].capacity,
        forall|w: int|
            0 <= w < after.maps()[addr].entries@.len() ==> after.maps()[addr].entries@[w] == 0,
        no_entry_of(after, addr, key),
        after.strings() == before.strings(),
        after.arrays() == before.arrays(),
        forall|q: u64|
            q != addr ==> #[trigger] after.maps().contains_key(q) == before.maps().contains_key(q)
                && (before.maps().contains_key(q) ==> after.maps()[q] == before.maps()[q]),
        after.registered() == before.registered().insert(addr),
        after.indexed() == before.indexed().insert(addr),
{
}

/// Every address within 48 bits can take a map that fits into memory, of any
/// capacity.
pub proof fn law_alloc_accepts(addr: u64, capacity: u32)
    requires
        0 < addr < 0x1_0000_0000_0000,
        16 * capacity <= isize::MAX,
    ensures
        forall|h: &mut Heap|
            h.wf() ==> #[trigger] call_requires(js_map_alloc, (h, addr, capacity)),
{
}

/// Lookups, sets and deletes are open to every map and every key whose string,
/// if it points to one, exists; a set of a new key needs room for one more.
pub proof fn law_operations_accept(heap: Heap, map: u64, p: u64, key: u64, value: u64)
    requires
        names(heap, map, p),
        forall|s: u64| points_to(key, s) && s >= 0x1000 ==> heap.strings().contains_key(s),
    ensures
        call_requires(js_map_get, (&heap, map, key)),
        call_requires(js_map_has, (&heap, map, key)),
        call_requires(js_map_size, (&heap, map)),
        forall|h: &mut Heap|
            *h == heap ==> #[trigger] call_requires(js_map_delete, (h, map, key)),
        forall|h: &mut Heap| *h == heap ==> #[trigger] call_requires(js_map_clear, (h, map)),
        !no_entry_of(heap, p, key) || heap.maps()[p].size < heap.maps()[p].capacity || (2
            * heap.maps()[p].capacity <= u32::MAX && 32 * heap.maps()[p].capacity <= isize::MAX)
            ==> (forall|h: &mut Heap|
            *h == heap ==> #[trigger] call_requires(js_map_set, (h, map, key, value))),
{
    lemma_names(heap, map);
    lemma_string_ptr(key);
    lemma_entries(heap, p, key);
    assert(readable(heap.strings(), key));
    assert(readable(heap.strings(), normal(key)));
}

/// The registry tells at which addresses maps were made.
pub proof fn law_registry(heap: Heap, addr: usize, r: bool)
    requires
        call_ensures(is_registered_map, (&heap, addr), r),
    ensures
        r == heap.registered().contains(addr as u64),
        heap.wf() && heap.maps().contains_key(addr as u64) ==> r,
{
}

/// Dropping an index, of whatever address, takes no map and no entry away.
pub proof fn law_drop_index(before: Heap, after: Heap, addr: usize)
    requires
        exists|h: &mut Heap|
            *h == before && *final(h) == after && #[trigger] call_ensures(
                drop_map_index,
                (h, addr),
                (),
            ),
    ensures
        after.wf(),
        after.strings() == before.strings(),
        after.arrays() == before.arrays(),
        after.maps() == before.maps(),
        after.registered() == before.registered(),
        !after.indexed().contains(addr as u64),
        forall|q: u64|
            q != addr ==> #[trigger] after.indexed().contains(q) == before.indexed().contains(q),
{
}

/// Sameness of keys is an equivalence.
pub proof fn law_one_key_is_an_equivalence(strings: Map<u64, Seq<u8>>, a: u64, b: u64, c: u64)
    ensures
        one_key(strings, a, a),
        one_key(strings, a, b) == one_key(strings, b, a),
        one_key(strings, a, b) && one_key(strings, b, c) ==> one_key(strings, a, c),
{
    lemma_one_key(strings, a, b);
    lemma_one_key(strings, b, a);
    lemma_one_key(strings, b, c);
    lemma_one_key(strings, a, c);
}

/// What a lookup of `key` in the map at `p` has to give.
pub open spec fn looks_up(heap: Heap, p: u64, key: u64, value: u64, found: i32) -> bool {
    ||| exists|i: int| #[trigger]
        entry_of(heap, p, key, i) && value == value_word(heap.maps()[p], i) && found == 1
    ||| no_entry_of(heap, p, key) && value == 0x7FFC_0000_0000_0001 && found == 0
}

/// A lookup finds the one entry of the key, or nothing.
proof fn lemma_looks_up(heap: Heap, map: u64, p: u64, key: u64, value: u64, found: i32)
    requires
        names(heap, map, p),
        call_ensures(js_map_get, (&heap, map, key), value),
        call_ensures(js_map_has, (&heap, map, key), found),
    ensures
        looks_up(heap, p, key, value, found),
{
    law_lookup(heap, map, p, key, 0, value, found);
    if !no_entry_of(heap, p, key) {
        let i = choose|i: int| entry_of(heap, p, key, i);
        law_lookup(heap, map, p, key, i, value, found);
    }
}

/// A read gives back the write: after a set, a lookup of any value that is the
/// same key, through any pointer to the map, gives the value; a lookup of any
/// other key gives what it gave before.
pub proof fn law_get_gives_back_set(
    before: Heap,
    after: Heap,
    map: u64,
    via: u64,
    p: u64,
    key: u64,
    value: u64,
    r: u64,
    other: u64,
    was: (u64, i32),
    now: (u64, i32),
)
    requires
        names(before, map, p),
        names_address(via, p),
        exists|h: &mut Heap|
            *h == before && *final(h) == after && #[trigger] call_ensures(
                js_map_set,
                (h, map, key, value),
                r,
            ),
        call_ensures(js_map_get, (&before, map, other), was.0),
        call_ensures(js_map_has, (&before, map, other), was.1),
        call_ensures(js_map_get, (&after, via, other), now.0),
        call_ensures(js_map_has, (&after, via, other), now.1),
    ensures
        one_key(before.strings(), key, other) ==> now == (value, 1i32),
        !one_key(before.strings(), key, other) ==> now == was,
{
    let strings = before.strings();
    let old_map = before.maps()[p];
    let new_map = after.maps()[p];
    law_set(before, after, map, p, key, value, r, 0);
    lemma_looks_up(before, map, p, other, was.0, was.1);
    lemma_looks_up(after, via, p, other, now.0, now.1);
    let at = if no_entry_of(before, p, key) {
        old_map.size as int
    } else {
        choose|i: int| entry_of(before, p, key, i)
    };
    law_set(before, after, map, p, key, value, r, at);
    assert(old_map.wf());
    lemma_one_key(strings, key_word(new_map, at), key);
    assert(one_key(strings, key_word(new_map, at), key));
    assert(entry_of(after, p, key, at));
    lemma_one_key(strings, key_word(new_map, at), other);
    lemma_one_key(strings, key, other);
    lemma_entries(after, p, other);
    lemma_entries(before, p, other);
    if one_key(strings, key, other) {
        assert(entry_of(after, p, other, at));
        law_lookup(after, via, p, other, at, now.0, now.1);
    } else {
        assert(!entry_of(after, p, other, at));
        assert forall|i: int| i != at implies #[trigger] entry_of(after, p, other, i) == entry_of(
            before,
            p,
            other,
            i,
        ) by {
            if 0 <= i < old_map.size {
                assert(same_words(new_map, old_map, i));
            }
        }
        assert(!entry_of(before, p, other, at)) by {
            if 0 <= at < old_map.size {
                assert(key_word(new_map, at) == key_word(old_map, at));
            }
        }
        if no_entry_of(before, p, other) {
            assert(no_entry_of(after, p, other));
            law_lookup(after, via, p, other, 0, now.0, now.1);
            law_lookup(before, map, p, other, 0, was.0, was.1);
        } else {
            let i = choose|i: int| entry_of(before, p, other, i);
            assert(i != at);
            assert(entry_of(after, p, other, i));
            assert(same_words(new_map, old_map, i));
            law_lookup(after, via, p, other, i, now.0, now.1);
            law_lookup(before, map, p, other, i, was.0, was.1);
        }
    }
}

/// After a delete the key is gone, and a lookup of any other key gives what it
/// gave before.
pub proof fn law_get_after_delete_call(
    before: Heap,
    after: Heap,
    map: u64,
    via: u64,
    p: u64,
    key: u64,
    r: i32,
    other: u64,
    was: (u64, i32),
    now: (u64, i32),
)
    requires
        names(before, map, p),
        names_address(via, p),
        exists|h: &mut Heap|
            *h == before && *final(h) == after && #[trigger] call_ensures(
                js_map_delete,
                (h, map, key),
                r,
            ),
        call_ensures(js_map_get, (&before, map, other), was.0),
        call_ensures(js_map_has, (&before, map, other), was.1),
        call_ensures(js_map_get, (&after, via, other), now.0),
        call_ensures(js_map_has, (&after, via, other), now.1),
    ensures
        one_key(before.strings(), key, other) ==> now == (0x7FFC_0000_0000_0001u64, 0i32) && r
            == was.1,
        !one_key(before.strings(), key, other) ==> now == was,
{
    let strings = before.strings();
    lemma_looks_up(before, map, p, other, was.0, was.1);
    lemma_entries(before, p, key);
    lemma_entries(before, p, other);
    assert forall|i: int| one_key(strings, key, other) implies #[trigger] entry_of(
        before,
        p,
        other,
        i,
    ) == entry_of(before, p, key, i) by {
        lemma_one_key(strings, key, other);
        lemma_one_key(strings, key_word(before.maps()[p], i), key);
        lemma_one_key(strings, key_word(before.maps()[p], i), other);
    }
    if no_entry_of(before, p, key) {
        law_delete(before, after, map, p, key, r, 0);
        lemma_looks_up(after, via, p, other, now.0, now.1);
        if no_entry_of(before, p, other) {
            law_lookup(after, via, p, other, 0, now.0, now.1);
        } else {
            let i = choose|i: int| entry_of(before, p, other, i);
            assert(!entry_of(before, p, key, i));
            law_lookup(before, map, p, other, i, was.0, was.1);
            law_lookup(after, via, p, other, i, now.0, now.1);
        }
    } else {
        let at = choose|i: int| entry_of(before, p, key, i);
        law_delete(before, after, map, p, key, r, at);
        lemma_looks_up(after, via, p, other, now.0, now.1);
        let a = before.maps()[p];
        let b = after.maps()[p];
        assert(a.wf() && b.wf());
        let last = a.size - 1;
        assert forall|i: int| #[trigger] entry_of(after, p, other, i) implies entry_of(
            before,
            p,
            other,
            if i == at {
                last
            } else {
                i
            },
        ) && !one_key(strings, key, other) by {
            let j = if i == at { last } else { i };
            if i != at {
                assert(same_words(b, a, i));
            }
            assert(same_words_at(b, i, a, j));
            assert(entry_of(before, p, other, j));
            if one_key(strings, key, other) {
                assert(entry_of(before, p, key, j));
                assert(j == at);
            }
        }
        if one_key(strings, key, other) {
            assert(no_entry_of(after, p, other));
            law_lookup(after, via, p, other, 0, now.0, now.1);
            assert(entry_of(before, p, other, at));
            law_lookup(before, map, p, other, at, was.0, was.1);
        } else if no_entry_of(before, p, other) {
            assert(no_entry_of(after, p, other));
            law_lookup(after, via, p, other, 0, now.0, now.1);
        } else {
            let i = choose|i: int| entry_of(before, p, other, i);
            lemma_one_key(strings, key, other);
            lemma_one_key(strings, key_word(a, i), key);
            lemma_one_key(strings, key_word(a, i), other);
            assert(i != at);
            let j = if i == last { at } else { i };
            if j != at {
                assert(same_words(b, a, j));
            }
            assert(same_words_at(b, j, a, i));
            assert(entry_of(after, p, other, j));
            law_lookup(before, map, p, other, i, was.0, was.1);
            law_lookup(after, via, p, other, j, now.0, now.1);
        }
    }
}

/// Entry `i` of `a` has the words of entry `j` of `b`.
spec fn same_words_at(a: MapHeader, i: int, b: MapHeader, j: int) -> bool {
    key_word(a, i) == key_word(b, j) && value_word(a, i) == value_word(b, j)
}

/// A map has room when its buffer does, or when a buffer of twice the entries
/// fits its 32-bit field and into memory.
pub proof fn law_room(heap: Heap, map: u64, p: u64, r: bool)
    requires
        names(heap, map, p),
        call_ensures(has_room, (&heap, map), r),
    ensures
        r == (heap.maps()[p].size < heap.maps()[p].capacity || (2 * heap.maps()[p].capacity
            <= u32::MAX && 32 * heap.maps()[p].capacity <= isize::MAX)),
{
    lemma_names(heap, map);
}

/// The string of a key is read when the map has more than eight entries and an
/// index, or another key that points to a string; never for a key that points to
/// none.
pub proof fn law_lookups_that_read(heap: Heap, map: u64, p: u64, key: u64, r: bool, s: u64)
    requires
        names(heap, map, p),
        call_ensures(reads_key, (&heap, map, key), r),
    ensures
        (forall|q: u64| points_to(key, q) ==> q < 0x1000) ==> !r,
        points_to(key, s) && s >= 0x1000 ==> r == ((heap.maps()[p].size > 8
            && heap.indexed().contains(p)) || exists|i: int, q: u64|
            0 <= i < heap.maps()[p].size && #[trigger] key_word(heap.maps()[p], i) != key
                && #[trigger] points_to(key_word(heap.maps()[p], i), q) && q >= 0x1000),
{
    lemma_names(heap, map);
    lemma_string_ptr(key);
    let h = heap.maps()[p];
    if points_to(key, s) && s >= 0x1000 {
        assert(normal(key) == key);
        if heap.reads_key(p, key) && !heap.uses_index(p) {
            let i = choose|i: int|
                0 <= i < h.size && #[trigger] h.keys()[i] != key && string_ptr(
                    h.keys()[i],
                ) >= 0x1000;
            lemma_string_ptr(h.keys()[i]);
            assert(key_word(h, i) == h.keys()[i]);
            assert(points_to(key_word(h, i), string_ptr(h.keys()[i])));
        }
        assert forall|i: int, q: u64|
            0 <= i < h.size && #[trigger] key_word(h, i) != key && #[trigger] points_to(
                key_word(h, i),
                q,
            ) && q >= 0x1000 implies r by {
            lemma_string_ptr(key_word(h, i));
            assert(h.keys()[i] == key_word(h, i));
        }
    }
}

} // verus!
