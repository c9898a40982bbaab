//! The operations of the `Map` object.
//!
//! A map is named by a pointer that may be NaN-boxed. Where the pointer is null
//! an operation does nothing. Map headers and arrays live at addresses that the
//! collector's allocator hands out; the operations that make one take the
//! address as an argument.

use vstd::prelude::*;

use crate::header::{capacity_fits, layout_fits, MapHeader, DEFAULT_CAPACITY};
use crate::heap::{keys_wf, Heap};
use crate::key::{key_of, readable};
use crate::model::{has_key, holds, position, value_of, with, without};
use crate::value::{clean_map_ptr, clean_ptr, normal, normalize_zero, TAG_UNDEFINED};

verus! {

/// `map` is null or names a map of the heap.
pub open spec fn names_map(heap: Heap, map: u64) -> bool {
    clean_ptr(map) == 0 || heap.maps().contains_key(clean_ptr(map))
}

/// The pairs of the map that `map` names.
pub open spec fn pairs_at(heap: Heap, map: u64) -> Seq<(u64, u64)> {
    if clean_ptr(map) == 0 {
        Seq::empty()
    } else {
        heap.maps()[clean_ptr(map)].pairs()
    }
}

/// An address that an allocator can return: not null and free of NaN-box tags.
pub open spec fn is_address(addr: u64) -> bool {
    addr != 0 && clean_ptr(addr) == addr
}

/// Whether `map` is null or names a map of the heap.
pub fn is_map(heap: &Heap, map: u64) -> (r: bool)
    ensures
        r == names_map(*heap, map),
{
    let p: u64 = clean_map_ptr(map);
    p == 0 || heap.header(p).is_some()
}

/// Whether the map that `map` names, if any, can take one more entry.
pub fn has_room(heap: &Heap, map: u64) -> (r: bool)
    requires
        heap.wf(),
        names_map(*heap, map),
    ensures
        r == (clean_ptr(map) == 0 || heap.maps()[clean_ptr(map)].growable()),
{
    let p: u64 = clean_map_ptr(map);
    match heap.header(p) {
        Some(header) => p == 0 || header.size < header.capacity || (header.capacity
            <= 0x7FFF_FFFF && capacity_fits(header.capacity * 2)),
        None => true,
    }
}

/// Whether a map was ever made at `addr`.
pub fn is_registered_map(heap: &Heap, addr: usize) -> (r: bool)
    ensures
        r == heap.registered().contains(addr as u64),
{
    heap.is_registered(addr as u64)
}

/// Drops the index of a map whose address is about to be reused or freed. Safe
/// on any address.
pub fn drop_map_index(heap: &mut Heap, addr: usize)
    requires
        old(heap).wf(),
    ensures
        final(heap).wf(),
        final(heap).strings() == old(heap).strings(),
        final(heap).arrays() == old(heap).arrays(),
        final(heap).maps() == old(heap).maps(),
        final(heap).registered() == old(heap).registered(),
        final(heap).indexed() == old(heap).indexed().remove(addr as u64),
{
    heap.drop_index(addr as u64);
}

/// The capacity that a map asked to have `capacity` gets.
pub open spec fn initial_capacity(capacity: u32) -> u32 {
    if capacity == 0 {
        DEFAULT_CAPACITY
    } else {
        capacity
    }
}

/// Makes a new empty map at `addr`, which the allocator may have recycled from
/// a map that was freed: nothing of an earlier map there, in its buffer or its
/// index, remains.
pub fn js_map_alloc(heap: &mut Heap, addr: u64, capacity: u32) -> (map: u64)
    requires
        old(heap).wf(),
        is_address(addr),
        layout_fits(initial_capacity(capacity) as int),
    ensures
        map == addr,
        final(heap).wf(),
        final(heap).strings() == old(heap).strings(),
        final(heap).arrays() == old(heap).arrays(),
        final(heap).maps() == old(heap).maps().insert(addr, final(heap).maps()[addr]),
        final(heap).maps()[addr].size == 0,
        final(heap).maps()[addr].capacity == initial_capacity(capacity),
        final(heap).maps()[addr].pairs() == Seq::<(u64, u64)>::empty(),
        final(heap).maps()[addr].entries@ == Seq::new(
            (2 * initial_capacity(capacity)) as nat,
            |i: int| 0u64,
        ),
        final(heap).registered() == old(heap).registered().insert(addr),
        final(heap).indexed() == old(heap).indexed().insert(addr),
{
    let cap: u32 = if capacity == 0 {
        DEFAULT_CAPACITY
    } else {
        capacity
    };
    let header = MapHeader::with_capacity(cap);
    assert(header.size == header.pairs().len());
    heap.place_map(addr, header);
    addr
}

/// The number of entries in the map.
pub fn js_map_size(heap: &Heap, map: u64) -> (size: u32)
    requires
        names_map(*heap, map),
    ensures
        size == pairs_at(*heap, map).len(),
{
    let p: u64 = clean_map_ptr(map);
    if p == 0 {
        return 0;
    }
    match heap.header(p) {
        Some(header) => header.size,
        None => 0,
    }
}

/// A lookup of `key` in the map that `map` names reads the string that the key
/// points to.
pub open spec fn lookup_reads(heap: Heap, map: u64, key: u64) -> bool {
    clean_ptr(map) != 0 && heap.reads_key(clean_ptr(map), normal(key))
}

/// Whether a lookup of `key` in the map that `map` names reads the string that
/// the key points to.
pub fn reads_key(heap: &Heap, map: u64, key: u64) -> (r: bool)
    requires
        heap.wf(),
        names_map(*heap, map),
    ensures
        r == lookup_reads(*heap, map, key),
{
    let p: u64 = clean_map_ptr(map);
    p != 0 && heap.lookup_reads(p, normalize_zero(key))
}

/// The entry of `key`, which is normalized, in the map at `p`.
fn find(heap: &Heap, p: u64, key: u64) -> (r: Option<u32>)
    requires
        heap.wf(),
        heap.maps().contains_key(p),
        heap.reads_key(p, key) ==> readable(heap.strings(), key),
        normal(key) == key,
    ensures
        match r {
            Some(i) => has_key(heap.strings(), heap.maps()[p].pairs(), key) && i == position(
                heap.strings(),
                heap.maps()[p].pairs(),
                key,
            ) && i < heap.maps()[p].size,
            None => !has_key(heap.strings(), heap.maps()[p].pairs(), key),
        },
{
    let r = heap.find_key_index(p, key);
    proof {
        let strings = heap.strings();
        let header = heap.maps()[p];
        let pairs = header.pairs();
        assert forall|i: int| 0 <= i < pairs.len() implies pairs[i].0 == #[trigger] header.keys()[i] by {}
        match r {
            Some(i) => {
                assert(holds(strings, pairs, key, i as int));
                let j = position(strings, pairs, key);
                assert(holds(strings, pairs, key, j));
                assert(keys_wf(header.keys(), strings));
                assert(key_of(strings, header.keys()[i as int]) == key_of(strings, header.keys()[j]));
            },
            None => {
                assert forall|i: int| !holds(strings, pairs, key, i) by {
                    if 0 <= i < pairs.len() {
                        assert(pairs[i].0 == header.keys()[i]);
                    }
                }
            },
        }
    }
    r
}

/// Gives `key` the value `value`. A key that is there keeps its place; a new
/// one goes behind the others. Returns the map's address, which never changes.
pub fn js_map_set(heap: &mut Heap, map: u64, key: u64, value: u64) -> (r: u64)
    requires
        old(heap).wf(),
        names_map(*old(heap), map),
        clean_ptr(map) != 0 ==> readable(old(heap).strings(), key),
        clean_ptr(map) != 0 && !has_key(old(heap).strings(), pairs_at(*old(heap), map), normal(key))
            ==> old(heap).maps()[clean_ptr(map)].growable(),
    ensures
        final(heap).wf(),
        r == clean_ptr(map),
        r == 0 ==> *final(heap) == *old(heap),
        r != 0 ==> {
            let was = old(heap).maps()[r];
            let now = final(heap).maps()[r];
            let found = has_key(old(heap).strings(), was.pairs(), normal(key));
            &&& final(heap).same_but_map(*old(heap), r)
            &&& now.pairs() == with(old(heap).strings(), was.pairs(), normal(key), value)
            &&& now.capacity == (if found {
                was.capacity as int
            } else {
                was.grown_capacity()
            })
            &&& now.same_slots_but(
                was,
                if found {
                    position(old(heap).strings(), was.pairs(), normal(key))
                } else {
                    was.size as int
                },
            )
            &&& final(heap).indexed() == (if found {
                old(heap).indexed()
            } else {
                old(heap).indexed().insert(r)
            })
        },
{
    let p: u64 = clean_map_ptr(map);
    if p == 0 {
        return p;
    }
    let key: u64 = normalize_zero(key);
    match find(heap, p, key) {
        Some(i) => {
            heap.set_value(p, i, value);
        },
        None => {
            proof {
                let header = heap.maps()[p];
                assert forall|i: int| 0 <= i < header.size implies key_of(
                    heap.strings(),
                    #[trigger] header.keys()[i],
                ) != key_of(heap.strings(), key) by {
                    assert(!holds(heap.strings(), header.pairs(), key, i));
                    assert(header.pairs()[i].0 == header.keys()[i]);
                }
            }
            heap.append(p, key, value);
        },
    }
    p
}

/// The value of `key`, `undefined` if the map does not have it.
pub fn js_map_get(heap: &Heap, map: u64, key: u64) -> (value: u64)
    requires
        heap.wf(),
        names_map(*heap, map),
        lookup_reads(*heap, map, key) ==> readable(heap.strings(), key),
    ensures
        value == value_of(heap.strings(), pairs_at(*heap, map), normal(key)),
{
    let p: u64 = clean_map_ptr(map);
    if p == 0 {
        return TAG_UNDEFINED;
    }
    let key: u64 = normalize_zero(key);
    match find(heap, p, key) {
        Some(i) => match heap.header(p) {
            Some(header) => header.value_at(i),
            None => TAG_UNDEFINED,
        },
        None => TAG_UNDEFINED,
    }
}

/// 1 if the map has `key`, 0 if not.
pub fn js_map_has(heap: &Heap, map: u64, key: u64) -> (r: i32)
    requires
        heap.wf(),
        names_map(*heap, map),
        lookup_reads(*heap, map, key) ==> readable(heap.strings(), key),
    ensures
        r == (if has_key(heap.strings(), pairs_at(*heap, map), normal(key)) {
            1int
        } else {
            0
        }),
{
    let p: u64 = clean_map_ptr(map);
    if p == 0 {
        return 0;
    }
    let key: u64 = normalize_zero(key);
    if find(heap, p, key).is_some() {
        1
    } else {
        0
    }
}

/// Deletes `key`: 1 if the map had it, 0 if not. The last entry moves into the
/// place of the deleted one.
pub fn js_map_delete(heap: &mut Heap, map: u64, key: u64) -> (r: i32)
    requires
        old(heap).wf(),
        names_map(*old(heap), map),
        lookup_reads(*old(heap), map, key) ==> readable(old(heap).strings(), key),
    ensures
        final(heap).wf(),
        r == (if has_key(old(heap).strings(), pairs_at(*old(heap), map), normal(key)) {
            1int
        } else {
            0
        }),
        r == 0 ==> *final(heap) == *old(heap),
        r == 1 ==> {
            let p = clean_ptr(map);
            let was = old(heap).maps()[p];
            let now = final(heap).maps()[p];
            &&& final(heap).same_but_map(*old(heap), p)
            &&& now.pairs() == without(old(heap).strings(), was.pairs(), normal(key))
            &&& now.capacity == was.capacity
            &&& now.same_slots_but(was, position(old(heap).strings(), was.pairs(), normal(key)))
            &&& final(heap).indexed() == old(heap).indexed()
        },
{
    let p: u64 = clean_map_ptr(map);
    if p == 0 {
        return 0;
    }
    let key: u64 = normalize_zero(key);
    match find(heap, p, key) {
        Some(i) => {
            heap.swap_remove(p, i);
            1
        },
        None => 0,
    }
}

/// Removes all entries. The buffer keeps its room and what was written in it.
pub fn js_map_clear(heap: &mut Heap, map: u64)
    requires
        old(heap).wf(),
        names_map(*old(heap), map),
    ensures
        final(heap).wf(),
        clean_ptr(map) == 0 ==> *final(heap) == *old(heap),
        clean_ptr(map) != 0 ==> {
            let p = clean_ptr(map);
            &&& final(heap).same_but_map(*old(heap), p)
            &&& final(heap).maps()[p].pairs() == Seq::<(u64, u64)>::empty()
            &&& final(heap).maps()[p].capacity == old(heap).maps()[p].capacity
            &&& final(heap).maps()[p].entries@ == old(heap).maps()[p].entries@
            &&& final(heap).indexed() == old(heap).indexed()
        },
{
    let p: u64 = clean_map_ptr(map);
    if p == 0 {
        return ;
    }
    heap.clear_map(p);
}

} // verus!
