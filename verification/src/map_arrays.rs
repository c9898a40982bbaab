//! From maps to arrays and back.
//!
//! An array of pairs holds, for each pair, the boxed pointer of an array of a
//! key and a value.

use vstd::prelude::*;

use crate::header::{layout_fits, MapHeader, DEFAULT_CAPACITY};
use crate::heap::Heap;
use crate::key::readable;
use crate::map::{
    has_room, is_address, js_map_alloc, js_map_has, js_map_set, names_map, pairs_at,
};
use crate::model::{has_key, inner_array, pair_in, pairs_in, with_all};
use crate::value::{
    boxed_pointer, clean_map_ptr, clean_ptr, nanbox_pointer, normal, payload_of, tag_of, ARRAY_TAG,
    POINTER_TAG, RAW_POINTER_FLOOR, STRING_TAG,
};

verus! {

/// Writes the keys of the map, in entry order, as an array at `result`.
pub fn js_map_keys(heap: &mut Heap, map: u64, result: u64) -> (r: u64)
    requires
        old(heap).wf(),
        names_map(*old(heap), map),
    ensures
        r == result,
        final(heap).wf(),
        final(heap).strings() == old(heap).strings(),
        final(heap).arrays() == old(heap).arrays().insert(
            result,
            pairs_at(*old(heap), map).map_values(|pair: (u64, u64)| pair.0),
        ),
        final(heap).maps() == old(heap).maps(),
        final(heap).registered() == old(heap).registered(),
        final(heap).indexed() == old(heap).indexed(),
{
    let p: u64 = clean_map_ptr(map);
    let mut keys: Vec<u64> = Vec::new();
    let ghost pairs = pairs_at(*heap, map);
    if p != 0 {
        if let Some(header) = heap.header(p) {
            let mut i: u32 = 0;
            while i < header.size
                invariant
                    header.wf(),
                    pairs == header.pairs(),
                    i <= header.size,
                    keys@ == pairs.take(i as int).map_values(|pair: (u64, u64)| pair.0),
                decreases header.size - i,
            {
                keys.push(header.key_at(i));
                i = i + 1;
                assert(keys@ =~= pairs.take(i as int).map_values(|pair: (u64, u64)| pair.0));
            }
        }
    }
    assert(pairs.take(pairs.len() as int) =~= pairs);
    assert(keys@ =~= pairs.map_values(|pair: (u64, u64)| pair.0));
    heap.write_array(result, keys);
    result
}

/// Writes the values of the map, in entry order, as an array at `result`.
pub fn js_map_values(heap: &mut Heap, map: u64, result: u64) -> (r: u64)
    requires
        old(heap).wf(),
        names_map(*old(heap), map),
    ensures
        r == result,
        final(heap).wf(),
        final(heap).strings() == old(heap).strings(),
        final(heap).arrays() == old(heap).arrays().insert(
            result,
            pairs_at(*old(heap), map).map_values(|pair: (u64, u64)| pair.1),
        ),
        final(heap).maps() == old(heap).maps(),
        final(heap).registered() == old(heap).registered(),
        final(heap).indexed() == old(heap).indexed(),
{
    let p: u64 = clean_map_ptr(map);
    let mut values: Vec<u64> = Vec::new();
    let ghost pairs = pairs_at(*heap, map);
    if p != 0 {
        if let Some(header) = heap.header(p) {
            let mut i: u32 = 0;
            while i < header.size
                invariant
                    header.wf(),
                    pairs == header.pairs(),
                    i <= header.size,
                    values@ == pairs.take(i as int).map_values(|pair: (u64, u64)| pair.1),
                decreases header.size - i,
            {
                values.push(header.value_at(i));
                i = i + 1;
                assert(values@ =~= pairs.take(i as int).map_values(|pair: (u64, u64)| pair.1));
            }
        }
    }
    assert(pairs.take(pairs.len() as int) =~= pairs);
    assert(values@ =~= pairs.map_values(|pair: (u64, u64)| pair.1));
    heap.write_array(result, values);
    result
}

/// The arrays of a heap after pair `i` was written as an array at `addrs[i]`,
/// for each `i`, and the boxed pointers to them as an array at `result`.
pub open spec fn with_pair_arrays(
    arrays: Map<u64, Seq<u64>>,
    pairs: Seq<(u64, u64)>,
    addrs: Seq<u64>,
    result: u64,
) -> Map<u64, Seq<u64>> {
    let used = addrs.take(pairs.len() as int);
    Map::new(
        |a: u64| a == result || used.contains(a) || arrays.contains_key(a),
        |a: u64|
            if a == result {
                Seq::new(pairs.len(), |i: int| boxed_pointer(addrs[i]))
            } else if used.contains(a) {
                let pair = pairs[used.index_of(a)];
                seq![pair.0, pair.1]
            } else {
                arrays[a]
            },
    )
}

/// Writes the entries of the map as an array of pairs at `result`; the array of
/// entry `i` goes to `addrs[i]`.
pub fn js_map_entries(heap: &mut Heap, map: u64, result: u64, addrs: &Vec<u64>) -> (r: u64)
    requires
        old(heap).wf(),
        names_map(*old(heap), map),
        pairs_at(*old(heap), map).len() <= addrs@.len(),
        addrs@.no_duplicates(),
        !addrs@.contains(result),
    ensures
        r == result,
        final(heap).wf(),
        final(heap).strings() == old(heap).strings(),
        final(heap).arrays() == with_pair_arrays(
            old(heap).arrays(),
            pairs_at(*old(heap), map),
            addrs@,
            result,
        ),
        final(heap).maps() == old(heap).maps(),
        final(heap).registered() == old(heap).registered(),
        final(heap).indexed() == old(heap).indexed(),
{
    let p: u64 = clean_map_ptr(map);
    let ghost pairs = pairs_at(*heap, map);
    let ghost before = heap.arrays();
    let size: u32 = match heap.header(p) {
        Some(header) => if p == 0 {
            0
        } else {
            header.size
        },
        None => 0,
    };
    assert(size == pairs.len());
    let mut boxes: Vec<u64> = Vec::new();
    let mut i: u32 = 0;
    while i < size
        invariant
            i <= size,
            size == pairs.len(),
            p != 0 || size == 0,
            p == clean_ptr(map),
            pairs.len() <= addrs@.len(),
            addrs@.no_duplicates(),
            !addrs@.contains(result),
            heap.wf(),
            heap.strings() == old(heap).strings(),
            heap.maps() == old(heap).maps(),
            heap.registered() == old(heap).registered(),
            heap.indexed() == old(heap).indexed(),
            names_map(*heap, map),
            pairs == pairs_at(*heap, map),
            boxes@ == Seq::new(i as nat, |n: int| boxed_pointer(addrs@[n])),
            forall|n: int|
                0 <= n < i ==> heap.arrays().contains_key(#[trigger] addrs@[n])
                    && heap.arrays()[addrs@[n]] == seq![pairs[n].0, pairs[n].1],
            forall|a: u64|
                #![trigger heap.arrays().contains_key(a)]
                #![trigger heap.arrays()[a]]
                !addrs@.take(i as int).contains(a) ==> (heap.arrays().contains_key(a)
                    == before.contains_key(a)) && heap.arrays()[a] == before[a],
        decreases size - i,
    {
        let ghost mid = heap.arrays();
        let mut pair: Vec<u64> = Vec::new();
        if let Some(header) = heap.header(p) {
            pair.push(header.key_at(i));
            pair.push(header.value_at(i));
        }
        assert(pair@ =~= seq![pairs[i as int].0, pairs[i as int].1]);
        let at: u64 = addrs[i as usize];
        heap.write_array(at, pair);
        boxes.push(nanbox_pointer(at));
        proof {
            let done = addrs@.take(i as int);
            assert(addrs@.take(i + 1) =~= done.push(at));
            assert(boxes@ =~= Seq::new((i + 1) as nat, |n: int| boxed_pointer(addrs@[n])));
            assert forall|n: int| 0 <= n < i + 1 implies heap.arrays().contains_key(
                #[trigger] addrs@[n],
            ) && heap.arrays()[addrs@[n]] == seq![pairs[n].0, pairs[n].1] by {
                if n < i {
                    assert(addrs@[n] != addrs@[i as int]);
                }
            }
            assert forall|a: u64|
                #![trigger heap.arrays().contains_key(a)]
                #![trigger heap.arrays()[a]]
                !addrs@.take(i + 1).contains(a) implies (heap.arrays().contains_key(a)
                == before.contains_key(a)) && heap.arrays()[a] == before[a] by {
                assert(addrs@.take(i + 1)[i as int] == at);
                if done.contains(a) {
                    let n = choose|n: int| 0 <= n < done.len() && done[n] == a;
                    assert(addrs@.take(i + 1)[n] == a);
                }
                assert(mid.contains_key(a) == before.contains_key(a) && mid[a] == before[a]);
            }
        }
        i = i + 1;
    }
    let ghost mid = heap.arrays();
    heap.write_array(result, boxes);
    proof {
        let used = addrs@.take(pairs.len() as int);
        let wanted = with_pair_arrays(before, pairs, addrs@, result);
        assert forall|a: u64| #[trigger]
            heap.arrays().contains_key(a) == wanted.contains_key(a) && (wanted.contains_key(a)
                ==> heap.arrays()[a] == wanted[a]) by {
            if a != result {
                if used.contains(a) {
                    let n = used.index_of(a);
                    assert(used[n] == a);
                    assert(addrs@[n] == a);
                    assert(mid.contains_key(addrs@[n]));
                } else {
                    assert(mid.contains_key(a) == before.contains_key(a) && mid[a] == before[a]);
                }
            }
        }
        assert(heap.arrays() =~= wanted);
    }
    result
}

/// The address of the array that an array element holds, 0 for none.
pub fn inner_array_of(element: u64) -> (r: u64)
    ensures
        r == inner_array(element),
{
    let upper: u64 = tag_of(element);
    if upper == POINTER_TAG || upper == STRING_TAG || upper == ARRAY_TAG {
        payload_of(element)
    } else if upper == 0 {
        let lower: u64 = payload_of(element);
        if lower > RAW_POINTER_FLOOR {
            lower
        } else {
            0
        }
    } else {
        0
    }
}

/// The capacity of a map of `size` entries that was made with the default
/// capacity and only ever grew.
pub open spec fn capacity_for(size: nat) -> int
    decreases size,
{
    if size == 0 {
        DEFAULT_CAPACITY as int
    } else {
        let before = capacity_for((size - 1) as nat);
        if size - 1 < before {
            before
        } else {
            2 * before
        }
    }
}

/// A map of `size` entries that was made with the default capacity fits into
/// memory.
pub open spec fn size_fits(size: nat) -> bool {
    capacity_for(size) <= u32::MAX && layout_fits(capacity_for(size))
}

/// The pairs of a map made from the array at `arr`.
pub open spec fn built_pairs(heap: Heap, arr: u64) -> Seq<(u64, u64)> {
    if arr == 0 {
        Seq::empty()
    } else {
        with_all(heap.strings(), Seq::empty(), pairs_in(heap.arrays(), heap.arrays()[arr]))
    }
}

/// The array at `arr`, the arrays that its elements hold and the strings that
/// their keys point to exist.
pub open spec fn names_pairs(heap: Heap, arr: u64) -> bool {
    arr != 0 ==> {
        let elements = heap.arrays()[arr];
        &&& heap.arrays().contains_key(arr)
        &&& forall|n: int|
            0 <= n < elements.len() && inner_array(#[trigger] elements[n]) != 0
                ==> heap.arrays().contains_key(inner_array(elements[n]))
        &&& forall|n: int|
            0 <= n < elements.len() && pair_in(heap.arrays(), #[trigger] elements[n]) is Some
                ==> readable(heap.strings(), pair_in(heap.arrays(), elements[n]).unwrap().0)
    }
}

/// The map made from the array at `arr`: its pairs, the capacity that it grew to
/// and, where it never grew, the zeros in the rest of its buffer.
pub open spec fn is_built_from(header: MapHeader, heap: Heap, arr: u64) -> bool {
    let pairs = built_pairs(heap, arr);
    &&& header.pairs() == pairs
    &&& header.capacity == capacity_for(pairs.len())
    &&& zeros_behind(header)
}

/// The slots of the first buffer behind the live entries are zero.
pub open spec fn zeros_behind(header: MapHeader) -> bool {
    forall|j: int| header.size <= j < DEFAULT_CAPACITY ==> #[trigger] header.slot(j) == (0u64, 0u64)
}

/// Makes a map at `addr` from an array of pairs. Elements that hold no array of
/// at least two elements are passed over; of pairs with the same key the last
/// one's value stays.
pub fn js_map_from_array(heap: &mut Heap, addr: u64, arr: u64) -> (map: u64)
    requires
        old(heap).wf(),
        is_address(addr),
        names_pairs(*old(heap), arr),
        size_fits(built_pairs(*old(heap), arr).len()),
    ensures
        map == addr,
        final(heap).wf(),
        final(heap).strings() == old(heap).strings(),
        final(heap).arrays() == old(heap).arrays(),
        final(heap).maps() == old(heap).maps().insert(addr, final(heap).maps()[addr]),
        is_built_from(final(heap).maps()[addr], *old(heap), arr),
        final(heap).registered() == old(heap).registered().insert(addr),
        final(heap).indexed() == old(heap).indexed().insert(addr),
{
    try_map_from_array(heap, addr, arr);
    addr
}

/// Makes a map at `addr` from an array of pairs, as `js_map_from_array` does,
/// and gives its address; `None` when its distinct keys do not fit into memory.
pub fn try_map_from_array(heap: &mut Heap, addr: u64, arr: u64) -> (map: Option<u64>)
    requires
        old(heap).wf(),
        is_address(addr),
        names_pairs(*old(heap), arr),
    ensures
        map == (if size_fits(built_pairs(*old(heap), arr).len()) {
            Some(addr)
        } else {
            None
        }),
        final(heap).wf(),
        final(heap).strings() == old(heap).strings(),
        final(heap).arrays() == old(heap).arrays(),
        final(heap).maps() == old(heap).maps().insert(addr, final(heap).maps()[addr]),
        map is Some ==> is_built_from(final(heap).maps()[addr], *old(heap), arr),
        final(heap).registered() == old(heap).registered().insert(addr),
        final(heap).indexed() == old(heap).indexed().insert(addr),
{
    let map: u64 = js_map_alloc(heap, addr, 4);
    assert(zeros_behind(heap.maps()[addr]));
    if arr == 0 {
        return Some(map);
    }
    let ghost strings = heap.strings();
    let ghost arrays = heap.arrays();
    let ghost elements = heap.arrays()[arr];
    let ghost nothing = Seq::<(u64, u64)>::empty();
    let len: usize = match heap.array(arr) {
        Some(e) => e.len(),
        None => 0,
    };
    assert(elements.take(0) =~= Seq::<u64>::empty());
    let mut i: usize = 0;
    while i < len
        invariant
            heap.wf(),
            names_pairs(*old(heap), arr),
            arr != 0,
            map == addr,
            is_address(addr),
            strings == heap.strings(),
            strings == old(heap).strings(),
            arrays == heap.arrays(),
            arrays == old(heap).arrays(),
            elements == arrays[arr],
            len == elements.len(),
            i <= len,
            nothing == Seq::<(u64, u64)>::empty(),
            heap.maps() == old(heap).maps().insert(addr, heap.maps()[addr]),
            heap.maps()[addr].pairs() == with_all(
                strings,
                nothing,
                pairs_in(arrays, elements.take(i as int)),
            ),
            heap.maps()[addr].capacity == capacity_for(heap.maps()[addr].size as nat),
            zeros_behind(heap.maps()[addr]),
            heap.registered() == old(heap).registered().insert(addr),
            heap.indexed() == old(heap).indexed().insert(addr),
        decreases len - i,
    {
        let ghost seen = pairs_in(arrays, elements.take(i as int));
        proof {
            assert(elements.take(i + 1).drop_last() =~= elements.take(i as int));
            assert(elements.take(i + 1).last() == elements[i as int]);
            lemma_built_len(strings, arrays, elements, i + 1);
        }
        let element: u64 = match heap.array(arr) {
            Some(e) => e[i],
            None => 0,
        };
        assert(element == elements[i as int]);
        let inner: u64 = inner_array_of(element);
        if inner != 0 {
            let pair: Option<(u64, u64)> = match heap.array(inner) {
                Some(e) => if e.len() < 2 {
                    None
                } else {
                    Some((e[0], e[1]))
                },
                None => None,
            };
            assert(pair == pair_in(arrays, elements[i as int]));
            if let Some((key, value)) = pair {
                let ghost was = *heap;
                proof {
                    assert(seen.push((key, value)).drop_last() =~= seen);
                    let header = heap.maps()[addr];
                    assert(header.size == header.pairs().len());
                    assert(pairs_in(arrays, elements.take(i + 1)) == seen.push((key, value)));
                    if !has_key(strings, header.pairs(), normal(key)) {
                        lemma_capacity_monotone(
                            (header.size + 1) as nat,
                            built_pairs(*old(heap), arr).len(),
                        );
                    }
                }
                if !has_room(heap, map) && js_map_has(heap, map, key) == 0 {
                    return None;
                }
                js_map_set(heap, map, key, value);
                proof {
                    assert(heap.maps().remove(addr) == was.maps().remove(addr));
                    assert(heap.maps() =~= old(heap).maps().insert(addr, heap.maps()[addr])) by {
                        assert forall|q: u64| q != addr implies #[trigger] heap.maps().contains_key(
                            q,
                        ) == old(heap).maps().contains_key(q) && (heap.maps().contains_key(q)
                            ==> heap.maps()[q] == old(heap).maps()[q]) by {
                            assert(heap.maps().remove(addr).contains_key(q)
                                == was.maps().remove(addr).contains_key(q));
                            assert(heap.maps().contains_key(q) ==> heap.maps().remove(addr)[q]
                                == was.maps().remove(addr)[q]);
                        }
                    }
                    let header = heap.maps()[addr];
                    assert(header.size == header.pairs().len());
                    assert(was.maps()[addr].size == was.maps()[addr].pairs().len());
                    lemma_capacity_monotone(0, was.maps()[addr].size as nat);
                    assert forall|j: int| header.size <= j < DEFAULT_CAPACITY implies
                        #[trigger] header.slot(j) == (0u64, 0u64) by {
                        assert(was.maps()[addr].slot(j) == (0u64, 0u64));
                    }
                    assert(heap.indexed() =~= old(heap).indexed().insert(addr));
                }
            }
        }
        i = i + 1;
    }
    assert(elements.take(elements.len() as int) =~= elements);
    proof {
        let header = heap.maps()[addr];
        assert(heap.maps().contains_key(addr));
        assert(header.size == header.pairs().len());
    }
    Some(map)
}

/// A larger map has no smaller capacity.
proof fn lemma_capacity_monotone(small: nat, large: nat)
    requires
        small <= large,
    ensures
        0 < capacity_for(small) <= capacity_for(large),
    decreases large,
{
    if small < large {
        lemma_capacity_monotone(small, (large - 1) as nat);
    } else if large > 0 {
        lemma_capacity_monotone((large - 1) as nat, (large - 1) as nat);
    }
}

/// Reading more of an array makes a map no smaller.
proof fn lemma_built_len(
    strings: Map<u64, Seq<u8>>,
    arrays: Map<u64, Seq<u64>>,
    elements: Seq<u64>,
    i: int,
)
    requires
        0 <= i <= elements.len(),
    ensures
        with_all(strings, Seq::empty(), pairs_in(arrays, elements.take(i))).len() <= with_all(
            strings,
            Seq::empty(),
            pairs_in(arrays, elements),
        ).len(),
    decreases elements.len(),
{
    if i == elements.len() {
        assert(elements.take(i) =~= elements);
    } else {
        let rest = elements.drop_last();
        assert(rest.take(i) =~= elements.take(i));
        lemma_built_len(strings, arrays, rest, i);
        if let Some(pair) = pair_in(arrays, elements.last()) {
            let seen = pairs_in(arrays, rest);
            assert(seen.push(pair).drop_last() =~= seen);
        }
    }
}

} // verus!
