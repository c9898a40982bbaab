//! What calls give that go from maps to arrays and back, or visit a map, on the
//! words of buffers and arrays.

use vstd::prelude::*;

use crate::foreach::{js_map_foreach, ClosureCall, ForEach};
use crate::header::MapHeader;
use crate::heap::Heap;
use crate::key::{key_of, readable};
use crate::map::pairs_at;
use crate::map_arrays::{
    built_pairs, capacity_for, js_map_entries, js_map_from_array, js_map_keys, js_map_values,
    names_pairs, try_map_from_array,
};
use crate::map_call_laws::{kept, key_word, lemma_one_key, names, names_nothing, one_key, value_word};
use crate::map_laws::{law_set_inserts, pairs_wf};
use crate::model::{has_key, holds, inner_array, pair_in, pairs_in, position, with, with_all};
use crate::value::normal;
use crate::value_laws::{
    holds_array, lemma_clean_ptr, lemma_inner_array, lemma_string_ptr, names_address, points_to,
    wide, word,
};

verus! {

/// Nothing but arrays differs between the heaps.
pub open spec fn only_arrays_changed(before: Heap, after: Heap) -> bool {
    &&& after.wf()
    &&& after.strings() == before.strings()
    &&& after.maps() == before.maps()
    &&& after.registered() == before.registered()
    &&& after.indexed() == before.indexed()
}

/// The array of keys holds the key words of the entries, in their order, and
/// that of values the value words; no other array changes.
pub proof fn law_columns(
    before: Heap,
    after_keys: Heap,
    after_values: Heap,
    map: u64,
    p: u64,
    result: u64,
    r: u64,
    s: u64,
)
    requires
        names(before, map, p),
        exists|h: &mut Heap|
            *h == before && *final(h) == after_keys && #[trigger] call_ensures(
                js_map_keys,
                (h, map, result),
                r,
            ),
        exists|h: &mut Heap|
            *h == before && *final(h) == after_values && #[trigger] call_ensures(
                js_map_values,
                (h, map, result),
                s,
            ),
    ensures
        r == result,
        s == result,
        only_arrays_changed(before, after_keys),
        only_arrays_changed(before, after_values),
        after_keys.arrays().contains_key(result),
        after_values.arrays().contains_key(result),
        after_keys.arrays()[result].len() == before.maps()[p].size,
        after_values.arrays()[result].len() == before.maps()[p].size,
        forall|i: int|
            0 <= i < before.maps()[p].size ==> #[trigger] after_keys.arrays()[result][i]
                == key_word(before.maps()[p], i),
        forall|i: int|
            0 <= i < before.maps()[p].size ==> #[trigger] after_values.arrays()[result][i]
                == value_word(before.maps()[p], i),
        after_keys.arrays().remove(result) == before.arrays().remove(result),
        after_values.arrays().remove(result) == before.arrays().remove(result),
{
    lemma_clean_ptr(map);
    assert(pairs_at(before, map) == before.maps()[p].pairs());
    assert(after_keys.arrays().remove(result) =~= before.arrays().remove(result));
    assert(after_values.arrays().remove(result) =~= before.arrays().remove(result));
}

/// The array of entries holds, for each entry, the pointer-tagged address of an
/// array of its key word and its value word; no other array changes.
pub proof fn law_entries(
    before: Heap,
    after: Heap,
    map: u64,
    p: u64,
    result: u64,
    addrs: Vec<u64>,
    r: u64,
)
    requires
        names(before, map, p),
        before.maps()[p].size <= addrs@.len(),
        addrs@.no_duplicates(),
        !addrs@.contains(result),
        forall|i: int| 0 <= i < addrs@.len() ==> wide(#[trigger] addrs@[i]),
        exists|h: &mut Heap|
            *h == before && *final(h) == after && #[trigger] call_ensures(
                js_map_entries,
                (h, map, result, &addrs),
                r,
            ),
    ensures
        r == result,
        only_arrays_changed(before, after),
        after.arrays().contains_key(result),
        after.arrays()[result].len() == before.maps()[p].size,
        forall|i: int|
            0 <= i < before.maps()[p].size ==> word(
                #[trigger] after.arrays()[result][i],
                0x7FFD,
                addrs@[i],
            ),
        forall|i: int|
            0 <= i < before.maps()[p].size ==> after.arrays().contains_key(#[trigger] addrs@[i])
                && after.arrays()[addrs@[i]] == seq![
                key_word(before.maps()[p], i),
                value_word(before.maps()[p], i),
            ],
        forall|a: u64|
            a != result && !addrs@.contains(a) ==> #[trigger] after.arrays().contains_key(a)
                == before.arrays().contains_key(a) && (before.arrays().contains_key(a)
                ==> after.arrays()[a] == before.arrays()[a]),
{
    lemma_clean_ptr(map);
    let pairs = pairs_at(before, map);
    assert(pairs == before.maps()[p].pairs());
    let used = addrs@.take(pairs.len() as int);
    assert forall|i: int| 0 <= i < pairs.len() implies after.arrays().contains_key(
        #[trigger] addrs@[i],
    ) && after.arrays()[addrs@[i]] == seq![
        key_word(before.maps()[p], i),
        value_word(before.maps()[p], i),
    ] by {
        assert(used[i] == addrs@[i]);
        assert(used.contains(addrs@[i]));
        assert(addrs@.contains(addrs@[i]));
        let at = used.index_of(addrs@[i]);
        assert(used[at] == addrs@[i]);
        assert(addrs@[at] == addrs@[i]);
    }
    assert forall|a: u64| a != result && !addrs@.contains(a) implies
        #[trigger] after.arrays().contains_key(a) == before.arrays().contains_key(a) && (
    before.arrays().contains_key(a) ==> after.arrays()[a] == before.arrays()[a]) by {
        if used.contains(a) {
            let n = choose|n: int| 0 <= n < used.len() && used[n] == a;
            assert(addrs@[n] == a);
        }
    }
}

/// Of a pointer that names nothing, the arrays of keys, values and entries are
/// empty.
pub proof fn law_null_map_has_empty_arrays(
    before: Heap,
    a: Heap,
    b: Heap,
    c: Heap,
    map: u64,
    result: u64,
    addrs: Vec<u64>,
    r: u64,
)
    requires
        names_nothing(map),
        exists|h: &mut Heap|
            *h == before && *final(h) == a && #[trigger] call_ensures(
                js_map_keys,
                (h, map, result),
                r,
            ),
        exists|h: &mut Heap|
            *h == before && *final(h) == b && #[trigger] call_ensures(
                js_map_values,
                (h, map, result),
                r,
            ),
        exists|h: &mut Heap|
            *h == before && *final(h) == c && #[trigger] call_ensures(
                js_map_entries,
                (h, map, result, &addrs),
                r,
            ),
    ensures
        r == result,
        a.arrays() == before.arrays().insert(result, Seq::empty()),
        b.arrays() == before.arrays().insert(result, Seq::empty()),
        c.arrays() == before.arrays().insert(result, Seq::empty()),
{
    lemma_clean_ptr(map);
    assert(a.arrays()[result] =~= Seq::<u64>::empty());
    assert(a.arrays() =~= before.arrays().insert(result, Seq::empty()));
    assert(b.arrays()[result] =~= Seq::<u64>::empty());
    assert(b.arrays() =~= before.arrays().insert(result, Seq::empty()));
    assert(c.arrays()[result] =~= Seq::<u64>::empty());
    assert(c.arrays() =~= before.arrays().insert(result, Seq::empty()));
}

/// An iteration starts before the first entry, over as many entries as the map
/// has then, with the closure at the lower 48 bits of the callback.
pub proof fn law_foreach_starts(heap: Heap, map: u64, p: u64, callback: u64, cursor: ForEach)
    requires
        call_ensures(js_map_foreach, (&heap, map, callback), cursor),
    ensures
        names_address(map, p) ==> cursor.map == p && cursor.size == heap.maps()[p].size,
        names_nothing(map) ==> cursor.size == 0,
        cursor.next == 0,
        exists|t: int| #[trigger] word(callback, t, cursor.closure),
{
    lemma_clean_ptr(map);
    assert(word(callback, (callback / 0x1_0000_0000_0000) as int, cursor.closure));
}

/// Each step gives the call for slot `next` of the buffer as it is now, also
/// when the map grew or shrank since the iteration began: the slot's value word,
/// its key word and the pointer-tagged address of the map. It then stands at the
/// next slot, and gives no call when all were visited.
pub proof fn law_foreach_steps(
    before: ForEach,
    after: ForEach,
    heap: Heap,
    call: Option<ClosureCall>,
)
    requires
        wide(before.map),
        exists|c: &mut ForEach|
            *c == before && *final(c) == after && #[trigger] call_ensures(
                ForEach::step,
                (c, &heap),
                call,
            ),
    ensures
        after.map == before.map,
        after.size == before.size,
        after.closure == before.closure,
        before.next >= before.size ==> call is None && after.next == before.next,
        before.next < before.size ==> {
            &&& call is Some
            &&& after.next == before.next + 1
            &&& call.unwrap().key == heap.maps()[before.map].entries@[2 * before.next]
            &&& call.unwrap().value == heap.maps()[before.map].entries@[2 * before.next + 1]
            &&& call.unwrap().closure == before.closure
            &&& word(call.unwrap().map, 0x7FFD, before.map)
        },
{
}

/// A step can be taken when all slots were visited, and as long as the buffer
/// has the next one.
pub proof fn law_foreach_goes_on(cursor: ForEach, heap: Heap, r: bool)
    requires
        heap.wf(),
        call_ensures(ForEach::can_step, (&cursor, &heap), r),
    ensures
        r == (cursor.next >= cursor.size || (heap.maps().contains_key(cursor.map) && cursor.next
            < heap.maps()[cursor.map].capacity)),
        r ==> (forall|c: &mut ForEach|
            *c == cursor ==> #[trigger] call_requires(ForEach::step, (c, &heap))),
{
}

/// Element `n` of the array at `arr` describes a pair: it holds an array whose
/// first two elements are the pair.
pub open spec fn describes(heap: Heap, arr: u64, n: int, key: u64, value: u64) -> bool {
    &&& arr != 0
    &&& 0 <= n < heap.arrays()[arr].len()
    &&& exists|a: u64| #[trigger]
        holds_array(heap.arrays()[arr][n], a) && heap.arrays()[a].len() >= 2 && key
            == heap.arrays()[a][0] && value == heap.arrays()[a][1]
}

/// Some element before `n` describes a pair with the same key.
pub open spec fn described_before(heap: Heap, arr: u64, n: int, key: u64) -> bool {
    exists|m: int, k: u64, v: u64|
        m < n && #[trigger] describes(heap, arr, m, k, v) && one_key(heap.strings(), k, key)
}

/// Some element after `n` describes a pair with the same key.
pub open spec fn described_after(heap: Heap, arr: u64, n: int, key: u64) -> bool {
    exists|m: int, k: u64, v: u64|
        n < m && #[trigger] describes(heap, arr, m, k, v) && one_key(heap.strings(), k, key)
}

/// The pair of an element is the one that it describes.
proof fn lemma_describes(heap: Heap, arr: u64, n: int, key: u64, value: u64)
    requires
        arr != 0,
        0 <= n < heap.arrays()[arr].len(),
    ensures
        describes(heap, arr, n, key, value) == (pair_in(heap.arrays(), heap.arrays()[arr][n])
            == Some((key, value))),
{
    lemma_inner_array(heap.arrays()[arr][n]);
}

/// The kept key of the pair of element `n`.
spec fn input_key(arrays: Map<u64, Seq<u64>>, elements: Seq<u64>, n: int) -> u64 {
    normal(pair_in(arrays, elements[n]).unwrap().0)
}

/// Element `n` has a pair.
spec fn input(arrays: Map<u64, Seq<u64>>, elements: Seq<u64>, n: int) -> bool {
    0 <= n < elements.len() && pair_in(arrays, elements[n]) is Some
}

/// Elements `m` and `n` have pairs with the same key.
spec fn alike(
    strings: Map<u64, Seq<u8>>,
    arrays: Map<u64, Seq<u64>>,
    elements: Seq<u64>,
    m: int,
    n: int,
) -> bool {
    &&& input(arrays, elements, m)
    &&& input(arrays, elements, n)
    &&& key_of(strings, input_key(arrays, elements, m)) == key_of(
        strings,
        input_key(arrays, elements, n),
    )
}

/// Element `n` is the first with its key.
spec fn first(
    strings: Map<u64, Seq<u8>>,
    arrays: Map<u64, Seq<u64>>,
    elements: Seq<u64>,
    n: int,
) -> bool {
    input(arrays, elements, n) && forall|m: int| m < n ==> !alike(strings, arrays, elements, m, n)
}

/// Entry `i` has the kept key of element `n`, the first with its key.
spec fn source(
    strings: Map<u64, Seq<u8>>,
    arrays: Map<u64, Seq<u64>>,
    elements: Seq<u64>,
    built: Seq<(u64, u64)>,
    i: int,
    n: int,
) -> bool {
    0 <= i < built.len() && first(strings, arrays, elements, n) && built[i].0 == input_key(
        arrays,
        elements,
        n,
    )
}

/// Element `n` is the last with its key.
spec fn latest(
    strings: Map<u64, Seq<u8>>,
    arrays: Map<u64, Seq<u64>>,
    elements: Seq<u64>,
    n: int,
) -> bool {
    input(arrays, elements, n) && forall|m: int| n < m ==> !alike(strings, arrays, elements, m, n)
}

/// The key of every element with a pair is there.
spec fn all_in(
    strings: Map<u64, Seq<u8>>,
    arrays: Map<u64, Seq<u64>>,
    elements: Seq<u64>,
    built: Seq<(u64, u64)>,
) -> bool {
    forall|n: int| #[trigger]
        input(arrays, elements, n) ==> has_key(strings, built, input_key(arrays, elements, n))
}

/// Entry `i` has a source.
spec fn sourced(
    strings: Map<u64, Seq<u8>>,
    arrays: Map<u64, Seq<u64>>,
    elements: Seq<u64>,
    built: Seq<(u64, u64)>,
    i: int,
) -> bool {
    exists|n: int| #[trigger] source(strings, arrays, elements, built, i, n)
}

/// Every entry has a source.
spec fn all_sourced(
    strings: Map<u64, Seq<u8>>,
    arrays: Map<u64, Seq<u64>>,
    elements: Seq<u64>,
    built: Seq<(u64, u64)>,
) -> bool {
    forall|i: int|
        0 <= i < built.len() ==> #[trigger] sourced(strings, arrays, elements, built, i)
}

/// Entries stand in the order of their sources.
spec fn in_order(
    strings: Map<u64, Seq<u8>>,
    arrays: Map<u64, Seq<u64>>,
    elements: Seq<u64>,
    built: Seq<(u64, u64)>,
) -> bool {
    forall|i: int, j: int, m: int, n: int| #[trigger]
        source(strings, arrays, elements, built, i, m) && #[trigger] source(
            strings,
            arrays,
            elements,
            built,
            j,
            n,
        ) && i < j ==> m < n
}

/// The entry of a key has the value of the last element of the key.
spec fn latest_win(
    strings: Map<u64, Seq<u8>>,
    arrays: Map<u64, Seq<u64>>,
    elements: Seq<u64>,
    built: Seq<(u64, u64)>,
) -> bool {
    forall|i: int, n: int| #[trigger]
        latest(strings, arrays, elements, n) && #[trigger] holds(
            strings,
            built,
            input_key(arrays, elements, n),
            i,
        ) ==> built[i].1 == pair_in(arrays, elements[n]).unwrap().1
}

/// The pairs that the elements make: every element's key is in them, with the
/// value of the last element of the key; every pair has the kept key of the
/// first element of its key; they stand in the order of those first elements.
spec fn made_of(
    strings: Map<u64, Seq<u8>>,
    arrays: Map<u64, Seq<u64>>,
    elements: Seq<u64>,
    built: Seq<(u64, u64)>,
) -> bool {
    &&& pairs_wf(strings, built)
    &&& all_in(strings, arrays, elements, built)
    &&& all_sourced(strings, arrays, elements, built)
    &&& in_order(strings, arrays, elements, built)
    &&& latest_win(strings, arrays, elements, built)
}

proof fn lemma_built(strings: Map<u64, Seq<u8>>, arrays: Map<u64, Seq<u64>>, elements: Seq<u64>)
    requires
        forall|n: int| #[trigger]
            input(arrays, elements, n) ==> readable(strings, input_key(arrays, elements, n)),
    ensures
        made_of(
            strings,
            arrays,
            elements,
            with_all(strings, Seq::empty(), pairs_in(arrays, elements)),
        ),
    decreases elements.len(),
{
    let built = with_all(strings, Seq::empty(), pairs_in(arrays, elements));
    if elements.len() == 0 {
        assert(built =~= Seq::<(u64, u64)>::empty());
    } else {
        let rest = elements.drop_last();
        let last = elements.len() - 1;
        assert forall|n: int| #[trigger] input(arrays, rest, n) implies readable(
            strings,
            input_key(arrays, rest, n),
        ) by {
            assert(rest[n] == elements[n]);
            assert(input(arrays, elements, n));
        }
        lemma_built(strings, arrays, rest);
        let had = with_all(strings, Seq::empty(), pairs_in(arrays, rest));
        match pair_in(arrays, elements.last()) {
            None => {
                lemma_nothing_added(strings, arrays, elements, had);
            },
            Some(pair) => {
                let seen = pairs_in(arrays, rest);
                assert(seen.push(pair).drop_last() =~= seen);
                assert(input(arrays, elements, last));
                assert(added(strings, arrays, elements, had, built));
                lemma_added(strings, arrays, elements, had, built);
                lemma_added_sources(strings, arrays, elements, had, built);
                lemma_added_values(strings, arrays, elements, had, built);
            },
        }
    }
}

/// What holds of the elements but the last holds of them among all.
proof fn lemma_prefix(strings: Map<u64, Seq<u8>>, arrays: Map<u64, Seq<u64>>, elements: Seq<u64>)
    requires
        elements.len() > 0,
    ensures
        ({
            let rest = elements.drop_last();
            let last = elements.len() - 1;
            &&& forall|n: int|
                n < last ==> #[trigger] input(arrays, elements, n) == input(arrays, rest, n)
            &&& forall|n: int|
                #![trigger input_key(arrays, elements, n)]
                #![trigger input_key(arrays, rest, n)]
                0 <= n < last ==> input_key(arrays, elements, n) == input_key(arrays, rest, n)
            &&& forall|n: int|
                n < last ==> #[trigger] first(strings, arrays, elements, n) == first(
                    strings,
                    arrays,
                    rest,
                    n,
                )
            &&& forall|n: int|
                n < last && #[trigger] latest(strings, arrays, elements, n) ==> latest(
                    strings,
                    arrays,
                    rest,
                    n,
                )
        }),
{
    let rest = elements.drop_last();
    let last = elements.len() - 1;
    assert forall|n: int| 0 <= n < last implies #[trigger] input_key(arrays, elements, n)
        == input_key(arrays, rest, n) by {
        assert(rest[n] == elements[n]);
    }
    assert forall|n: int| n < last implies #[trigger] input(arrays, elements, n) == input(
        arrays,
        rest,
        n,
    ) by {
        if 0 <= n {
            assert(rest[n] == elements[n]);
        }
    }
    assert forall|m: int, n: int| m < last && n < last implies #[trigger] alike(
        strings,
        arrays,
        elements,
        m,
        n,
    ) == alike(strings, arrays, rest, m, n) by {
        assert(input(arrays, elements, m) == input(arrays, rest, m));
        assert(input(arrays, elements, n) == input(arrays, rest, n));
    }
    assert forall|n: int| n < last implies #[trigger] first(strings, arrays, elements, n) == first(
        strings,
        arrays,
        rest,
        n,
    ) by {
        assert(input(arrays, elements, n) == input(arrays, rest, n));
        assert forall|m: int| m < n implies alike(strings, arrays, elements, m, n) == alike(
            strings,
            arrays,
            rest,
            m,
            n,
        ) by {}
    }
    assert forall|n: int| n < last && #[trigger] latest(strings, arrays, elements, n) implies latest(
        strings,
        arrays,
        rest,
        n,
    ) by {
        assert(input(arrays, elements, n) == input(arrays, rest, n));
        assert forall|m: int| n < m implies !alike(strings, arrays, rest, m, n) by {
            if m < last {
                assert(!alike(strings, arrays, elements, m, n));
            }
        }
    }
}

/// An element without a pair makes no difference.
proof fn lemma_nothing_added(
    strings: Map<u64, Seq<u8>>,
    arrays: Map<u64, Seq<u64>>,
    elements: Seq<u64>,
    built: Seq<(u64, u64)>,
)
    requires
        elements.len() > 0,
        pair_in(arrays, elements.last()) is None,
        made_of(strings, arrays, elements.drop_last(), built),
    ensures
        made_of(strings, arrays, elements, built),
{
    let rest = elements.drop_last();
    let last = elements.len() - 1;
    lemma_prefix(strings, arrays, elements);
    assert(!input(arrays, elements, last));
    assert forall|i: int, n: int| #[trigger] source(strings, arrays, elements, built, i, n)
        == source(strings, arrays, rest, built, i, n) by {
        if n < last {
            assert(first(strings, arrays, elements, n) == first(strings, arrays, rest, n));
            assert(input(arrays, elements, n) == input(arrays, rest, n));
        }
    }
    assert forall|i: int| 0 <= i < built.len() implies #[trigger] sourced(
        strings,
        arrays,
        elements,
        built,
        i,
    ) by {
        assert(sourced(strings, arrays, rest, built, i));
        let n = choose|n: int| source(strings, arrays, rest, built, i, n);
        assert(source(strings, arrays, elements, built, i, n));
    }
    assert forall|i: int, n: int| #[trigger]
        latest(strings, arrays, elements, n) && #[trigger] holds(
            strings,
            built,
            input_key(arrays, elements, n),
            i,
        ) implies built[i].1 == pair_in(arrays, elements[n]).unwrap().1 by {
        assert(input(arrays, elements, n));
        assert(n < last);
        assert(latest(strings, arrays, rest, n));
        assert(holds(strings, built, input_key(arrays, rest, n), i));
        assert(rest[n] == elements[n]);
    }
}

/// Where the last element's pair goes: to the entry of its key, or behind the
/// others when it is the first with its key.
spec fn place(strings: Map<u64, Seq<u8>>, had: Seq<(u64, u64)>, key: u64) -> int {
    if has_key(strings, had, key) {
        position(strings, had, key)
    } else {
        had.len() as int
    }
}

/// The last element, which has a pair, and the pairs before and after it.
spec fn added(
    strings: Map<u64, Seq<u8>>,
    arrays: Map<u64, Seq<u64>>,
    elements: Seq<u64>,
    had: Seq<(u64, u64)>,
    built: Seq<(u64, u64)>,
) -> bool {
    let last = elements.len() - 1;
    &&& elements.len() > 0
    &&& input(arrays, elements, last)
    &&& readable(strings, input_key(arrays, elements, last))
    &&& made_of(strings, arrays, elements.drop_last(), had)
    &&& built == with(
        strings,
        had,
        input_key(arrays, elements, last),
        pair_in(arrays, elements[last]).unwrap().1,
    )
}

/// One more pair: the entry of its key alone has its value; the others, and the
/// key words of all that were there, stay.
proof fn lemma_added(
    strings: Map<u64, Seq<u8>>,
    arrays: Map<u64, Seq<u64>>,
    elements: Seq<u64>,
    had: Seq<(u64, u64)>,
    built: Seq<(u64, u64)>,
)
    requires
        added(strings, arrays, elements, had, built),
    ensures
        ({
            let last = elements.len() - 1;
            let key = input_key(arrays, elements, last);
            let at = place(strings, had, key);
            &&& pairs_wf(strings, built)
            &&& 0 <= at < built.len()
            &&& holds(strings, built, key, at)
            &&& built[at].1 == pair_in(arrays, elements[last]).unwrap().1
            &&& built.len() == (if has_key(strings, had, key) {
                had.len()
            } else {
                had.len() + 1
            })
            &&& forall|i: int| 0 <= i < had.len() ==> (#[trigger] built[i]).0 == had[i].0
            &&& forall|i: int|
                0 <= i < had.len() && i != at ==> #[trigger] built[i] == had[i]
            &&& forall|i: int| #[trigger] holds(strings, built, key, i) ==> i == at
        }),
{
    let last = elements.len() - 1;
    let key = input_key(arrays, elements, last);
    let at = place(strings, had, key);
    assert(normal(key) == key);
    law_set_inserts(strings, had, key, pair_in(arrays, elements[last]).unwrap().1);
    if has_key(strings, had, key) {
        assert(holds(strings, had, key, at));
    }
    assert(holds(strings, built, key, at));
    assert forall|i: int| #[trigger] holds(strings, built, key, i) implies i == at by {
        lemma_single(strings, built, i, at);
    }
}

/// The last element is the first with its key exactly when the key was not
/// there, and no earlier element has it then.
proof fn lemma_added_first(
    strings: Map<u64, Seq<u8>>,
    arrays: Map<u64, Seq<u64>>,
    elements: Seq<u64>,
    had: Seq<(u64, u64)>,
    built: Seq<(u64, u64)>,
)
    requires
        added(strings, arrays, elements, had, built),
    ensures
        ({
            let last = elements.len() - 1;
            let key = input_key(arrays, elements, last);
            &&& first(strings, arrays, elements, last) == !has_key(strings, had, key)
            &&& forall|n: int| #[trigger]
                input(arrays, elements, n) && n < last && key_of(
                    strings,
                    input_key(arrays, elements, n),
                ) == key_of(strings, key) ==> has_key(strings, had, key)
        }),
{
    let rest = elements.drop_last();
    let last = elements.len() - 1;
    let key = input_key(arrays, elements, last);
    lemma_prefix(strings, arrays, elements);
    assert forall|n: int| #[trigger] input(arrays, elements, n) && n < last && key_of(
        strings,
        input_key(arrays, elements, n),
    ) == key_of(strings, key) implies has_key(strings, had, key) by {
        assert(input(arrays, rest, n));
        let i = position(strings, had, input_key(arrays, rest, n));
        assert(holds(strings, had, input_key(arrays, rest, n), i));
        assert(holds(strings, had, key, i));
    }
    if has_key(strings, had, key) {
        let at = position(strings, had, key);
        assert(holds(strings, had, key, at));
        assert(sourced(strings, arrays, rest, had, at));
        let n = choose|n: int| source(strings, arrays, rest, had, at, n);
        assert(source(strings, arrays, rest, had, at, n));
        assert(input(arrays, elements, n) == input(arrays, rest, n));
        assert(alike(strings, arrays, elements, n, last));
    } else {
        assert forall|m: int| m < last implies !alike(strings, arrays, elements, m, last) by {
            if alike(strings, arrays, elements, m, last) {
                assert(input(arrays, elements, m));
            }
        }
    }
}

/// Entries that were there keep their sources.
proof fn lemma_added_sources(
    strings: Map<u64, Seq<u8>>,
    arrays: Map<u64, Seq<u64>>,
    elements: Seq<u64>,
    had: Seq<(u64, u64)>,
    built: Seq<(u64, u64)>,
)
    requires
        added(strings, arrays, elements, had, built),
    ensures
        forall|i: int, n: int|
            i < had.len() ==> #[trigger] source(strings, arrays, elements, built, i, n) == source(
                strings,
                arrays,
                elements.drop_last(),
                had,
                i,
                n,
            ),
        all_sourced(strings, arrays, elements, built),
        in_order(strings, arrays, elements, built),
{
    let rest = elements.drop_last();
    let last = elements.len() - 1;
    let key = input_key(arrays, elements, last);
    lemma_prefix(strings, arrays, elements);
    lemma_added(strings, arrays, elements, had, built);
    lemma_added_first(strings, arrays, elements, had, built);
    assert forall|i: int, n: int| i < had.len() implies #[trigger] source(
        strings,
        arrays,
        elements,
        built,
        i,
        n,
    ) == source(strings, arrays, rest, had, i, n) by {
        if 0 <= i {
            assert(built[i].0 == had[i].0);
            if n < last {
                assert(first(strings, arrays, elements, n) == first(strings, arrays, rest, n));
                assert(input(arrays, elements, n) == input(arrays, rest, n));
            } else if source(strings, arrays, elements, built, i, n) {
                assert(n == last);
                assert(holds(strings, had, key, i));
                assert(false);
            }
        }
    }
    assert forall|i: int| 0 <= i < built.len() implies #[trigger] sourced(
        strings,
        arrays,
        elements,
        built,
        i,
    ) by {
        if i < had.len() {
            assert(sourced(strings, arrays, rest, had, i));
            let n = choose|n: int| source(strings, arrays, rest, had, i, n);
            assert(source(strings, arrays, elements, built, i, n));
        } else {
            assert(built[i].0 == key);
            assert(source(strings, arrays, elements, built, i, last));
        }
    }
    assert forall|i: int, j: int, m: int, n: int| #[trigger]
        source(strings, arrays, elements, built, i, m) && #[trigger] source(
            strings,
            arrays,
            elements,
            built,
            j,
            n,
        ) && i < j implies m < n by {
        assert(source(strings, arrays, rest, had, i, m));
        assert(m < last);
        if j < had.len() {
            assert(source(strings, arrays, rest, had, j, n));
        } else if n < last {
            assert(input(arrays, elements, n));
            assert(built[j].0 == key);
            assert(has_key(strings, had, key));
            assert(false);
        }
    }
}

/// After one more pair, every key is there with the value of its last pair.
proof fn lemma_added_values(
    strings: Map<u64, Seq<u8>>,
    arrays: Map<u64, Seq<u64>>,
    elements: Seq<u64>,
    had: Seq<(u64, u64)>,
    built: Seq<(u64, u64)>,
)
    requires
        added(strings, arrays, elements, had, built),
    ensures
        all_in(strings, arrays, elements, built),
        latest_win(strings, arrays, elements, built),
{
    let rest = elements.drop_last();
    let last = elements.len() - 1;
    let key = input_key(arrays, elements, last);
    let at = place(strings, had, key);
    lemma_prefix(strings, arrays, elements);
    lemma_added(strings, arrays, elements, had, built);
    assert forall|n: int| #[trigger] input(arrays, elements, n) implies has_key(
        strings,
        built,
        input_key(arrays, elements, n),
    ) by {
        if n < last {
            assert(input(arrays, rest, n));
            let i = position(strings, had, input_key(arrays, rest, n));
            assert(holds(strings, had, input_key(arrays, rest, n), i));
            assert(built[i].0 == had[i].0);
            assert(holds(strings, built, input_key(arrays, elements, n), i));
        }
    }
    assert forall|i: int, n: int| #[trigger]
        latest(strings, arrays, elements, n) && #[trigger] holds(
            strings,
            built,
            input_key(arrays, elements, n),
            i,
        ) implies built[i].1 == pair_in(arrays, elements[n]).unwrap().1 by {
        if n == last {
            assert(holds(strings, built, key, i));
        } else {
            assert(input(arrays, elements, n));
            assert(!alike(strings, arrays, elements, last, n));
            assert(i != at);
            assert(i < had.len());
            assert(built[i] == had[i]);
            assert(latest(strings, arrays, rest, n));
            assert(holds(strings, had, input_key(arrays, rest, n), i));
            assert(rest[n] == elements[n]);
        }
    }
}

/// A key stands at one place of well-formed pairs.
proof fn lemma_single(strings: Map<u64, Seq<u8>>, pairs: Seq<(u64, u64)>, i: int, j: int)
    requires
        pairs_wf(strings, pairs),
        0 <= i < pairs.len(),
        0 <= j < pairs.len(),
        key_of(strings, pairs[i].0) == key_of(strings, pairs[j].0),
    ensures
        i == j,
{
    let keys = pairs.map_values(|pair: (u64, u64)| pair.0);
    assert(keys[i] == pairs[i].0 && keys[j] == pairs[j].0);
}

/// The heap before a map is made from the array at `arr`: the arrays and the
/// strings that its elements lead to exist.
pub open spec fn can_be_read(heap: Heap, arr: u64) -> bool {
    &&& heap.wf()
    &&& arr != 0 ==> heap.arrays().contains_key(arr)
    &&& forall|n: int, a: u64|
        arr != 0 && 0 <= n < heap.arrays()[arr].len() && #[trigger] holds_array(
            heap.arrays()[arr][n],
            a,
        ) ==> heap.arrays().contains_key(a)
    &&& forall|n: int, k: u64, v: u64, s: u64| #[trigger]
        describes(heap, arr, n, k, v) && #[trigger] points_to(k, s) && s >= 0x1000
            ==> heap.strings().contains_key(s)
}

/// The map `m` is what the array at `arr` makes: each described key has an
/// entry, with the value of the last pair of the key; each entry's key word is
/// the kept key of the first pair of the key.
pub open spec fn is_made_from(heap: Heap, m: MapHeader, arr: u64) -> bool {
    &&& forall|n: int, k: u64, v: u64| #[trigger]
        describes(heap, arr, n, k, v) ==> exists|i: int|
            0 <= i < m.size && one_key(heap.strings(), #[trigger] key_word(m, i), k)
    &&& forall|n: int, k: u64, v: u64, i: int| #[trigger]
        describes(heap, arr, n, k, v) && !described_after(heap, arr, n, k) && 0 <= i < m.size
            && one_key(heap.strings(), #[trigger] key_word(m, i), k) ==> value_word(m, i) == v
    &&& forall|i: int| 0 <= i < m.size ==> #[trigger] has_origin(heap, m, arr, i)
    &&& forall|i: int, j: int, a: int, b: int| #[trigger]
        comes_from(heap, m, arr, i, a) && #[trigger] comes_from(heap, m, arr, j, b) && i < j ==> a
            < b
}

/// Entry `i` comes from an element.
pub open spec fn has_origin(heap: Heap, m: MapHeader, arr: u64, i: int) -> bool {
    exists|n: int| #[trigger] comes_from(heap, m, arr, i, n)
}

/// The key word of entry `i` is the kept key of element `n`, which is the first
/// with its key.
pub open spec fn comes_from(
    heap: Heap,
    m: MapHeader,
    arr: u64,
    i: int,
    n: int,
) -> bool {
    0 <= i < m.size && exists|k: u64, v: u64| #[trigger]
        describes(heap, arr, n, k, v) && !described_before(heap, arr, n, k) && key_word(m, i)
            == kept(k)
}

/// Elements have the same key as pairs exactly when they describe it.
proof fn lemma_alike(heap: Heap, arr: u64, m: int, n: int)
    requires
        arr != 0,
        input(heap.arrays(), heap.arrays()[arr], m),
        input(heap.arrays(), heap.arrays()[arr], n),
    ensures
        ({
            let arrays = heap.arrays();
            let elements = arrays[arr];
            let a = pair_in(arrays, elements[m]).unwrap();
            let b = pair_in(arrays, elements[n]).unwrap();
            &&& describes(heap, arr, m, a.0, a.1)
            &&& describes(heap, arr, n, b.0, b.1)
            &&& alike(heap.strings(), arrays, elements, m, n) == one_key(heap.strings(), a.0, b.0)
        }),
{
    let arrays = heap.arrays();
    let elements = arrays[arr];
    let a = pair_in(arrays, elements[m]).unwrap();
    let b = pair_in(arrays, elements[n]).unwrap();
    lemma_describes(heap, arr, m, a.0, a.1);
    lemma_describes(heap, arr, n, b.0, b.1);
    lemma_one_key(heap.strings(), a.0, b.0);
}

/// What an element describes is its pair, and it is the first or the last of its
/// key among pairs when it is among what is described.
proof fn lemma_inputs(heap: Heap, arr: u64)
    requires
        arr != 0,
    ensures
        ({
            let arrays = heap.arrays();
            let elements = arrays[arr];
            let strings = heap.strings();
            &&& forall|n: int, k: u64, v: u64| #[trigger]
                describes(heap, arr, n, k, v) ==> input(arrays, elements, n) && pair_in(
                    arrays,
                    elements[n],
                ) == Some((k, v))
            &&& forall|n: int, k: u64, v: u64| #[trigger]
                describes(heap, arr, n, k, v) ==> first(strings, arrays, elements, n)
                    == !described_before(heap, arr, n, k)
            &&& forall|n: int, k: u64, v: u64| #[trigger]
                describes(heap, arr, n, k, v) ==> latest(strings, arrays, elements, n)
                    == !described_after(heap, arr, n, k)
        }),
{
    let arrays = heap.arrays();
    let elements = arrays[arr];
    let strings = heap.strings();
    assert forall|n: int, k: u64, v: u64| #[trigger] describes(heap, arr, n, k, v) implies input(
        arrays,
        elements,
        n,
    ) && pair_in(arrays, elements[n]) == Some((k, v)) by {
        lemma_describes(heap, arr, n, k, v);
    }
    assert forall|n: int, k: u64, v: u64| #[trigger] describes(heap, arr, n, k, v) implies first(
        strings,
        arrays,
        elements,
        n,
    ) == !described_before(heap, arr, n, k) && latest(strings, arrays, elements, n)
        == !described_after(heap, arr, n, k) by {
        if described_before(heap, arr, n, k) {
            let (m, a, b) = choose|m: int, a: u64, b: u64|
                m < n && #[trigger] describes(heap, arr, m, a, b) && one_key(strings, a, k);
            lemma_alike(heap, arr, m, n);
        } else {
            assert forall|m: int| m < n implies !alike(strings, arrays, elements, m, n) by {
                if alike(strings, arrays, elements, m, n) {
                    lemma_alike(heap, arr, m, n);
                }
            }
        }
        if described_after(heap, arr, n, k) {
            let (m, a, b) = choose|m: int, a: u64, b: u64|
                n < m && #[trigger] describes(heap, arr, m, a, b) && one_key(strings, a, k);
            lemma_alike(heap, arr, m, n);
        } else {
            assert forall|m: int| n < m implies !alike(strings, arrays, elements, m, n) by {
                if alike(strings, arrays, elements, m, n) {
                    lemma_alike(heap, arr, m, n);
                }
            }
        }
    }
}

/// A map whose pairs are built from the array is made from it.
proof fn lemma_is_made_from(heap: Heap, m: MapHeader, arr: u64)
    requires
        can_be_read(heap, arr),
        m.pairs() == built_pairs(heap, arr),
    ensures
        is_made_from(heap, m, arr),
{
    let arrays = heap.arrays();
    let elements = arrays[arr];
    let strings = heap.strings();
    let built = m.pairs();
    assert(m.size == built.len());
    if arr != 0 {
        lemma_inputs(heap, arr);
        assert forall|n: int| #[trigger] input(arrays, elements, n) implies readable(
            strings,
            input_key(arrays, elements, n),
        ) by {
            let pair = pair_in(arrays, elements[n]).unwrap();
            lemma_describes(heap, arr, n, pair.0, pair.1);
            lemma_string_ptr(pair.0);
            assert(readable(strings, pair.0));
        }
        lemma_built(strings, arrays, elements);
        assert forall|i: int| 0 <= i < m.size implies #[trigger] key_word(m, i) == built[i].0
            && value_word(m, i) == built[i].1 by {}
        assert forall|i: int, n: int, k: u64, v: u64|
            0 <= i < m.size && #[trigger] describes(heap, arr, n, k, v) implies one_key(
            strings,
            #[trigger] key_word(m, i),
            k,
        ) == holds(strings, built, input_key(arrays, elements, n), i) by {
            lemma_one_key(strings, key_word(m, i), k);
            assert(built.map_values(|pair: (u64, u64)| pair.0)[i] == built[i].0);
            assert(normal(key_word(m, i)) == key_word(m, i));
        }
        assert forall|n: int, k: u64, v: u64| #[trigger] describes(heap, arr, n, k, v) implies exists|
            i: int,
        |
            0 <= i < m.size && one_key(strings, #[trigger] key_word(m, i), k) by {
            assert(input(arrays, elements, n));
            let i = position(strings, built, input_key(arrays, elements, n));
            assert(holds(strings, built, input_key(arrays, elements, n), i));
            assert(one_key(strings, key_word(m, i), k));
        }
        assert forall|i: int, n: int| #[trigger] comes_from(heap, m, arr, i, n) == source(
            strings,
            arrays,
            elements,
            built,
            i,
            n,
        ) by {
            if source(strings, arrays, elements, built, i, n) {
                let pair = pair_in(arrays, elements[n]).unwrap();
                lemma_describes(heap, arr, n, pair.0, pair.1);
                lemma_one_key(strings, pair.0, pair.0);
                assert(describes(heap, arr, n, pair.0, pair.1));
                assert(key_word(m, i) == kept(pair.0));
            }
            if comes_from(heap, m, arr, i, n) {
                let (k, v) = choose|k: u64, v: u64| #[trigger]
                    describes(heap, arr, n, k, v) && !described_before(heap, arr, n, k)
                        && key_word(m, i) == kept(k);
                lemma_one_key(strings, k, k);
            }
        }
        assert forall|i: int| 0 <= i < m.size implies #[trigger] has_origin(heap, m, arr, i) by {
            assert(sourced(strings, arrays, elements, built, i));
            let n = choose|n: int| source(strings, arrays, elements, built, i, n);
            assert(comes_from(heap, m, arr, i, n));
        }
    }
}

/// A map made from an array of pairs: made of what the elements describe, and
/// empty for no array. It was made with room for four entries and doubled when
/// full, and the words behind its entries that it was made with are zero.
pub proof fn law_from_array(before: Heap, after: Heap, addr: u64, arr: u64, r: u64)
    requires
        can_be_read(before, arr),
        exists|h: &mut Heap|
            *h == before && *final(h) == after && #[trigger] call_ensures(
                js_map_from_array,
                (h, addr, arr),
                r,
            ),
    ensures
        r == addr,
        after.wf(),
        after.strings() == before.strings(),
        after.arrays() == before.arrays(),
        after.registered() == before.registered().insert(addr),
        after.indexed() == before.indexed().insert(addr),
        after.maps().contains_key(addr),
        forall|q: u64|
            q != addr ==> #[trigger] after.maps().contains_key(q) == before.maps().contains_key(q)
                && (before.maps().contains_key(q) ==> after.maps()[q] == before.maps()[q]),
        is_made_from(before, after.maps()[addr], arr),
        arr == 0 ==> after.maps()[addr].size == 0,
        grown(after.maps()[addr]),
{
    let m = after.maps()[addr];
    lemma_is_made_from(before, m, arr);
    assert(m.size == m.pairs().len());
    lemma_capacity_shape(m.size as nat);
    assert forall|j: int| m.size <= j < 4 implies #[trigger] key_word(m, j) == 0 && value_word(m, j)
        == 0 by {
        assert(m.slot(j) == (0u64, 0u64));
    }
}

/// The capacity is the least of 4, 8, 16 and so on that holds the entries, and
/// the words of the first four entries that are not live are zero.
pub open spec fn grown(m: MapHeader) -> bool {
    &&& m.capacity >= 4
    &&& m.size <= m.capacity
    &&& m.capacity == 4 || m.capacity < 2 * m.size
    &&& exists|e: nat| m.capacity == 4 * #[trigger] vstd::arithmetic::power2::pow2(e)
    &&& forall|j: int|
        m.size <= j < 4 ==> #[trigger] key_word(m, j) == 0 && value_word(m, j) == 0
}

proof fn lemma_capacity_shape(size: nat)
    ensures
        capacity_for(size) >= 4,
        size <= capacity_for(size),
        capacity_for(size) == 4 || capacity_for(size) < 2 * size,
        exists|e: nat| capacity_for(size) == 4 * #[trigger] vstd::arithmetic::power2::pow2(e),
    decreases size,
{
    vstd::arithmetic::power2::lemma2_to64();
    if size == 0 {
        assert(capacity_for(size) == 4 * vstd::arithmetic::power2::pow2(0));
    } else {
        lemma_capacity_shape((size - 1) as nat);
        let e = choose|e: nat|
            capacity_for((size - 1) as nat) == 4 * #[trigger] vstd::arithmetic::power2::pow2(e);
        if capacity_for(size) != capacity_for((size - 1) as nat) {
            vstd::arithmetic::power2::lemma_pow2_unfold(e + 1);
            assert(capacity_for(size) == 4 * vstd::arithmetic::power2::pow2(e + 1));
        }
    }
}

/// Making a map from an array gives the map, or nothing when the buffer for its
/// distinct keys does not fit into memory, which can only be where twice as many
/// entries as the array has elements do not fit.
pub proof fn law_from_array_if_it_fits(
    before: Heap,
    after: Heap,
    addr: u64,
    arr: u64,
    r: Option<u64>,
)
    requires
        can_be_read(before, arr),
        0 < addr < 0x1_0000_0000_0000,
        exists|h: &mut Heap|
            *h == before && *final(h) == after && #[trigger] call_ensures(
                try_map_from_array,
                (h, addr, arr),
                r,
            ),
    ensures
        after.wf(),
        after.strings() == before.strings(),
        after.arrays() == before.arrays(),
        r is None || r == Some(addr),
        arr == 0 || (before.arrays()[arr].len() <= 0x8000_0000 && 32 * before.arrays()[arr].len()
            <= isize::MAX) ==> r == Some(addr),
        r == Some(addr) ==> is_made_from(before, after.maps()[addr], arr) && grown(
            after.maps()[addr],
        ),
        r is Some ==> (forall|h: &mut Heap|
            *h == before ==> #[trigger] call_requires(js_map_from_array, (h, addr, arr))),
{
    let size = built_pairs(before, arr).len();
    lemma_capacity_shape(size);
    if arr != 0 {
        lemma_built_no_longer(before.strings(), before.arrays(), before.arrays()[arr]);
    }
    if r is Some {
        let m = after.maps()[addr];
        lemma_is_made_from(before, m, arr);
        assert(m.size == m.pairs().len());
        assert forall|j: int| m.size <= j < 4 implies #[trigger] key_word(m, j) == 0 && value_word(
            m,
            j,
        ) == 0 by {
            assert(m.slot(j) == (0u64, 0u64));
        }
        lemma_names_pairs(before, arr);
    }
}

/// An array that can be read names pairs.
pub proof fn lemma_names_pairs(heap: Heap, arr: u64)
    requires
        can_be_read(heap, arr),
    ensures
        names_pairs(heap, arr),
{
    if arr != 0 {
        let elements = heap.arrays()[arr];
        assert forall|n: int|
            0 <= n < elements.len() && inner_array(#[trigger] elements[n]) != 0 implies heap.arrays().contains_key(
            inner_array(elements[n]),
        ) by {
            lemma_inner_array(elements[n]);
            assert(holds_array(elements[n], inner_array(elements[n])));
        }
        assert forall|n: int|
            0 <= n < elements.len() && pair_in(heap.arrays(), #[trigger] elements[n]) is Some implies readable(
            heap.strings(),
            pair_in(heap.arrays(), elements[n]).unwrap().0,
        ) by {
            let pair = pair_in(heap.arrays(), elements[n]).unwrap();
            lemma_describes(heap, arr, n, pair.0, pair.1);
            lemma_string_ptr(pair.0);
        }
    }
}

proof fn lemma_built_no_longer(
    strings: Map<u64, Seq<u8>>,
    arrays: Map<u64, Seq<u64>>,
    elements: Seq<u64>,
)
    ensures
        with_all(strings, Seq::empty(), pairs_in(arrays, elements)).len() <= elements.len(),
    decreases elements.len(),
{
    if elements.len() > 0 {
        lemma_built_no_longer(strings, arrays, elements.drop_last());
        if let Some(pair) = pair_in(arrays, elements.last()) {
            let seen = pairs_in(arrays, elements.drop_last());
            assert(seen.push(pair).drop_last() =~= seen);
        }
    }
}

} // verus!
