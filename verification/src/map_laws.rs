//! What holds of maps across operations.

use vstd::prelude::*;

use crate::foreach::{ClosureCall, ForEach};
use crate::header::swap_removed;
use crate::heap::{keys_wf, lemma_keys_from_pairs, Heap};
use crate::key::{hash_code, hash_feed, key_of, readable, Key};
use crate::map::{is_address, names_map, pairs_at};
use crate::map_arrays::with_pair_arrays;
use crate::model::{
    contents, has_key, holds, inner_array, pair_in, pairs_in, position, value_of, with, with_all,
    without,
};
use crate::value::{
    boxed_pointer, clean_ptr, normal, string_ptr, NEGATIVE_ZERO, PAYLOAD_MASK, STRING_FLOOR,
    TAG_UNDEFINED,
};

verus! {

/// The pairs have readable, normalized keys, no two of them the same.
pub open spec fn pairs_wf(strings: Map<u64, Seq<u8>>, pairs: Seq<(u64, u64)>) -> bool {
    keys_wf(pairs.map_values(|pair: (u64, u64)| pair.0), strings)
}

/// The pairs of every map of a well-formed heap are well formed.
pub proof fn law_maps_have_distinct_keys(heap: Heap, map: u64)
    requires
        heap.wf(),
        names_map(heap, map),
    ensures
        pairs_wf(heap.strings(), pairs_at(heap, map)),
{
    if clean_ptr(map) != 0 {
        let header = heap.maps()[clean_ptr(map)];
        lemma_keys_from_pairs(header);
    }
}

/// Every map of a well-formed heap is registered.
pub proof fn law_maps_are_registered(heap: Heap, map: u64)
    requires
        heap.wf(),
        names_map(heap, map),
        clean_ptr(map) != 0,
    ensures
        heap.registered().contains(clean_ptr(map)),
{
}

/// No two pairs hold the same key, so a key has one position.
proof fn lemma_one_position(
    strings: Map<u64, Seq<u8>>,
    pairs: Seq<(u64, u64)>,
    i: int,
    j: int,
)
    requires
        pairs_wf(strings, pairs),
        0 <= i < pairs.len(),
        0 <= j < pairs.len(),
        key_of(strings, pairs[i].0) == key_of(strings, pairs[j].0),
    ensures
        i == j,
{
    let keys = pairs.map_values(|pair: (u64, u64)| pair.0);
    assert(keys[i] == pairs[i].0 && keys[j] == pairs[j].0);
}

/// The contents at the key of pair `i` are its value.
proof fn lemma_contents_at(strings: Map<u64, Seq<u8>>, pairs: Seq<(u64, u64)>, i: int)
    requires
        pairs_wf(strings, pairs),
        0 <= i < pairs.len(),
    ensures
        contents(strings, pairs).contains_key(key_of(strings, pairs[i].0)),
        contents(strings, pairs)[key_of(strings, pairs[i].0)] == pairs[i].1,
{
    let k = key_of(strings, pairs[i].0);
    let j = choose|j: int| 0 <= j < pairs.len() && key_of(strings, #[trigger] pairs[j].0) == k;
    lemma_one_position(strings, pairs, i, j);
}

/// A lookup reads the contents.
pub proof fn law_lookup_reads_contents(
    strings: Map<u64, Seq<u8>>,
    pairs: Seq<(u64, u64)>,
    key: u64,
)
    requires
        pairs_wf(strings, pairs),
    ensures
        has_key(strings, pairs, key) == contents(strings, pairs).contains_key(
            key_of(strings, key),
        ),
        value_of(strings, pairs, key) == (if contents(strings, pairs).contains_key(
            key_of(strings, key),
        ) {
            contents(strings, pairs)[key_of(strings, key)]
        } else {
            TAG_UNDEFINED
        }),
{
    let k = key_of(strings, key);
    if has_key(strings, pairs, key) {
        lemma_contents_at(strings, pairs, position(strings, pairs, key));
    }
    if contents(strings, pairs).contains_key(k) {
        let i = choose|i: int| 0 <= i < pairs.len() && key_of(strings, #[trigger] pairs[i].0) == k;
        assert(holds(strings, pairs, key, i));
    }
}

/// Setting a key keeps the keys distinct, and makes of the contents what
/// inserting into a mathematical map makes of it: the key has the new value and
/// every other key is as it was.
pub proof fn law_set_inserts(
    strings: Map<u64, Seq<u8>>,
    pairs: Seq<(u64, u64)>,
    key: u64,
    value: u64,
)
    requires
        pairs_wf(strings, pairs),
        readable(strings, key),
    ensures
        pairs_wf(strings, with(strings, pairs, normal(key), value)),
        contents(strings, with(strings, pairs, normal(key), value)) == contents(strings, pairs).insert(
            key_of(strings, normal(key)),
            value,
        ),
{
    let key = normal(key);
    let after = with(strings, pairs, key, value);
    let keys = pairs.map_values(|pair: (u64, u64)| pair.0);
    let after_keys = after.map_values(|pair: (u64, u64)| pair.0);
    let k = key_of(strings, key);
    let at = if has_key(strings, pairs, key) {
        position(strings, pairs, key)
    } else {
        pairs.len() as int
    };
    if has_key(strings, pairs, key) {
        assert(after_keys =~= keys);
    } else {
        assert(after_keys =~= keys.push(key));
        assert forall|i: int| 0 <= i < keys.len() implies key_of(strings, #[trigger] keys[i]) != k by {
            assert(!holds(strings, pairs, key, i));
        }
    }
    let wanted = contents(strings, pairs).insert(k, value);
    let got = contents(strings, after);
    assert(key_of(strings, after[at].0) == k && after[at].1 == value);
    lemma_contents_at(strings, after, at);
    assert forall|c: Key| #[trigger] got.contains_key(c) == wanted.contains_key(c) && (
    wanted.contains_key(c) ==> got[c] == wanted[c]) by {
        if c != k {
            if got.contains_key(c) {
                let i = choose|i: int|
                    0 <= i < after.len() && key_of(strings, #[trigger] after[i].0) == c;
                assert(i != at);
                assert(pairs[i] == after[i]);
                lemma_contents_at(strings, after, i);
                lemma_contents_at(strings, pairs, i);
            }
            if contents(strings, pairs).contains_key(c) {
                let i = choose|i: int|
                    0 <= i < pairs.len() && key_of(strings, #[trigger] pairs[i].0) == c;
                assert(i != at);
                assert(pairs[i] == after[i]);
                lemma_contents_at(strings, after, i);
                lemma_contents_at(strings, pairs, i);
            }
        }
    }
    assert(got =~= wanted);
}

/// Reading back: after a key was set, a lookup of any value that is the same
/// key gives the new value, and a lookup of any other gives what it gave before.
pub proof fn law_get_after_set(
    strings: Map<u64, Seq<u8>>,
    pairs: Seq<(u64, u64)>,
    key: u64,
    value: u64,
    other: u64,
)
    requires
        pairs_wf(strings, pairs),
        readable(strings, key),
    ensures
        value_of(strings, with(strings, pairs, normal(key), value), other) == (if key_of(strings, other)
            == key_of(strings, normal(key)) {
            value
        } else {
            value_of(strings, pairs, other)
        }),
        has_key(strings, with(strings, pairs, normal(key), value), other) == (key_of(strings, other)
            == key_of(strings, normal(key)) || has_key(strings, pairs, other)),
{
    law_set_inserts(strings, pairs, key, value);
    law_lookup_reads_contents(strings, pairs, other);
    law_lookup_reads_contents(strings, with(strings, pairs, normal(key), value), other);
}

/// A map's size is the number of its keys: setting a key adds one exactly when
/// the key is new.
pub proof fn law_set_size(
    strings: Map<u64, Seq<u8>>,
    pairs: Seq<(u64, u64)>,
    key: u64,
    value: u64,
)
    ensures
        with(strings, pairs, key, value).len() == pairs.len() + (if has_key(strings, pairs, key) {
            0int
        } else {
            1
        }),
{
}

/// Setting a key moves no entry: each key that was there stays where it was.
pub proof fn law_set_keeps_order(
    strings: Map<u64, Seq<u8>>,
    pairs: Seq<(u64, u64)>,
    key: u64,
    value: u64,
    i: int,
)
    requires
        0 <= i < pairs.len(),
    ensures
        with(strings, pairs, key, value)[i].0 == pairs[i].0,
{
}

/// The size of a map is the number of keys in its contents.
pub proof fn law_size_counts_keys(strings: Map<u64, Seq<u8>>, pairs: Seq<(u64, u64)>)
    requires
        pairs_wf(strings, pairs),
    ensures
        contents(strings, pairs).dom().finite(),
        contents(strings, pairs).dom().len() == pairs.len(),
    decreases pairs.len(),
{
    if pairs.len() == 0 {
        assert(contents(strings, pairs).dom() =~= Set::<Key>::empty());
    } else {
        let rest = pairs.drop_last();
        let key = pairs.last().0;
        lemma_prefix_wf(strings, pairs);
        law_size_counts_keys(strings, rest);
        assert(pairs.map_values(|pair: (u64, u64)| pair.0).last() == key);
        assert(with(strings, rest, key, pairs.last().1) == pairs);
        law_set_inserts(strings, rest, key, pairs.last().1);
        law_lookup_reads_contents(strings, rest, key);
        assert(contents(strings, pairs).dom() =~= contents(strings, rest).dom().insert(
            key_of(strings, key),
        ));
    }
}

/// All pairs but the last are well formed, and the last pair is what setting
/// its key adds to them.
proof fn lemma_prefix_wf(strings: Map<u64, Seq<u8>>, pairs: Seq<(u64, u64)>)
    requires
        pairs_wf(strings, pairs),
        pairs.len() > 0,
    ensures
        pairs_wf(strings, pairs.drop_last()),
        !has_key(strings, pairs.drop_last(), pairs.last().0),
        with(strings, pairs.drop_last(), pairs.last().0, pairs.last().1) == pairs,
        readable(strings, pairs.last().0),
        normal(pairs.last().0) == pairs.last().0,
{
    let rest = pairs.drop_last();
    let keys = pairs.map_values(|pair: (u64, u64)| pair.0);
    let rest_keys = rest.map_values(|pair: (u64, u64)| pair.0);
    let key = pairs.last().0;
    assert(rest_keys =~= keys.drop_last());
    assert forall|i: int| 0 <= i < rest_keys.len() implies rest_keys[i] == keys[i] by {}
    assert(keys.last() == key);
    assert forall|i: int| !holds(strings, rest, key, i) by {
        if 0 <= i < rest.len() && holds(strings, rest, key, i) {
            lemma_one_position(strings, pairs, i, pairs.len() - 1);
        }
    }
    assert(rest.push(pairs.last()) =~= pairs);
}

/// Deleting a key keeps the keys distinct and removes exactly that key from the
/// contents.
pub proof fn law_delete_removes(strings: Map<u64, Seq<u8>>, pairs: Seq<(u64, u64)>, key: u64)
    requires
        pairs_wf(strings, pairs),
    ensures
        pairs_wf(strings, without(strings, pairs, key)),
        contents(strings, without(strings, pairs, key)) == contents(strings, pairs).remove(
            key_of(strings, key),
        ),
        without(strings, pairs, key).len() == pairs.len() - (if has_key(strings, pairs, key) {
            1int
        } else {
            0
        }),
{
    let after = without(strings, pairs, key);
    let k = key_of(strings, key);
    let wanted = contents(strings, pairs).remove(k);
    let got = contents(strings, after);
    law_lookup_reads_contents(strings, pairs, key);
    if has_key(strings, pairs, key) {
        let at = position(strings, pairs, key);
        assert(holds(strings, pairs, key, at));
        let last = pairs.len() - 1;
        let keys = pairs.map_values(|pair: (u64, u64)| pair.0);
        let after_keys = after.map_values(|pair: (u64, u64)| pair.0);
        assert forall|i: int| 0 <= i < after.len() implies #[trigger] after_keys[i] == keys[if i
            == at {
            last
        } else {
            i
        }] by {}
        assert(pairs_wf(strings, after)) by {
            assert forall|m: int, n: int| 0 <= m < n < after_keys.len() implies key_of(
                strings,
                #[trigger] after_keys[m],
            ) != key_of(strings, #[trigger] after_keys[n]) by {
                let a = if m == at { last } else { m };
                let b = if n == at { last } else { n };
                assert(after_keys[m] == keys[a] && after_keys[n] == keys[b]);
            }
        }
        assert forall|c: Key| #[trigger] got.contains_key(c) == wanted.contains_key(c) && (
        wanted.contains_key(c) ==> got[c] == wanted[c]) by {
            if got.contains_key(c) {
                let i = choose|i: int|
                    0 <= i < after.len() && key_of(strings, #[trigger] after[i].0) == c;
                let j = if i == at { last } else { i };
                assert(after[i] == pairs[j]);
                lemma_contents_at(strings, after, i);
                lemma_contents_at(strings, pairs, j);
                if c == k {
                    lemma_one_position(strings, pairs, j, at);
                }
            }
            if wanted.contains_key(c) {
                let i = choose|i: int|
                    0 <= i < pairs.len() && key_of(strings, #[trigger] pairs[i].0) == c;
                assert(i != at);
                let j = if i == last { at } else { i };
                assert(after[j] == pairs[i]);
                lemma_contents_at(strings, after, j);
                lemma_contents_at(strings, pairs, i);
            }
        }
    }
    assert(got =~= wanted);
}

/// A deleted key is gone; every other key still gives what it gave.
pub proof fn law_get_after_delete(
    strings: Map<u64, Seq<u8>>,
    pairs: Seq<(u64, u64)>,
    key: u64,
    other: u64,
)
    requires
        pairs_wf(strings, pairs),
    ensures
        value_of(strings, without(strings, pairs, key), other) == (if key_of(strings, other)
            == key_of(strings, key) {
            TAG_UNDEFINED
        } else {
            value_of(strings, pairs, other)
        }),
        has_key(strings, without(strings, pairs, key), other) == (key_of(strings, other) != key_of(
            strings,
            key,
        ) && has_key(strings, pairs, other)),
{
    law_delete_removes(strings, pairs, key);
    law_lookup_reads_contents(strings, pairs, other);
    law_lookup_reads_contents(strings, without(strings, pairs, key), other);
}

/// Deleting a key that was just added leaves exactly the pairs there were.
pub proof fn law_delete_undoes_set(
    strings: Map<u64, Seq<u8>>,
    pairs: Seq<(u64, u64)>,
    key: u64,
    value: u64,
)
    requires
        pairs_wf(strings, pairs),
        readable(strings, key),
        !has_key(strings, pairs, normal(key)),
    ensures
        without(strings, with(strings, pairs, normal(key), value), normal(key)) == pairs,
{
    let key = normal(key);
    let added = with(strings, pairs, key, value);
    law_set_inserts(strings, pairs, key, value);
    assert(holds(strings, added, key, pairs.len() as int));
    let at = position(strings, added, key);
    assert(holds(strings, added, key, at));
    lemma_one_position(strings, added, at, pairs.len() as int);
    assert(swap_removed(added, at) =~= pairs);
}

/// Setting a key twice is setting it once to the later value.
pub proof fn law_last_set_wins(
    strings: Map<u64, Seq<u8>>,
    pairs: Seq<(u64, u64)>,
    key: u64,
    first: u64,
    second: u64,
)
    requires
        pairs_wf(strings, pairs),
        readable(strings, key),
    ensures
        with(strings, with(strings, pairs, normal(key), first), normal(key), second) == with(
            strings,
            pairs,
            normal(key),
            second,
        ),
{
    let key = normal(key);
    let once = with(strings, pairs, key, first);
    law_set_inserts(strings, pairs, key, first);
    let at = if has_key(strings, pairs, key) {
        position(strings, pairs, key)
    } else {
        pairs.len() as int
    };
    assert(holds(strings, once, key, at));
    let again = position(strings, once, key);
    assert(holds(strings, once, key, again));
    lemma_one_position(strings, once, at, again);
    assert(with(strings, once, key, second) =~= with(strings, pairs, key, second));
}

/// An empty map has no keys, whatever lived at its address before.
pub proof fn law_empty_has_nothing(strings: Map<u64, Seq<u8>>, key: u64)
    ensures
        !has_key(strings, Seq::empty(), key),
        value_of(strings, Seq::empty(), key) == TAG_UNDEFINED,
        contents(strings, Seq::empty()) == Map::<Key, u64>::empty(),
{
    assert(contents(strings, Seq::<(u64, u64)>::empty()) =~= Map::<Key, u64>::empty());
}

/// `-0` and `+0` are stored, and found, as the same key; every other value is
/// stored as it is.
pub proof fn law_zeros_are_one_key(bits: u64)
    ensures
        normal(NEGATIVE_ZERO) == normal(0),
        bits != NEGATIVE_ZERO ==> normal(bits) == bits,
        normal(normal(bits)) == normal(bits),
{
}

/// Two string pointers with the same content are the same key, whatever tags
/// they travel under, and two with different content are not.
pub proof fn law_strings_are_keys_by_content(strings: Map<u64, Seq<u8>>, a: u64, b: u64)
    requires
        string_ptr(a) >= STRING_FLOOR,
        string_ptr(b) >= STRING_FLOOR,
    ensures
        (key_of(strings, a) == key_of(strings, b)) == (strings[string_ptr(a)]
            == strings[string_ptr(b)]),
{
}

/// Values that hold no string pointer are the same key only when their bits are
/// equal.
pub proof fn law_plain_values_are_keys_by_bits(strings: Map<u64, Seq<u8>>, a: u64, b: u64)
    requires
        string_ptr(a) == 0,
    ensures
        (key_of(strings, a) == key_of(strings, b)) == (a == b),
{
}

/// Equal keys enter a hasher alike and have the same hash code.
pub proof fn law_equal_keys_hash_alike(strings: Map<u64, Seq<u8>>, a: u64, b: u64)
    requires
        key_of(strings, a) == key_of(strings, b),
    ensures
        hash_feed(key_of(strings, a)) == hash_feed(key_of(strings, b)),
        hash_code(key_of(strings, a)) == hash_code(key_of(strings, b)),
{
}

/// A boxed map pointer names the same map as the raw one.
pub proof fn law_boxed_pointer_names_same_map(addr: u64)
    requires
        0 < addr <= PAYLOAD_MASK,
    ensures
        is_address(addr),
        clean_ptr(boxed_pointer(addr)) == clean_ptr(addr),
{
}

/// A change to one map leaves every other map as it was.
pub proof fn law_other_maps_keep_their_pairs(before: Heap, after: Heap, p: u64, other: u64)
    requires
        after.same_but_map(before, p),
        names_map(before, other),
        clean_ptr(other) != p,
    ensures
        names_map(after, other),
        pairs_at(after, other) == pairs_at(before, other),
{
    let q = clean_ptr(other);
    if q != 0 {
        assert(before.maps().remove(p).contains_key(q));
        assert(after.maps().remove(p).contains_key(q));
        assert(after.maps().remove(p)[q] == before.maps().remove(p)[q]);
    }
}

/// Lookups do not depend on the index: heaps with the same strings and maps
/// answer alike, whichever maps are indexed.
pub proof fn law_lookups_ignore_the_index(before: Heap, after: Heap, map: u64, key: u64)
    requires
        after.strings() == before.strings(),
        after.maps() == before.maps(),
        names_map(before, map),
    ensures
        names_map(after, map),
        has_key(after.strings(), pairs_at(after, map), key) == has_key(
            before.strings(),
            pairs_at(before, map),
            key,
        ),
        value_of(after.strings(), pairs_at(after, map), key) == value_of(
            before.strings(),
            pairs_at(before, map),
            key,
        ),
{
}

/// Of the pairs that a map is made from, each key keeps the value of its last
/// pair: one more pair inserts its key and value into the contents.
pub proof fn law_later_pairs_win(
    strings: Map<u64, Seq<u8>>,
    inputs: Seq<(u64, u64)>,
    last: (u64, u64),
)
    requires
        forall|i: int| 0 <= i < inputs.len() ==> readable(strings, #[trigger] inputs[i].0),
        readable(strings, last.0),
    ensures
        contents(strings, with_all(strings, Seq::empty(), inputs.push(last))) == contents(
            strings,
            with_all(strings, Seq::empty(), inputs),
        ).insert(key_of(strings, normal(last.0)), last.1),
{
    law_with_all_keeps_keys_distinct(strings, inputs);
    assert(inputs.push(last).drop_last() =~= inputs);
    law_set_inserts(
        strings,
        with_all(strings, Seq::empty(), inputs),
        last.0,
        last.1,
    );
}

/// However many pairs a map is made from, its keys are distinct.
pub proof fn law_with_all_keeps_keys_distinct(
    strings: Map<u64, Seq<u8>>,
    inputs: Seq<(u64, u64)>,
)
    requires
        forall|i: int| 0 <= i < inputs.len() ==> readable(strings, #[trigger] inputs[i].0),
    ensures
        pairs_wf(strings, with_all(strings, Seq::empty(), inputs)),
    decreases inputs.len(),
{
    if inputs.len() > 0 {
        let rest = inputs.drop_last();
        assert forall|i: int| 0 <= i < rest.len() implies readable(strings, #[trigger] rest[i].0) by {
            assert(rest[i] == inputs[i]);
        }
        law_with_all_keeps_keys_distinct(strings, rest);
        assert(inputs[inputs.len() - 1] == inputs.last());
        law_set_inserts(
            strings,
            with_all(strings, Seq::empty(), rest),
            inputs.last().0,
            inputs.last().1,
        );
    }
}

/// Setting the pairs of a map in turn, from nothing, gives back the pairs.
proof fn lemma_with_all_of_pairs(strings: Map<u64, Seq<u8>>, pairs: Seq<(u64, u64)>)
    requires
        pairs_wf(strings, pairs),
    ensures
        with_all(strings, Seq::empty(), pairs) == pairs,
    decreases pairs.len(),
{
    if pairs.len() > 0 {
        lemma_prefix_wf(strings, pairs);
        lemma_with_all_of_pairs(strings, pairs.drop_last());
    }
}

/// The array of pairs that a map writes describes its pairs.
proof fn lemma_pairs_in_entries(
    arrays: Map<u64, Seq<u64>>,
    pairs: Seq<(u64, u64)>,
    addrs: Seq<u64>,
    result: u64,
    n: int,
)
    requires
        0 <= n <= pairs.len() <= addrs.len(),
        addrs.no_duplicates(),
        !addrs.contains(result),
        forall|i: int| 0 <= i < addrs.len() ==> 0 < #[trigger] addrs[i] <= PAYLOAD_MASK,
    ensures
        pairs_in(
            with_pair_arrays(arrays, pairs, addrs, result),
            Seq::new(pairs.len(), |i: int| boxed_pointer(addrs[i])).take(n),
        ) == pairs.take(n),
    decreases n,
{
    let after = with_pair_arrays(arrays, pairs, addrs, result);
    let boxes = Seq::new(pairs.len(), |i: int| boxed_pointer(addrs[i]));
    if n > 0 {
        lemma_pairs_in_entries(arrays, pairs, addrs, result, n - 1);
        assert(boxes.take(n).drop_last() =~= boxes.take(n - 1));
        let used = addrs.take(pairs.len() as int);
        let a = addrs[n - 1];
        assert(used[n - 1] == a);
        assert(used.contains(a));
        assert(addrs.contains(a));
        let at = used.index_of(a);
        assert(used[at] == a);
        assert(addrs[at] == addrs[n - 1]);
        assert(inner_array(boxes[n - 1]) == a);
        assert(after[a] =~= seq![pairs[n - 1].0, pairs[n - 1].1]);
        assert(pair_in(after, boxes[n - 1]) == Some(pairs[n - 1]));
        assert(pairs.take(n) =~= pairs.take(n - 1).push(pairs[n - 1]));
    } else {
        assert(boxes.take(0) =~= Seq::<u64>::empty());
        assert(pairs.take(0) =~= Seq::<(u64, u64)>::empty());
    }
}

/// A map made from the array of a map's entries has the same pairs in the same
/// order.
pub proof fn law_entries_round_trip(
    strings: Map<u64, Seq<u8>>,
    arrays: Map<u64, Seq<u64>>,
    pairs: Seq<(u64, u64)>,
    addrs: Seq<u64>,
    result: u64,
)
    requires
        pairs_wf(strings, pairs),
        pairs.len() <= addrs.len(),
        addrs.no_duplicates(),
        !addrs.contains(result),
        forall|i: int| 0 <= i < addrs.len() ==> 0 < #[trigger] addrs[i] <= PAYLOAD_MASK,
    ensures
        ({
            let written = with_pair_arrays(arrays, pairs, addrs, result);
            with_all(strings, Seq::empty(), pairs_in(written, written[result])) == pairs
        }),
{
    let boxes = Seq::new(pairs.len(), |i: int| boxed_pointer(addrs[i]));
    lemma_pairs_in_entries(arrays, pairs, addrs, result, pairs.len() as int);
    assert(boxes.take(pairs.len() as int) =~= boxes);
    assert(pairs.take(pairs.len() as int) =~= pairs);
    lemma_with_all_of_pairs(strings, pairs);
}

/// An iteration over a map that nobody changes can always go on, visits the
/// map's pairs in order, each once, with the value before the key and the map
/// after it, and then ends.
pub proof fn law_foreach_visits_each_pair(heap: Heap, map: u64, cursor: ForEach)
    requires
        heap.wf(),
        names_map(heap, map),
        cursor.map == clean_ptr(map),
        cursor.size == pairs_at(heap, map).len(),
        cursor.next <= cursor.size,
    ensures
        cursor.steps_in(heap),
        cursor.calls_left(heap) == Seq::new(
            (cursor.size - cursor.next) as nat,
            |i: int|
                ClosureCall {
                    closure: cursor.closure,
                    value: pairs_at(heap, map)[cursor.next + i].1,
                    key: pairs_at(heap, map)[cursor.next + i].0,
                    map: boxed_pointer(cursor.map),
                },
        ),
    decreases cursor.size - cursor.next,
{
    let pairs = pairs_at(heap, map);
    let wanted = Seq::new(
        (cursor.size - cursor.next) as nat,
        |i: int|
            ClosureCall {
                closure: cursor.closure,
                value: pairs[cursor.next + i].1,
                key: pairs[cursor.next + i].0,
                map: boxed_pointer(cursor.map),
            },
    );
    if cursor.next < cursor.size {
        let then = ForEach { next: (cursor.next + 1) as u32, ..cursor };
        law_foreach_visits_each_pair(heap, map, then);
        assert(heap.maps().contains_key(cursor.map));
        assert(cursor.calls_left(heap) =~= wanted);
    } else {
        assert(cursor.calls_left(heap) =~= wanted);
    }
}

} // verus!
