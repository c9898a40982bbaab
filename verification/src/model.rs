//! What the operations of a map do to its pairs. Keys are normalized, but for
//! those of the inputs of `with_all`.

use vstd::prelude::*;

use crate::header::swap_removed;
use crate::key::{key_of, Key};
use crate::value::{
    normal, payload, tag, ARRAY_TAG, POINTER_TAG, RAW_POINTER_FLOOR, STRING_TAG, TAG_UNDEFINED,
};

verus! {

/// Pair `i` is the one of `key`.
pub open spec fn holds(
    strings: Map<u64, Seq<u8>>,
    pairs: Seq<(u64, u64)>,
    key: u64,
    i: int,
) -> bool {
    0 <= i < pairs.len() && key_of(strings, pairs[i].0) == key_of(strings, key)
}

/// Some pair is the one of `key`.
pub open spec fn has_key(strings: Map<u64, Seq<u8>>, pairs: Seq<(u64, u64)>, key: u64) -> bool {
    exists|i: int| holds(strings, pairs, key, i)
}

/// Where the pair of `key` stands.
pub open spec fn position(strings: Map<u64, Seq<u8>>, pairs: Seq<(u64, u64)>, key: u64) -> int {
    choose|i: int| holds(strings, pairs, key, i)
}

/// The value of `key`, `undefined` when there is none.
pub open spec fn value_of(strings: Map<u64, Seq<u8>>, pairs: Seq<(u64, u64)>, key: u64) -> u64 {
    if has_key(strings, pairs, key) {
        pairs[position(strings, pairs, key)].1
    } else {
        TAG_UNDEFINED
    }
}

/// The pairs after `key` was given `value`: in place when the key is there,
/// behind the others when it is new.
pub open spec fn with(
    strings: Map<u64, Seq<u8>>,
    pairs: Seq<(u64, u64)>,
    key: u64,
    value: u64,
) -> Seq<(u64, u64)> {
    if has_key(strings, pairs, key) {
        let i = position(strings, pairs, key);
        pairs.update(i, (pairs[i].0, value))
    } else {
        pairs.push((key, value))
    }
}

/// The pairs after `key` was deleted: the last pair takes its place.
pub open spec fn without(
    strings: Map<u64, Seq<u8>>,
    pairs: Seq<(u64, u64)>,
    key: u64,
) -> Seq<(u64, u64)> {
    if has_key(strings, pairs, key) {
        swap_removed(pairs, position(strings, pairs, key))
    } else {
        pairs
    }
}

/// The pairs after each of `inputs` was set in turn.
pub open spec fn with_all(
    strings: Map<u64, Seq<u8>>,
    pairs: Seq<(u64, u64)>,
    inputs: Seq<(u64, u64)>,
) -> Seq<(u64, u64)>
    decreases inputs.len(),
{
    if inputs.len() == 0 {
        pairs
    } else {
        let before = with_all(strings, pairs, inputs.drop_last());
        with(strings, before, normal(inputs.last().0), inputs.last().1)
    }
}

/// The map from keys to values that the pairs describe.
pub open spec fn contents(strings: Map<u64, Seq<u8>>, pairs: Seq<(u64, u64)>) -> Map<Key, u64> {
    Map::new(
        |k: Key| exists|i: int| 0 <= i < pairs.len() && key_of(strings, #[trigger] pairs[i].0) == k,
        |k: Key|
            pairs[choose|i: int|
                0 <= i < pairs.len() && key_of(strings, #[trigger] pairs[i].0) == k].1,
    )
}

/// The address of the array that an array element holds, 0 for none.
pub open spec fn inner_array(element: u64) -> u64 {
    if tag(element) == POINTER_TAG || tag(element) == STRING_TAG || tag(element) == ARRAY_TAG {
        payload(element)
    } else if tag(element) == 0 && payload(element) > RAW_POINTER_FLOOR {
        payload(element)
    } else {
        0
    }
}

/// The pair that an array element describes: the first two elements of the
/// array it holds.
pub open spec fn pair_in(arrays: Map<u64, Seq<u64>>, element: u64) -> Option<(u64, u64)> {
    let inner = inner_array(element);
    if inner != 0 && arrays[inner].len() >= 2 {
        Some((arrays[inner][0], arrays[inner][1]))
    } else {
        None
    }
}

/// The pairs that the elements of an array describe, in order; elements that
/// describe none are passed over.
pub open spec fn pairs_in(arrays: Map<u64, Seq<u64>>, elements: Seq<u64>) -> Seq<(u64, u64)>
    decreases elements.len(),
{
    if elements.len() == 0 {
        Seq::empty()
    } else {
        let before = pairs_in(arrays, elements.drop_last());
        match pair_in(arrays, elements.last()) {
            Some(pair) => before.push(pair),
            None => before,
        }
    }
}

} // verus!
