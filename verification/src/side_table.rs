//! The index of one map: from the hash codes of its keys to their entries.

use std::collections::HashMap;
use vstd::prelude::*;

use crate::header::MapHeader;
use crate::key::{hash_code, jsvalue_eq, key_of, readable, JSValueKey};
use crate::strings::StringTable;

verus! {

broadcast use vstd::std_specs::hash::group_hash_axioms;

/// For each hash code, the entries whose keys have that code.
pub struct SideTable {
    slots: HashMap<u64, Vec<u32>>,
}

impl SideTable {
    /// The pairs of a hash code and an entry that the table lists.
    pub closed spec fn listed(&self) -> Set<(u64, u32)> {
        Set::new(
            |p: (u64, u32)| self.slots@.contains_key(p.0) && self.slots@[p.0]@.contains(p.1),
        )
    }

    /// The table lists each entry of `keys` under its hash code, and nothing
    /// else.
    pub open spec fn agrees(&self, keys: Seq<u64>, strings: Map<u64, Seq<u8>>) -> bool {
        self.listed() == listing(keys, strings)
    }

    /// A table that lists nothing.
    pub fn new() -> (table: SideTable)
        ensures
            table.listed() == Set::<(u64, u32)>::empty(),
    {
        let table = SideTable { slots: HashMap::new() };
        assert(table.listed() =~= Set::<(u64, u32)>::empty());
        table
    }

    /// Empties the table.
    pub fn clear(&mut self)
        ensures
            final(self).listed() == Set::<(u64, u32)>::empty(),
    {
        self.slots.clear();
        assert(self.listed() =~= Set::<(u64, u32)>::empty());
    }

    /// Lists entry `i` under `code`.
    pub fn insert(&mut self, code: u64, i: u32)
        ensures
            final(self).listed() == old(self).listed().insert((code, i)),
    {
        let ghost before = *self;
        let mut bucket: Vec<u32> = match self.slots.remove(&code) {
            Some(b) => b,
            None => Vec::new(),
        };
        let ghost earlier = bucket@;
        bucket.push(i);
        self.slots.insert(code, bucket);
        proof {
            assert forall|p: (u64, u32)| #[trigger]
                self.listed().contains(p) == before.listed().insert((code, i)).contains(p) by {
                lemma_push_contains(earlier, i, p.1);
                if p.0 == code && !before.slots@.contains_key(code) {
                    assert(!earlier.contains(p.1));
                }
            }
            assert(self.listed() =~= before.listed().insert((code, i)));
        }
    }

    /// Takes entry `i` off the list of `code`.
    pub fn remove(&mut self, code: u64, i: u32)
        ensures
            final(self).listed() == old(self).listed().remove((code, i)),
    {
        let ghost before = *self;
        match self.slots.remove(&code) {
            Some(bucket) => {
                let mut kept: Vec<u32> = Vec::new();
                for n in 0..bucket.len()
                    invariant
                        forall|j: u32|
                            #![trigger kept@.contains(j)]
                            kept@.contains(j) == (bucket@.take(n as int).contains(j) && j != i),
                {
                    let ghost earlier = kept@;
                    let ghost seen = bucket@.take(n as int);
                    if bucket[n] != i {
                        kept.push(bucket[n]);
                    }
                    proof {
                        let head = bucket@[n as int];
                        assert(bucket@.take(n + 1) =~= seen.push(head));
                        assert forall|j: u32|
                            #![trigger kept@.contains(j)]
                            kept@.contains(j) == (bucket@.take(n + 1).contains(j) && j != i) by {
                            lemma_push_contains(seen, head, j);
                            lemma_push_contains(earlier, head, j);
                            assert(earlier.contains(j) == (seen.contains(j) && j != i));
                        }
                    }
                }
                assert(bucket@.take(bucket@.len() as int) =~= bucket@);
                self.slots.insert(code, kept);
            },
            None => {},
        }
        assert(self.listed() =~= before.listed().remove((code, i)));
    }

    /// The entry of `header` whose key is `key`, found through its hash code.
    pub fn lookup(&self, header: &MapHeader, strings: &StringTable, key: u64) -> (r: Option<u32>)
        requires
            header.wf(),
            strings.wf(),
            self.agrees(header.keys(), strings@),
            readable(strings@, key),
            forall|i: int| 0 <= i < header.size ==> readable(strings@, #[trigger] header.keys()[i]),
        ensures
            match r {
                Some(i) => i < header.size && key_of(strings@, header.keys()[i as int]) == key_of(
                    strings@,
                    key,
                ),
                None => forall|i: int|
                    0 <= i < header.size ==> key_of(strings@, #[trigger] header.keys()[i])
                        != key_of(strings@, key),
            },
    {
        let code: u64 = JSValueKey(key).code(strings);
        let ghost keys = header.keys();
        match self.slots.get(&code) {
            Some(bucket) => {
                for n in 0..bucket.len()
                    invariant
                        header.wf(),
                        keys == header.keys(),
                        readable(strings@, key),
                        forall|i: int| 0 <= i < header.size ==> readable(strings@, #[trigger] keys[i]),
                        forall|m: int|
                            0 <= m < n && #[trigger] bucket@[m] < header.size ==> key_of(
                                strings@,
                                keys[bucket@[m] as int],
                            ) != key_of(strings@, key),
                {
                    let i: u32 = bucket[n];
                    if i < header.size {
                        let candidate: u64 = header.key_at(i);
                        assert(candidate == keys[i as int]);
                        if jsvalue_eq(strings, candidate, key) {
                            return Some(i);
                        }
                    }
                }
                assert forall|i: int| 0 <= i < header.size implies key_of(
                    strings@,
                    #[trigger] keys[i],
                ) != key_of(strings@, key) by {
                    if key_of(strings@, keys[i]) == key_of(strings@, key) {
                        assert(listing(keys, strings@).contains((code, i as u32)));
                        assert(self.listed().contains((code, i as u32)));
                        assert(bucket@.contains(i as u32));
                        let m = choose|m: int| 0 <= m < bucket@.len() && bucket@[m] == i as u32;
                        assert(bucket@[m] < header.size);
                    }
                }
                None
            },
            None => {
                assert forall|i: int| 0 <= i < header.size implies key_of(
                    strings@,
                    #[trigger] keys[i],
                ) != key_of(strings@, key) by {
                    if key_of(strings@, keys[i]) == key_of(strings@, key) {
                        assert(listing(keys, strings@).contains((code, i as u32)));
                        assert(self.listed().contains((code, i as u32)));
                    }
                }
                None
            },
        }
    }

    /// The full table of a map, entry by entry.
    pub fn build(header: &MapHeader, strings: &StringTable) -> (table: SideTable)
        requires
            header.wf(),
            strings.wf(),
            forall|i: int| 0 <= i < header.size ==> readable(strings@, #[trigger] header.keys()[i]),
        ensures
            table.agrees(header.keys(), strings@),
    {
        let mut table = SideTable::new();
        let ghost keys = header.keys();
        assert(listing(keys.take(0), strings@) =~= Set::<(u64, u32)>::empty());
        let mut i: u32 = 0;
        while i < header.size
            invariant
                header.wf(),
                strings.wf(),
                keys == header.keys(),
                i <= header.size,
                forall|n: int| 0 <= n < header.size ==> readable(strings@, #[trigger] keys[n]),
                table.listed() == listing(keys.take(i as int), strings@),
            decreases header.size - i,
        {
            let key: u64 = header.key_at(i);
            assert(key == keys[i as int]);
            table.insert(JSValueKey(key).code(strings), i);
            assert(keys.take(i + 1) =~= keys.take(i as int).push(key));
            proof {
                lemma_listing_push(keys.take(i as int), key, strings@);
            }
            i = i + 1;
        }
        assert(keys.take(keys.len() as int) =~= keys);
        table
    }
}

/// What a table of `keys` lists: each entry under the hash code of its key.
pub open spec fn listing(keys: Seq<u64>, strings: Map<u64, Seq<u8>>) -> Set<(u64, u32)> {
    Set::new(
        |p: (u64, u32)|
            (p.1 as int) < keys.len() && hash_code(key_of(strings, keys[p.1 as int])) == p.0,
    )
}

proof fn lemma_push_contains(s: Seq<u32>, head: u32, j: u32)
    ensures
        s.push(head).contains(j) == (s.contains(j) || j == head),
{
    if s.contains(j) {
        let n = choose|n: int| 0 <= n < s.len() && s[n] == j;
        assert(s.push(head)[n] == j);
    }
    assert(s.push(head)[s.len() as int] == head);
    if s.push(head).contains(j) && j != head {
        let n = choose|n: int| 0 <= n < s.push(head).len() && s.push(head)[n] == j;
        assert(s[n] == j);
    }
}

/// A new entry behind the others adds one line to the listing.
pub proof fn lemma_listing_push(keys: Seq<u64>, key: u64, strings: Map<u64, Seq<u8>>)
    requires
        keys.len() < u32::MAX,
    ensures
        listing(keys.push(key), strings) == listing(keys, strings).insert(
            (hash_code(key_of(strings, key)), keys.len() as u32),
        ),
{
    assert(listing(keys.push(key), strings) =~= listing(keys, strings).insert(
        (hash_code(key_of(strings, key)), keys.len() as u32),
    ));
}

/// Removing entry `i` by moving the last entry into its place: the line of `i`
/// goes, and the line of the last entry is renumbered.
pub proof fn lemma_listing_swap_remove(keys: Seq<u64>, i: int, strings: Map<u64, Seq<u8>>)
    requires
        0 <= i < keys.len() <= u32::MAX,
    ensures
        ({
            let last = keys.len() - 1;
            let gone = listing(keys, strings).remove(
                (hash_code(key_of(strings, keys[i])), i as u32),
            );
            let after = keys.update(i, keys.last()).drop_last();
            let moved = hash_code(key_of(strings, keys[last]));
            listing(after, strings) == if i < last {
                gone.remove((moved, last as u32)).insert((moved, i as u32))
            } else {
                gone
            }
        }),
{
    let last = keys.len() - 1;
    let gone = listing(keys, strings).remove((hash_code(key_of(strings, keys[i])), i as u32));
    let after = keys.update(i, keys.last()).drop_last();
    let moved = hash_code(key_of(strings, keys[last]));
    if i < last {
        assert(listing(after, strings) =~= gone.remove((moved, last as u32)).insert(
            (moved, i as u32),
        ));
    } else {
        assert(listing(after, strings) =~= gone);
    }
}

} // verus!
