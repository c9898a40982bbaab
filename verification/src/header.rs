//! The header of one map and its entries buffer.

use vstd::prelude::*;

verus! {

/// Bytes of one entry: a key word and a value word.
pub const ENTRY_SIZE: usize = 16;

/// Capacity of a map that is made without one.
pub const DEFAULT_CAPACITY: u32 = 4;

/// Size and alignment of an entries buffer, in bytes.
#[derive(Clone, Copy, Debug, PartialEq, Eq)]
pub struct EntriesLayout {
    pub size: usize,
    pub align: usize,
}

/// The bytes that `capacity` entries take are within what one allocation may
/// hold.
pub open spec fn layout_fits(capacity: int) -> bool {
    capacity * 16 <= isize::MAX
}

/// The layout of an entries buffer for `capacity` entries.
pub fn entries_layout(capacity: usize) -> (layout: EntriesLayout)
    requires
        layout_fits(capacity as int),
    ensures
        layout.size == (if capacity == 0 {
            8int
        } else {
            capacity * 16
        }),
        layout.align == 8,
{
    let entries_size: usize = capacity * ENTRY_SIZE;
    let size: usize = if entries_size < 8 {
        8
    } else {
        entries_size
    };
    EntriesLayout { size, align: 8 }
}

/// Whether a buffer of `capacity` entries can be allocated.
pub fn capacity_fits(capacity: u32) -> (r: bool)
    ensures
        r == layout_fits(capacity as int),
{
    capacity as u64 * 16 <= isize::MAX as u64
}

/// A map: how many entries it holds, how many its buffer has room for, and the
/// buffer, in which entry `i` has its key at word `2 * i` and its value at the
/// word after.
pub struct MapHeader {
    /// Number of key-value pairs in the map.
    pub size: u32,
    /// Number of pairs that the buffer has room for.
    pub capacity: u32,
    /// The entries buffer.
    pub entries: Vec<u64>,
}

impl MapHeader {
    /// The buffer has room for exactly `capacity` entries, and `size` of them
    /// are live.
    pub open spec fn wf(&self) -> bool {
        &&& 0 < self.capacity
        &&& self.size <= self.capacity
        &&& self.entries@.len() == 2 * self.capacity
        &&& layout_fits(self.capacity as int)
    }

    /// The pair in slot `i` of the buffer, live or not.
    pub open spec fn slot(&self, i: int) -> (u64, u64) {
        (self.entries@[2 * i], self.entries@[2 * i + 1])
    }

    /// The key-value pairs of the map, in buffer order.
    pub open spec fn pairs(&self) -> Seq<(u64, u64)> {
        Seq::new(self.size as nat, |i: int| self.slot(i))
    }

    /// Every slot of `other`'s buffer but slot `i` is as it was.
    pub open spec fn same_slots_but(&self, other: MapHeader, i: int) -> bool {
        forall|j: int|
            0 <= j < other.capacity && j != i ==> #[trigger] self.slot(j) == other.slot(j)
    }

    /// The keys of the map, in buffer order.
    pub open spec fn keys(&self) -> Seq<u64> {
        Seq::new(self.size as nat, |i: int| self.entries@[2 * i])
    }

    /// There is room for one more entry, or the buffer can be doubled.
    pub open spec fn growable(&self) -> bool {
        self.size < self.capacity || (2 * self.capacity <= u32::MAX && layout_fits(
            2 * self.capacity,
        ))
    }

    /// The capacity with room for one more entry.
    pub open spec fn grown_capacity(&self) -> int {
        if self.size < self.capacity {
            self.capacity as int
        } else {
            2 * self.capacity
        }
    }

    /// An empty map with a zeroed buffer.
    pub fn with_capacity(capacity: u32) -> (header: MapHeader)
        requires
            0 < capacity,
            layout_fits(capacity as int),
        ensures
            header.wf(),
            header.capacity == capacity,
            header.pairs() == Seq::<(u64, u64)>::empty(),
            header.entries@ == Seq::new((2 * capacity) as nat, |i: int| 0u64),
    {
        let layout = entries_layout(capacity as usize);
        let words: usize = layout.size / 8;
        let mut entries: Vec<u64> = Vec::with_capacity(words);
        let mut filled: usize = 0;
        while filled < words
            invariant
                filled <= words,
                entries@ == Seq::new(filled as nat, |i: int| 0u64),
            decreases words - filled,
        {
            entries.push(0);
            filled = filled + 1;
        }
        let header = MapHeader { size: 0, capacity, entries };
        assert(header.pairs() =~= Seq::<(u64, u64)>::empty());
        header
    }

    /// The key of live entry `i`.
    pub fn key_at(&self, i: u32) -> (key: u64)
        requires
            self.wf(),
            i < self.size,
        ensures
            key == self.pairs()[i as int].0,
    {
        self.entries[i as usize * 2]
    }

    /// The value of live entry `i`.
    pub fn value_at(&self, i: u32) -> (value: u64)
        requires
            self.wf(),
            i < self.size,
        ensures
            value == self.pairs()[i as int].1,
    {
        self.entries[i as usize * 2 + 1]
    }

    /// The pair in slot `i` of the buffer, live or not.
    pub fn slot_at(&self, i: u32) -> (slot: (u64, u64))
        requires
            self.wf(),
            i < self.capacity,
        ensures
            slot == self.slot(i as int),
    {
        (self.entries[i as usize * 2], self.entries[i as usize * 2 + 1])
    }

    /// Overwrites the value of live entry `i`.
    pub fn set_value(&mut self, i: u32, value: u64)
        requires
            old(self).wf(),
            i < old(self).size,
        ensures
            final(self).wf(),
            final(self).capacity == old(self).capacity,
            final(self).pairs() == old(self).pairs().update(
                i as int,
                (old(self).pairs()[i as int].0, value),
            ),
            final(self).same_slots_but(*old(self), i as int),
    {
        let ghost before = *self;
        self.entries[i as usize * 2 + 1] = value;
        assert(self.pairs() =~= before.pairs().update(
            i as int,
            (before.pairs()[i as int].0, value),
        ));
    }

    /// Doubles the buffer when it has no room for one more entry.
    pub fn ensure_capacity(&mut self)
        requires
            old(self).wf(),
            old(self).growable(),
        ensures
            final(self).wf(),
            final(self).size == old(self).size,
            final(self).size < final(self).capacity,
            final(self).capacity == old(self).grown_capacity(),
            final(self).pairs() == old(self).pairs(),
            forall|j: int|
                0 <= j < old(self).capacity ==> #[trigger] final(self).slot(j) == old(self).slot(j),
    {
        if self.size < self.capacity {
            return;
        }
        let ghost before = *self;
        let new_capacity: u32 = self.capacity * 2;
        let layout = entries_layout(new_capacity as usize);
        let words: usize = layout.size / 8;
        while self.entries.len() < words
            invariant
                self.entries@.len() <= words,
                before.entries@.len() <= self.entries@.len(),
                forall|i: int|
                    0 <= i < before.entries@.len() ==> self.entries@[i] == before.entries@[i],
                self.size == before.size,
                self.capacity == before.capacity,
            decreases words - self.entries@.len(),
        {
            self.entries.push(0);
        }
        self.capacity = new_capacity;
        assert(self.pairs() =~= before.pairs());
    }

    /// Writes a new entry behind the live ones, growing the buffer if needed.
    pub fn append(&mut self, key: u64, value: u64)
        requires
            old(self).wf(),
            old(self).growable(),
        ensures
            final(self).wf(),
            final(self).capacity == old(self).grown_capacity(),
            final(self).pairs() == old(self).pairs().push((key, value)),
            final(self).same_slots_but(*old(self), old(self).size as int),
    {
        let ghost before = *self;
        self.ensure_capacity();
        let ghost grown = *self;
        let at: usize = self.size as usize;
        self.entries[at * 2] = key;
        self.entries[at * 2 + 1] = value;
        self.size = self.size + 1;
        assert forall|j: int| 0 <= j < before.capacity && j != before.size implies #[trigger] self.slot(
            j,
        ) == before.slot(j) by {
            assert(grown.slot(j) == before.slot(j));
        }
        assert(self.pairs() =~= before.pairs().push((key, value)));
    }

    /// Removes entry `i` by moving the last entry into its slot. Gives the key
    /// that moved, if one did.
    pub fn swap_pop(&mut self, i: u32) -> (moved: Option<u64>)
        requires
            old(self).wf(),
            i < old(self).size,
        ensures
            final(self).wf(),
            final(self).capacity == old(self).capacity,
            final(self).pairs() == swap_removed(old(self).pairs(), i as int),
            final(self).same_slots_but(*old(self), i as int),
            moved == (if i + 1 < old(self).size {
                Some(old(self).pairs().last().0)
            } else {
                None
            }),
    {
        let ghost before = *self;
        let last: u32 = self.size - 1;
        let mut moved: Option<u64> = None;
        if i < last {
            let last_key: u64 = self.key_at(last);
            let last_value: u64 = self.value_at(last);
            self.entries[i as usize * 2] = last_key;
            self.entries[i as usize * 2 + 1] = last_value;
            moved = Some(last_key);
        }
        self.size = last;
        assert(self.pairs() =~= swap_removed(before.pairs(), i as int));
        moved
    }
}

/// `pairs` without the pair at `i`, whose place the last pair takes.
pub open spec fn swap_removed(pairs: Seq<(u64, u64)>, i: int) -> Seq<(u64, u64)> {
    pairs.update(i, pairs.last()).drop_last()
}

} // verus!
