//! Iteration over a map with a callback.
//!
//! The callback is code of the running program and may change the map between
//! two calls, so the iteration is a cursor: the caller makes the call that a
//! step gives and then asks for the next step.

use vstd::prelude::*;

use crate::heap::Heap;
use crate::map::{names_map, pairs_at};
use crate::value::{
    boxed_pointer, clean_map_ptr, clean_ptr, nanbox_pointer, payload, payload_of,
};

verus! {

/// A call of a closure with a value, a key and the boxed pointer of the map.
#[derive(Clone, Copy, Debug, PartialEq, Eq)]
pub struct ClosureCall {
    pub closure: u64,
    pub value: u64,
    pub key: u64,
    pub map: u64,
}

/// An iteration under way: entries `next` to `size` of the map at `map` are
/// still to be visited.
#[derive(Clone, Copy, Debug, PartialEq, Eq)]
pub struct ForEach {
    pub map: u64,
    pub size: u32,
    pub next: u32,
    pub closure: u64,
}

/// Starts an iteration over the entries that the map has now. The closure is
/// at the payload of `callback`, boxed or raw.
pub fn js_map_foreach(heap: &Heap, map: u64, callback: u64) -> (cursor: ForEach)
    requires
        names_map(*heap, map),
    ensures
        cursor.map == clean_ptr(map),
        cursor.size == pairs_at(*heap, map).len(),
        cursor.next == 0,
        cursor.closure == payload(callback),
{
    let p: u64 = clean_map_ptr(map);
    let closure: u64 = payload_of(callback);
    let size: u32 = match heap.header(p) {
        Some(header) => if p == 0 {
            0
        } else {
            header.size
        },
        None => 0,
    };
    ForEach { map: p, size, next: 0, closure }
}

impl ForEach {
    /// All entries were visited, or the next one is still in the map's buffer.
    pub open spec fn steps_in(&self, heap: Heap) -> bool {
        self.next < self.size ==> heap.maps().contains_key(self.map) && self.next
            < heap.maps()[self.map].capacity
    }

    /// The call that visits slot `i` of the map's buffer.
    pub open spec fn visit(&self, heap: Heap, i: int) -> ClosureCall {
        let slot = heap.maps()[self.map].slot(i);
        ClosureCall {
            closure: self.closure,
            value: slot.1,
            key: slot.0,
            map: boxed_pointer(self.map),
        }
    }

    /// The calls that are left when nobody changes the heap.
    pub open spec fn calls_left(&self, heap: Heap) -> Seq<ClosureCall>
        decreases self.size - self.next,
    {
        if self.next >= self.size {
            Seq::empty()
        } else {
            let then = ForEach { next: (self.next + 1) as u32, ..*self };
            seq![self.visit(heap, self.next as int)] + then.calls_left(heap)
        }
    }

    /// Whether all entries were visited or the next one is still in the map's
    /// buffer.
    pub fn can_step(&self, heap: &Heap) -> (r: bool)
        ensures
            r == self.steps_in(*heap),
    {
        if self.next < self.size {
            match heap.header(self.map) {
                Some(header) => self.next < header.capacity,
                None => false,
            }
        } else {
            true
        }
    }

    /// The next call, read from the buffer as it is now, or `None` when all
    /// entries were visited.
    pub fn step(&mut self, heap: &Heap) -> (call: Option<ClosureCall>)
        requires
            heap.wf(),
            old(self).steps_in(*heap),
        ensures
            old(self).next >= old(self).size ==> call is None && *final(self) == *old(self),
            old(self).next < old(self).size ==> {
                &&& call == Some(old(self).visit(*heap, old(self).next as int))
                &&& *final(self) == (ForEach { next: (old(self).next + 1) as u32, ..*old(self) })
            },
    {
        if self.next >= self.size {
            return None;
        }
        let i: u32 = self.next;
        match heap.header(self.map) {
            Some(header) => {
                let (key, value) = header.slot_at(i);
                self.next = i + 1;
                let map: u64 = nanbox_pointer(self.map);
                Some(ClosureCall { closure: self.closure, value, key, map })
            },
            None => None,
        }
    }
}

} // verus!
