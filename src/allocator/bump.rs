//! A bump allocator: blocks are carved from the heap in address order and
//! the whole heap is reclaimed once every block has been returned.
use super::{lemma_align_up, spec_align_up, Layout};
use crate::allocator::linked_list::checked_align_up;
use vstd::prelude::*;

verus! {

pub struct BumpAllocator {
    heap_start: usize,
    heap_end: usize,
    next: usize,
    allocations: usize,
}

impl BumpAllocator {
    pub closed spec fn spec_heap_start(&self) -> usize {
        self.heap_start
    }

    pub closed spec fn spec_heap_end(&self) -> usize {
        self.heap_end
    }

    /// The first address not yet handed out.
    pub closed spec fn spec_next(&self) -> usize {
        self.next
    }

    /// How many blocks are out.
    pub closed spec fn spec_allocations(&self) -> usize {
        self.allocations
    }

    /// The result of `allocate(layout)` on `old` is `r`, leaving `new`.
    pub open spec fn allocate_post(old: Self, layout: Layout, r: usize, new: Self) -> bool {
        let start = spec_align_up(old.spec_next() as int, layout.spec_align() as int);
        let end = start + layout.spec_size();
        &&& new.spec_heap_start() == old.spec_heap_start()
        &&& new.spec_heap_end() == old.spec_heap_end()
        &&& if end <= old.spec_heap_end() {
            &&& r == start
            &&& new.spec_next() == end
            &&& new.spec_allocations() == old.spec_allocations() + 1
        } else {
            &&& r == 0
            &&& new.spec_next() == old.spec_next()
            &&& new.spec_allocations() == old.spec_allocations()
        }
    }

    /// The result of `deallocate()` on `old`, leaving `new`.
    pub open spec fn deallocate_post(old: Self, new: Self) -> bool {
        &&& new.spec_heap_start() == old.spec_heap_start()
        &&& new.spec_heap_end() == old.spec_heap_end()
        &&& new.spec_allocations() == old.spec_allocations() - 1
        &&& new.spec_next() == if new.spec_allocations() == 0 {
            old.spec_heap_start()
        } else {
            old.spec_next()
        }
    }

    /// An allocator over an empty heap.
    pub fn new() -> (r: Self)
        ensures
            r.spec_heap_start() == 0,
            r.spec_heap_end() == 0,
            r.spec_next() == 0,
            r.spec_allocations() == 0,
    {
        BumpAllocator { heap_start: 0, heap_end: 0, next: 0, allocations: 0 }
    }

    /// How many blocks are out.
    pub fn allocations(&self) -> (r: usize)
        ensures
            r == self.spec_allocations(),
    {
        self.allocations
    }

    /// Gives the allocator the `heap_size` bytes at `heap_start`; the end of
    /// the heap saturates at the top of the address space.
    pub fn init(&mut self, heap_start: usize, heap_size: usize)
        ensures
            final(self).spec_heap_start() == heap_start,
            final(self).spec_heap_end() == if heap_start + heap_size <= usize::MAX {
                (heap_start + heap_size) as usize
            } else {
                usize::MAX
            },
            final(self).spec_next() == heap_start,
            final(self).spec_allocations() == old(self).spec_allocations(),
    {
        self.heap_start = heap_start;
        self.heap_end = if heap_size > usize::MAX - heap_start {
            usize::MAX
        } else {
            heap_start + heap_size
        };
        self.next = heap_start;
    }

    /// Carves the next block for `layout`, or answers with the null address
    /// when it would pass the end of the heap. `next` never decreases here.
    pub fn allocate(&mut self, layout: Layout) -> (r: usize)
        requires
            layout.wf(),
            old(self).spec_allocations() < usize::MAX,
        ensures
            Self::allocate_post(*old(self), layout, r, *final(self)),
            final(self).spec_next() >= old(self).spec_next(),
    {
        proof {
            lemma_align_up(self.next as int, layout.spec_align() as int);
            reveal_with_fuel(super::is_power_of_two, 1);
        }
        let alloc_start = match checked_align_up(self.next, layout.align()) {
            Some(s) => s,
            None => return 0,
        };
        if layout.size() > usize::MAX - alloc_start {
            return 0;
        }
        let alloc_end = alloc_start + layout.size();
        if alloc_end > self.heap_end {
            0
        } else {
            self.next = alloc_end;
            self.allocations = self.allocations + 1;
            alloc_start
        }
    }

    /// Records that one block came back; once none is out, the whole heap is
    /// free again.
    pub fn deallocate(&mut self)
        requires
            old(self).spec_allocations() > 0,
        ensures
            Self::deallocate_post(*old(self), *final(self)),
    {
        self.allocations = self.allocations - 1;
        if self.allocations == 0 {
            self.next = self.heap_start;
        }
    }
}

} // verus!
