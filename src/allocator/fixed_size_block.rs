//! A segregated-fit allocator: one free list per block size, with the
//! first-fit allocator behind it for everything the lists cannot serve.
use super::linked_list::{
    adjustable, disjoint, lemma_no_fit_when_too_big,
    lemma_oversized_request_fails as lemma_oversized_request_fails_first_fit, spec_size_align,
    LinkedListAllocator, ListNode, NODE_ALIGN,
};
use super::{is_power_of_two, lemma_align_up, Layout};
use vstd::prelude::*;

verus! {

/// The number of block sizes.
pub const NUM_CLASSES: usize = 9;

/// The block size of class `i`: 8, 16, 32, ..., 2048 bytes.
pub open spec fn spec_block_size(i: int) -> int
    decreases i,
{
    if i <= 0 {
        8
    } else {
        2 * spec_block_size(i - 1)
    }
}

/// The least class at or after `i` whose blocks hold `required` bytes.
pub open spec fn class_from(required: int, i: int) -> Option<int>
    decreases NUM_CLASSES - i,
{
    if i >= NUM_CLASSES {
        None
    } else if spec_block_size(i) >= required {
        Some(i)
    } else {
        class_from(required, i + 1)
    }
}

pub proof fn lemma_class_from_range(required: int, i: int)
    requires
        0 <= i,
    ensures
        class_from(required, i) matches Some(j) ==> i <= j < NUM_CLASSES && spec_block_size(j) >= required,
    decreases NUM_CLASSES - i,
{
    if i < NUM_CLASSES && spec_block_size(i) < required {
        lemma_class_from_range(required, i + 1);
    }
}

/// What a layout needs from a block: its size or its alignment, whichever
/// is larger.
pub open spec fn required_of(layout: Layout) -> int {
    if layout.spec_size() >= layout.spec_align() {
        layout.spec_size() as int
    } else {
        layout.spec_align() as int
    }
}

/// The class that serves `layout`, if any.
pub open spec fn class_of(layout: Layout) -> Option<int> {
    class_from(required_of(layout), 0)
}

/// The block size of class `i`.
pub fn block_size(i: usize) -> (r: usize)
    requires
        i < NUM_CLASSES,
    ensures
        r == spec_block_size(i as int),
        is_power_of_two(r as int),
        8 <= r <= 2048,
{
    proof {
        reveal_with_fuel(spec_block_size, 9);
        reveal_with_fuel(is_power_of_two, 12);
    }
    if i == 0 {
        8
    } else if i == 1 {
        16
    } else if i == 2 {
        32
    } else if i == 3 {
        64
    } else if i == 4 {
        128
    } else if i == 5 {
        256
    } else if i == 6 {
        512
    } else if i == 7 {
        1024
    } else {
        2048
    }
}

/// The class that serves `layout`: the least block size that holds both its
/// size and its alignment.
pub fn list_index(layout: &Layout) -> (r: Option<usize>)
    ensures
        r == (match class_of(*layout) {
            Some(i) => Some(i as usize),
            None => None::<usize>,
        }),
        r.is_some() ==> r.unwrap() < NUM_CLASSES,
        class_of(*layout) matches Some(i) ==> 0 <= i < NUM_CLASSES,
{
    proof {
        lemma_class_from_range(required_of(*layout), 0);
    }
    let required = if layout.size() >= layout.align() { layout.size() } else { layout.align() };
    let mut i: usize = 0;
    while i < NUM_CLASSES
        invariant
            i <= NUM_CLASSES,
            class_from(required as int, 0) == class_from(required as int, i as int),
            required == required_of(*layout),
        decreases NUM_CLASSES - i,
    {
        if block_size(i) >= required {
            return Some(i);
        }
        i = i + 1;
    }
    None
}

/// The layout in which a fresh block of class `i` is requested from the
/// first-fit allocator: its size, aligned to its size.
pub open spec fn class_request(i: int) -> (int, int) {
    spec_size_align(spec_block_size(i), spec_block_size(i))
}

pub struct FixedSizeBlockAllocator {
    list_heads: Vec<Vec<usize>>,
    fallback_allocator: LinkedListAllocator,
}

impl FixedSizeBlockAllocator {
    /// The free blocks of each class; the last one of a list is its head.
    pub closed spec fn lists(&self) -> Seq<Seq<usize>> {
        self.list_heads@.map_values(|v: Vec<usize>| v@)
    }

    /// The allocator that serves what the lists cannot.
    pub closed spec fn fallback(&self) -> LinkedListAllocator {
        self.fallback_allocator
    }

    pub open spec fn wf(&self) -> bool {
        &&& self.lists().len() == NUM_CLASSES
        &&& self.fallback().wf()
    }

    /// The result of `allocate(layout)` on `old` is `r`, leaving `new`.
    pub open spec fn allocate_post(old: Self, layout: Layout, r: usize, new: Self) -> bool {
        match class_of(layout) {
            Some(i) => if old.lists()[i].len() > 0 {
                &&& r == old.lists()[i].last()
                &&& new.lists() == old.lists().update(i, old.lists()[i].drop_last())
                &&& new.fallback() == old.fallback()
            } else {
                &&& new.lists() == old.lists()
                &&& LinkedListAllocator::serve_post(
                    old.fallback(),
                    class_request(i).0,
                    class_request(i).1,
                    r,
                    new.fallback(),
                )
            },
            None => {
                &&& new.lists() == old.lists()
                &&& LinkedListAllocator::allocate_post(old.fallback(), layout, r, new.fallback())
            },
        }
    }

    /// The result of `deallocate(ptr, layout)` on `old`, leaving `new`.
    pub open spec fn deallocate_post(old: Self, ptr: usize, layout: Layout, new: Self) -> bool {
        match class_of(layout) {
            Some(i) => {
                &&& new.lists() == old.lists().update(i, old.lists()[i].push(ptr))
                &&& new.fallback() == old.fallback()
            },
            None => {
                &&& new.lists() == old.lists()
                &&& new.fallback().regions() == seq![
                    ListNode {
                        addr: ptr,
                        size: spec_size_align(layout.spec_size() as int, layout.spec_align() as int).0 as usize,
                    },
                ] + old.fallback().regions()
            },
        }
    }

    /// An allocator with empty lists and no heap.
    pub fn new() -> (r: Self)
        ensures
            r.wf(),
            forall|i: int| 0 <= i < NUM_CLASSES ==> (#[trigger] r.lists()[i]).len() == 0,
            r.fallback().regions().len() == 0,
    {
        let mut list_heads: Vec<Vec<usize>> = Vec::new();
        let mut i: usize = 0;
        while i < NUM_CLASSES
            invariant
                i <= NUM_CLASSES,
                list_heads@.len() == i,
                forall|j: int| 0 <= j < i ==> (#[trigger] list_heads@[j])@.len() == 0,
            decreases NUM_CLASSES - i,
        {
            list_heads.push(Vec::new());
            i = i + 1;
        }
        FixedSizeBlockAllocator { list_heads, fallback_allocator: LinkedListAllocator::new() }
    }

    /// Hands the `heap_size` bytes at `heap_start` to the first-fit allocator.
    pub fn init(&mut self, heap_start: usize, heap_size: usize)
        requires
            old(self).wf(),
            old(self).fallback().regions().len() == 0,
            heap_start % NODE_ALIGN == 0,
            heap_size >= 16,
            heap_start + heap_size <= usize::MAX,
        ensures
            final(self).wf(),
            final(self).lists() == old(self).lists(),
            final(self).fallback().regions() == seq![ListNode { addr: heap_start, size: heap_size }],
    {
        self.fallback_allocator.init(heap_start, heap_size);
    }

    /// Serves `layout`: from the head of its class list when that is not
    /// empty, else with a fresh block of the class size from the first-fit
    /// allocator; layouts beyond every class go to the first-fit allocator
    /// directly. The null address means that nothing was free.
    pub fn allocate(&mut self, layout: Layout) -> (r: usize)
        requires
            old(self).wf(),
            adjustable(layout),
        ensures
            final(self).wf(),
            Self::allocate_post(*old(self), layout, r, *final(self)),
    {
        match list_index(&layout) {
            Some(index) => {
                let ghost before = self.lists();
                if self.list_heads[index].len() > 0 {
                    let head = self.list_heads[index].pop().unwrap();
                    proof {
                        assert(self.lists() =~= before.update(index as int, before[index as int].drop_last()));
                    }
                    head
                } else {
                    let bs = block_size(index);
                    proof {
                        reveal_with_fuel(is_power_of_two, 13);
                    }
                    let class_layout = Layout::from_size_align(bs, bs).unwrap();
                    self.fallback_allocator.allocate(class_layout)
                }
            },
            None => self.fallback_allocator.allocate(layout),
        }
    }

    /// Takes back the block at `ptr` served for `layout`: onto the head of
    /// its class list, or to the first-fit allocator for layouts beyond every
    /// class.
    pub fn deallocate(&mut self, ptr: usize, layout: Layout)
        requires
            old(self).wf(),
            adjustable(layout),
            class_of(layout).is_none() ==> {
                let size = spec_size_align(layout.spec_size() as int, layout.spec_align() as int).0;
                &&& ptr % NODE_ALIGN == 0
                &&& ptr + size <= usize::MAX
                &&& forall|k: int| 0 <= k < old(self).fallback().regions().len() ==> disjoint(
                    ListNode { addr: ptr, size: size as usize },
                    #[trigger] old(self).fallback().regions()[k],
                )
            },
        ensures
            final(self).wf(),
            Self::deallocate_post(*old(self), ptr, layout, *final(self)),
    {
        match list_index(&layout) {
            Some(index) => {
                let ghost before = self.lists();
                self.list_heads[index].push(ptr);
                proof {
                    assert(self.lists() =~= before.update(index as int, before[index as int].push(ptr)));
                }
            },
            None => self.fallback_allocator.deallocate(ptr, layout),
        }
    }
}

/// Taking a block of a class and giving it straight back leaves every class
/// list as it was, except that a list that was empty now holds that block.
pub proof fn lemma_alloc_dealloc_restores_lists(
    a0: FixedSizeBlockAllocator,
    a1: FixedSizeBlockAllocator,
    a2: FixedSizeBlockAllocator,
    layout: Layout,
    r: usize,
)
    requires
        a0.wf(),
        class_of(layout).is_some(),
        FixedSizeBlockAllocator::allocate_post(a0, layout, r, a1),
        FixedSizeBlockAllocator::deallocate_post(a1, r, layout, a2),
    ensures
        ({
            let i = class_of(layout).unwrap();
            a2.lists() == a0.lists().update(
                i,
                if a0.lists()[i].len() > 0 {
                    a0.lists()[i]
                } else {
                    seq![r]
                },
            )
        }),
        class_of(layout) matches Some(i) && a0.lists()[i].len() > 0 ==> a2.lists() == a0.lists()
            && a2.fallback() == a0.fallback(),
{
    let i = class_of(layout).unwrap();
    lemma_class_from_range(required_of(layout), 0);
    let l = a0.lists()[i];
    if l.len() > 0 {
        assert(l.drop_last().push(l.last()) =~= l);
        assert(a2.lists() =~= a0.lists());
    } else {
        assert(l.push(r) =~= seq![r]);
        assert(a2.lists() =~= a0.lists().update(i, seq![r]));
    }
}

/// A request that no class list can serve and that is larger than every
/// region of the first-fit allocator is answered with the null address, and
/// nothing changes.
pub proof fn lemma_oversized_request_fails(
    a0: FixedSizeBlockAllocator,
    layout: Layout,
    r: usize,
    a1: FixedSizeBlockAllocator,
)
    requires
        a0.wf(),
        adjustable(layout),
        FixedSizeBlockAllocator::allocate_post(a0, layout, r, a1),
        class_of(layout) matches Some(i) ==> a0.lists()[i].len() == 0,
        forall|k: int| 0 <= k < a0.fallback().regions().len() ==> (#[trigger] a0.fallback().regions()[k]).size
            < layout.spec_size(),
    ensures
        r == 0,
        a1.lists() == a0.lists(),
        a1.fallback().regions() == a0.fallback().regions(),
{
    lemma_class_from_range(required_of(layout), 0);
    match class_of(layout) {
        Some(i) => {
            reveal_with_fuel(spec_block_size, 9);
            let bs = spec_block_size(i);
            let (size, align) = class_request(i);
            lemma_align_up(bs, align);
            lemma_no_fit_when_too_big(a0.fallback().regions(), size, align);
        },
        None => {
            lemma_oversized_request_fails_first_fit(a0.fallback(), layout, r, a1.fallback());
        },
    }
}

} // verus!
