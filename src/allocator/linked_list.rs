//! A first-fit free-list allocator. Each free region is described by a node
//! holding its start address and size; the list is kept in insertion order,
//! newest first.
use super::{is_power_of_two, lemma_align_up, lemma_power_of_two_multiple_of_8, spec_align_up, Layout};
use vstd::prelude::*;

verus! {

/// The size of the header that a free region must be able to hold.
pub const NODE_SIZE: usize = 16;

/// The alignment that the header of a free region needs.
pub const NODE_ALIGN: usize = 8;

/// A free region of the heap: `size` bytes starting at `addr`.
#[derive(Clone, Copy)]
pub struct ListNode {
    pub addr: usize,
    pub size: usize,
}

impl ListNode {
    pub open spec fn spec_end(&self) -> int {
        self.addr + self.size
    }

    /// A node for the `size` bytes at `addr`.
    pub fn new(addr: usize, size: usize) -> (r: ListNode)
        ensures
            r.addr == addr,
            r.size == size,
    {
        ListNode { addr, size }
    }

    pub fn start_addr(&self) -> (r: usize)
        ensures
            r == self.addr,
    {
        self.addr
    }

    pub fn end_addr(&self) -> (r: usize)
        requires
            self.spec_end() <= usize::MAX,
        ensures
            r == self.spec_end(),
    {
        self.addr + self.size
    }
}

/// A node can describe a free region: its header fits and is aligned.
pub open spec fn node_ok(n: ListNode) -> bool {
    &&& n.addr % NODE_ALIGN == 0
    &&& n.size >= NODE_SIZE
    &&& n.spec_end() <= usize::MAX
}

pub open spec fn disjoint(a: ListNode, b: ListNode) -> bool {
    a.spec_end() <= b.addr || b.spec_end() <= a.addr
}

/// Every node is usable and no two nodes overlap.
pub open spec fn free_list_wf(s: Seq<ListNode>) -> bool {
    &&& forall|i: int| 0 <= i < s.len() ==> node_ok(#[trigger] s[i])
    &&& forall|i: int, j: int| 0 <= i < s.len() && 0 <= j < s.len() && i != j ==> disjoint(#[trigger] s[i], #[trigger] s[j])
}

/// Where a block of `size` bytes aligned to `align` would start inside
/// `[start, end)`, if it fits there without leaving a tail too small to
/// hold a node.
pub open spec fn region_fit(start: int, end: int, size: int, align: int) -> Option<int> {
    let s = spec_align_up(start, align);
    if s + size > end {
        None
    } else if end - (s + size) > 0 && end - (s + size) < NODE_SIZE {
        None
    } else {
        Some(s)
    }
}

pub open spec fn node_fit(n: ListNode, size: int, align: int) -> Option<int> {
    region_fit(n.addr as int, n.spec_end(), size, align)
}

/// Node `k` is the first one in which the request fits.
pub open spec fn first_fit_at(s: Seq<ListNode>, k: int, size: int, align: int) -> bool {
    &&& 0 <= k < s.len()
    &&& node_fit(s[k], size, align).is_some()
    &&& forall|j: int| 0 <= j < k ==> node_fit(#[trigger] s[j], size, align).is_none()
}

pub open spec fn no_fit(s: Seq<ListNode>, size: int, align: int) -> bool {
    forall|j: int| 0 <= j < s.len() ==> node_fit(#[trigger] s[j], size, align).is_none()
}

/// The size and alignment actually served for a layout: the alignment is
/// raised to that of a node, the size padded to the alignment and raised to
/// the size of a node.
pub open spec fn spec_size_align(size: int, align: int) -> (int, int) {
    let a = if align < NODE_ALIGN { NODE_ALIGN as int } else { align };
    let s = spec_align_up(size, a);
    (if s < NODE_SIZE { NODE_SIZE as int } else { s }, a)
}

/// A layout that the size adjustment accepts: padding it to the node
/// alignment keeps it a valid layout.
pub open spec fn adjustable(layout: Layout) -> bool {
    &&& layout.wf()
    &&& layout.spec_size() + spec_size_align(layout.spec_size() as int, layout.spec_align() as int).1 - 1 <= isize::MAX
}

/// `addr` rounded up to `align`, unless that leaves the address space.
pub fn checked_align_up(addr: usize, align: usize) -> (r: Option<usize>)
    requires
        align > 0,
    ensures
        r == (if spec_align_up(addr as int, align as int) <= usize::MAX {
            Some(spec_align_up(addr as int, align as int) as usize)
        } else {
            None::<usize>
        }),
{
    proof {
        lemma_align_up(addr as int, align as int);
        vstd::arithmetic::div_mod::lemma_mod_decreases(addr as nat, align as nat);
    }
    let rem = addr % align;
    if rem == 0 {
        Some(addr)
    } else if addr - rem > usize::MAX - align {
        None
    } else {
        Some(addr - rem + align)
    }
}

/// A first-fit allocator over a list of free regions.
pub struct LinkedListAllocator {
    regions: Vec<ListNode>,
}

impl LinkedListAllocator {
    /// The free regions, newest first.
    pub closed spec fn regions(&self) -> Seq<ListNode> {
        self.regions@
    }

    pub open spec fn wf(&self) -> bool {
        free_list_wf(self.regions())
    }

    /// Serving a block of `size` bytes aligned to `align` from `old` gives
    /// `r` and leaves `new`: the first region that fits is taken and what is
    /// left after the block goes back to the front of the list; where no
    /// region fits the answer is the null address and nothing changes.
    pub open spec fn serve_post(old: Self, size: int, align: int, r: usize, new: Self) -> bool {
        &&& no_fit(old.regions(), size, align) ==> r == 0 && new.regions() == old.regions()
        &&& !no_fit(old.regions(), size, align) ==> exists|k: int|
            #![trigger old.regions()[k]]
            {
                let n = old.regions()[k];
                let end = r + size;
                &&& first_fit_at(old.regions(), k, size, align)
                &&& node_fit(n, size, align) == Some(r as int)
                &&& new.regions() == if end < n.spec_end() {
                    seq![ListNode { addr: end as usize, size: (n.spec_end() - end) as usize }]
                        + old.regions().remove(k)
                } else {
                    old.regions().remove(k)
                }
            }
    }

    /// The result of `allocate(layout)` on `old` is `r`, leaving `new`.
    pub open spec fn allocate_post(old: Self, layout: Layout, r: usize, new: Self) -> bool {
        let (size, align) = spec_size_align(layout.spec_size() as int, layout.spec_align() as int);
        Self::serve_post(old, size, align, r, new)
    }

    /// An allocator with no free memory.
    pub fn new() -> (r: Self)
        ensures
            r.wf(),
            r.regions() == Seq::<ListNode>::empty(),
    {
        LinkedListAllocator { regions: Vec::new() }
    }

    /// A copy of the free list, newest region first.
    pub fn free_regions(&self) -> (r: Vec<ListNode>)
        ensures
            r@ == self.regions(),
    {
        let mut out: Vec<ListNode> = Vec::new();
        let mut i: usize = 0;
        while i < self.regions.len()
            invariant
                i <= self.regions@.len(),
                out@ == self.regions@.subrange(0, i as int),
            decreases self.regions@.len() - i,
        {
            out.push(self.regions[i]);
            i = i + 1;
            assert(out@ =~= self.regions@.subrange(0, i as int));
        }
        assert(out@ =~= self.regions@);
        out
    }

    /// Hands the `heap_size` bytes at `heap_start` to the allocator.
    pub fn init(&mut self, heap_start: usize, heap_size: usize)
        requires
            old(self).wf(),
            node_ok(ListNode { addr: heap_start, size: heap_size }),
            forall|k: int| 0 <= k < old(self).regions().len() ==> disjoint(
                ListNode { addr: heap_start, size: heap_size },
                #[trigger] old(self).regions()[k],
            ),
        ensures
            final(self).wf(),
            final(self).regions() == seq![ListNode { addr: heap_start, size: heap_size }] + old(self).regions(),
    {
        self.add_free_region(heap_start, heap_size);
    }

    /// Puts the `size` bytes at `addr` at the front of the free list.
    pub fn add_free_region(&mut self, addr: usize, size: usize)
        requires
            old(self).wf(),
            node_ok(ListNode { addr, size }),
            forall|k: int| 0 <= k < old(self).regions().len() ==> disjoint(
                ListNode { addr, size },
                #[trigger] old(self).regions()[k],
            ),
        ensures
            final(self).wf(),
            final(self).regions() == seq![ListNode { addr, size }] + old(self).regions(),
    {
        let node = ListNode::new(addr, size);
        self.regions.insert(0, node);
        proof {
            let s = self.regions@;
            assert(s == seq![node] + old(self).regions());
            assert forall|i: int, j: int| 0 <= i < s.len() && 0 <= j < s.len() && i != j implies disjoint(
                #[trigger] s[i],
                #[trigger] s[j],
            ) by {
                if i > 0 && j > 0 {
                    assert(s[i] == old(self).regions()[i - 1]);
                    assert(s[j] == old(self).regions()[j - 1]);
                } else if i == 0 {
                    assert(s[j] == old(self).regions()[j - 1]);
                } else {
                    assert(s[i] == old(self).regions()[i - 1]);
                }
            }
            assert forall|i: int| 0 <= i < s.len() implies node_ok(#[trigger] s[i]) by {
                if i > 0 {
                    assert(s[i] == old(self).regions()[i - 1]);
                }
            }
        }
    }

    /// Where a block of `size` bytes aligned to `align` starts in `region`,
    /// or an error if it does not fit there.
    pub fn alloc_from_region(region: &ListNode, size: usize, align: usize) -> (r: Result<usize, ()>)
        requires
            node_ok(*region),
            align > 0,
        ensures
            r == (match node_fit(*region, size as int, align as int) {
                Some(s) => Ok::<usize, ()>(s as usize),
                None => Err::<usize, ()>(()),
            }),
    {
        proof {
            lemma_align_up(region.addr as int, align as int);
        }
        let end = region.end_addr();
        let alloc_start = match checked_align_up(region.start_addr(), align) {
            Some(s) => s,
            None => return Err(()),
        };
        if alloc_start > end || size > end - alloc_start {
            return Err(());
        }
        let alloc_end = alloc_start + size;
        let excess_size = end - alloc_end;
        if excess_size > 0 && excess_size < NODE_SIZE {
            return Err(());
        }
        Ok(alloc_start)
    }

    /// Takes the first region in which the request fits out of the list.
    pub fn find_region(&mut self, size: usize, align: usize) -> (r: Option<(ListNode, usize)>)
        requires
            old(self).wf(),
            align > 0,
        ensures
            final(self).wf(),
            r.is_none() ==> no_fit(old(self).regions(), size as int, align as int)
                && final(self).regions() == old(self).regions(),
            r.is_some() ==> exists|k: int|
                #![trigger old(self).regions()[k]]
                {
                    &&& first_fit_at(old(self).regions(), k, size as int, align as int)
                    &&& r.unwrap().0 == old(self).regions()[k]
                    &&& node_fit(old(self).regions()[k], size as int, align as int) == Some(r.unwrap().1 as int)
                    &&& final(self).regions() == old(self).regions().remove(k)
                },
    {
        let mut i: usize = 0;
        while i < self.regions.len()
            invariant
                self.wf(),
                self.regions() == old(self).regions(),
                align > 0,
                i <= self.regions().len(),
                forall|j: int| 0 <= j < i ==> node_fit(#[trigger] self.regions()[j], size as int, align as int).is_none(),
            decreases self.regions().len() - i,
        {
            let region = self.regions[i];
            match Self::alloc_from_region(&region, size, align) {
                Ok(alloc_start) => {
                    let ghost s = self.regions@;
                    let node = self.regions.remove(i);
                    proof {
                        let t = self.regions@;
                        assert(t == s.remove(i as int));
                        assert forall|a: int| 0 <= a < t.len() implies node_ok(#[trigger] t[a]) by {
                            if a < i {
                                assert(t[a] == s[a]);
                            } else {
                                assert(t[a] == s[a + 1]);
                            }
                        }
                        assert forall|a: int, b: int| 0 <= a < t.len() && 0 <= b < t.len() && a != b implies disjoint(
                            #[trigger] t[a],
                            #[trigger] t[b],
                        ) by {
                            let a2 = if a < i { a } else { a + 1 };
                            let b2 = if b < i { b } else { b + 1 };
                            assert(t[a] == s[a2]);
                            assert(t[b] == s[b2]);
                        }
                        assert(first_fit_at(s, i as int, size as int, align as int));
                    }
                    return Some((node, alloc_start));
                },
                Err(()) => {
                    i = i + 1;
                },
            }
        }
        None
    }

    /// The size and alignment served for `layout`.
    pub fn size_align(layout: Layout) -> (r: (usize, usize))
        requires
            adjustable(layout),
        ensures
            r.0 == spec_size_align(layout.spec_size() as int, layout.spec_align() as int).0,
            r.1 == spec_size_align(layout.spec_size() as int, layout.spec_align() as int).1,
            r.0 % NODE_ALIGN == 0,
            r.1 % NODE_ALIGN == 0,
            r.0 >= NODE_SIZE,
            is_power_of_two(r.1 as int),
    {
        let align = if layout.align() < NODE_ALIGN { NODE_ALIGN } else { layout.align() };
        proof {
            lemma_align_up(layout.spec_size() as int, align as int);
            if align >= 8 && align == layout.spec_align() {
                lemma_power_of_two_multiple_of_8(align as int);
            }
            reveal_with_fuel(is_power_of_two, 4);
        }
        let padded = super::align_up(layout.size(), align);
        proof {
            assert(padded % 8 == 0) by {
                vstd::arithmetic::div_mod::lemma_mod_mod(padded as int, 8, (align / 8) as int);
                assert(align == 8 * (align / 8));
            }
        }
        let size = if padded < NODE_SIZE { NODE_SIZE } else { padded };
        (size, align)
    }

    /// Serves `layout` from the first region that fits it, or answers with the
    /// null address when none does. What is left after the block goes back to
    /// the list.
    pub fn allocate(&mut self, layout: Layout) -> (r: usize)
        requires
            old(self).wf(),
            adjustable(layout),
        ensures
            final(self).wf(),
            Self::allocate_post(*old(self), layout, r, *final(self)),
    {
        let (size, align) = Self::size_align(layout);
        match self.find_region(size, align) {
            Some((region, alloc_start)) => {
                let ghost mid = self.regions();
                let ghost k = choose|k: int|
                    #![trigger old(self).regions()[k]]
                    {
                        &&& first_fit_at(old(self).regions(), k, size as int, align as int)
                        &&& region == old(self).regions()[k]
                        &&& node_fit(old(self).regions()[k], size as int, align as int) == Some(alloc_start as int)
                        &&& mid == old(self).regions().remove(k)
                    };
                proof {
                    lemma_align_up(region.addr as int, align as int);
                }
                let alloc_end = alloc_start + size;
                let excess_size = region.end_addr() - alloc_end;
                if excess_size > 0 {
                    proof {
                        assert(alloc_start % 8 == 0) by {
                            vstd::arithmetic::div_mod::lemma_mod_mod(alloc_start as int, 8, (align / 8) as int);
                            assert(align == 8 * (align / 8));
                        }
                        assert forall|j: int| 0 <= j < mid.len() implies disjoint(
                            ListNode { addr: alloc_end, size: excess_size },
                            #[trigger] mid[j],
                        ) by {
                            let j2 = if j < k { j } else { j + 1 };
                            assert(mid[j] == old(self).regions()[j2]);
                            assert(disjoint(old(self).regions()[k], old(self).regions()[j2]));
                        }
                    }
                    self.add_free_region(alloc_end, excess_size);
                }
                alloc_start
            },
            None => 0,
        }
    }

    /// Returns the block at `ptr`, served for `layout`, to the free list.
    pub fn deallocate(&mut self, ptr: usize, layout: Layout)
        requires
            old(self).wf(),
            adjustable(layout),
            ptr % NODE_ALIGN == 0,
            ptr + spec_size_align(layout.spec_size() as int, layout.spec_align() as int).0 <= usize::MAX,
            forall|k: int| 0 <= k < old(self).regions().len() ==> disjoint(
                ListNode {
                    addr: ptr,
                    size: spec_size_align(layout.spec_size() as int, layout.spec_align() as int).0 as usize,
                },
                #[trigger] old(self).regions()[k],
            ),
        ensures
            final(self).wf(),
            final(self).regions() == seq![
                ListNode {
                    addr: ptr,
                    size: spec_size_align(layout.spec_size() as int, layout.spec_align() as int).0 as usize,
                },
            ] + old(self).regions(),
    {
        let (size, _) = Self::size_align(layout);
        self.add_free_region(ptr, size);
    }
}

/// No region holds a request larger than itself.
pub proof fn lemma_no_fit_when_too_big(s: Seq<ListNode>, size: int, align: int)
    requires
        free_list_wf(s),
        align > 0,
        forall|k: int| 0 <= k < s.len() ==> (#[trigger] s[k]).size < size,
    ensures
        no_fit(s, size, align),
{
    assert forall|j: int| 0 <= j < s.len() implies node_fit(#[trigger] s[j], size, align).is_none() by {
        lemma_align_up(s[j].addr as int, align);
    }
}

/// A request larger than every free region is answered with the null
/// address and leaves the free list as it was.
pub proof fn lemma_oversized_request_fails(
    a0: LinkedListAllocator,
    layout: Layout,
    r: usize,
    a1: LinkedListAllocator,
)
    requires
        a0.wf(),
        adjustable(layout),
        LinkedListAllocator::allocate_post(a0, layout, r, a1),
        forall|k: int| 0 <= k < a0.regions().len() ==> (#[trigger] a0.regions()[k]).size < layout.spec_size(),
    ensures
        r == 0,
        a1.regions() == a0.regions(),
{
    let (size, align) = spec_size_align(layout.spec_size() as int, layout.spec_align() as int);
    lemma_align_up(layout.spec_size() as int, align);
    lemma_no_fit_when_too_big(a0.regions(), size, align);
}

/// Every free region, in every state the allocator's operations reach,
/// starts at a multiple of the node alignment, can hold a node, and overlaps
/// no other free region.
pub proof fn lemma_free_regions_aligned_and_disjoint(a: LinkedListAllocator)
    requires
        a.wf(),
    ensures
        forall|k: int|
            0 <= k < a.regions().len() ==> (#[trigger] a.regions()[k]).addr % NODE_ALIGN == 0
                && a.regions()[k].size >= NODE_SIZE && spec_align_up(
                a.regions()[k].addr as int,
                NODE_ALIGN as int,
            ) == a.regions()[k].addr,
        forall|j: int, k: int|
            0 <= j < a.regions().len() && 0 <= k < a.regions().len() && j != k ==> {
                let x = #[trigger] a.regions()[j];
                let y = #[trigger] a.regions()[k];
                x.addr + x.size <= y.addr || y.addr + y.size <= x.addr
            },
{
    assert forall|k: int| 0 <= k < a.regions().len() implies spec_align_up(
        a.regions()[k].addr as int,
        NODE_ALIGN as int,
    ) == (#[trigger] a.regions()[k]).addr by {
        assert(node_ok(a.regions()[k]));
    }
    assert forall|j: int, k: int| 0 <= j < a.regions().len() && 0 <= k < a.regions().len() && j != k implies {
        let x = #[trigger] a.regions()[j];
        let y = #[trigger] a.regions()[k];
        x.addr + x.size <= y.addr || y.addr + y.size <= x.addr
    } by {
        assert(disjoint(a.regions()[j], a.regions()[k]));
    }
}

} // verus!
