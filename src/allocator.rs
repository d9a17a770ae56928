//! Heap layout, address alignment and the allocators built on them.
use vstd::arithmetic::div_mod::{lemma_fundamental_div_mod, lemma_mod_multiples_basic};
use vstd::prelude::*;

pub mod bump;
pub mod fixed_size_block;
pub mod linked_list;

verus! {

/// The start address of the kernel heap.
pub const HEAP_START: u64 = 0x4444_4444_0000;

/// The size of the kernel heap in bytes.
pub const HEAP_SIZE: u64 = 100 * 1024;

/// The least multiple of `align` that is at least `addr`.
pub closed spec fn spec_align_up(addr: int, align: int) -> int {
    if addr % align == 0 {
        addr
    } else {
        addr - addr % align + align
    }
}

pub proof fn lemma_align_up(addr: int, align: int)
    requires
        addr >= 0,
        align > 0,
    ensures
        spec_align_up(addr, align) % align == 0,
        addr <= spec_align_up(addr, align) < addr + align,
{
    lemma_fundamental_div_mod(addr, align);
    if addr % align != 0 {
        assert(addr - addr % align + align == align * (addr / align + 1)) by (nonlinear_arith)
            requires
                addr == align * (addr / align) + addr % align,
        ;
        lemma_mod_multiples_basic(addr / align + 1, align);
        assert((addr / align + 1) * align == align * (addr / align + 1)) by (nonlinear_arith);
    }
}

/// Rounds `addr` up to the next multiple of `align`.
pub fn align_up(addr: usize, align: usize) -> (r: usize)
    requires
        align > 0,
        addr + align - 1 <= usize::MAX,
    ensures
        r == spec_align_up(addr as int, align as int),
        r % align == 0,
        addr <= r < addr + align,
{
    proof {
        lemma_align_up(addr as int, align as int);
    }
    let rem = addr % align;
    proof {
        vstd::arithmetic::div_mod::lemma_mod_decreases(addr as nat, align as nat);
    }
    if rem == 0 {
        addr
    } else {
        addr - rem + align
    }
}

/// `n` is a power of two.
pub open spec fn is_power_of_two(n: int) -> bool
    decreases n,
{
    if n <= 0 {
        false
    } else if n == 1 {
        true
    } else {
        n % 2 == 0 && is_power_of_two(n / 2)
    }
}

/// A power of two no smaller than eight is a multiple of eight.
pub proof fn lemma_power_of_two_multiple_of_8(n: int)
    requires
        is_power_of_two(n),
        n >= 8,
    ensures
        n % 8 == 0,
{
    reveal_with_fuel(is_power_of_two, 4);
}

/// The size and alignment of a memory request. The alignment is a power of
/// two and the size, rounded up to the alignment, fits in an `isize`.
#[derive(Clone, Copy)]
pub struct Layout {
    size: usize,
    align: usize,
}

impl Layout {
    pub closed spec fn spec_size(&self) -> nat {
        self.size as nat
    }

    pub closed spec fn spec_align(&self) -> nat {
        self.align as nat
    }

    pub open spec fn wf(&self) -> bool {
        &&& is_power_of_two(self.spec_align() as int)
        &&& self.spec_size() + self.spec_align() - 1 <= isize::MAX
    }

    /// A layout of `size` bytes aligned to `align`, if `align` is a power of
    /// two and the size rounded up to it fits in an `isize`.
    pub fn from_size_align(size: usize, align: usize) -> (r: Option<Layout>)
        ensures
            r.is_some() <==> is_power_of_two(align as int) && size + align - 1 <= isize::MAX,
            r.is_some() ==> r.unwrap().wf() && r.unwrap().spec_size() == size
                && r.unwrap().spec_align() == align,
    {
        if align == 0 || align - 1 > (isize::MAX as usize) || size > (isize::MAX as usize) - (align - 1) {
            return None;
        }
        let mut m: usize = align;
        while m > 1 && m % 2 == 0
            invariant
                m >= 1,
                is_power_of_two(align as int) == is_power_of_two(m as int),
            decreases m,
        {
            m = m / 2;
        }
        if m == 1 {
            Some(Layout { size, align })
        } else {
            None
        }
    }

    pub fn size(&self) -> (r: usize)
        ensures
            r == self.spec_size(),
    {
        self.size
    }

    pub fn align(&self) -> (r: usize)
        ensures
            r == self.spec_align(),
    {
        self.align
    }
}

/// An allocator that owns no memory: every request fails.
pub struct Dummy;

impl Dummy {
    /// Always answers with the null address.
    pub fn allocate(&self, layout: Layout) -> (r: usize)
        ensures
            r == 0,
    {
        0
    }
}

} // verus!
