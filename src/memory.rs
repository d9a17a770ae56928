//! Physical memory: the firmware memory map, the frame allocator over it,
//! the frames that back the kernel heap, and the byte routines that code
//! generation expects (fill, copy, compare, move).
use crate::allocator::{HEAP_SIZE, HEAP_START};
use vstd::prelude::*;

verus! {

/// The size of a page and of a frame.
pub const PAGE_SIZE: u64 = 4096;

/// The number of pages in the heap.
pub const HEAP_PAGES: u64 = 25;

/// Page table entry flag: the mapping is present.
pub const PRESENT: u64 = 1;

/// Page table entry flag: the mapping may be written.
pub const WRITABLE: u64 = 2;

/// What a region of the memory map holds; every kind other than free
/// memory counts as reserved here.
#[derive(Clone, Copy, PartialEq, Eq, Structural, Debug)]
pub enum MemoryRegionType {
    Usable,
    Reserved,
}

/// A region `[start, end)` of physical memory, as the boot loader reports it.
#[derive(Clone, Copy, PartialEq, Eq, Structural, Debug)]
pub struct MemoryRegion {
    pub start: u64,
    pub end: u64,
    pub region_type: MemoryRegionType,
}

/// The start of the frame that holds `addr`.
pub open spec fn frame_of(addr: int) -> int {
    addr - addr % PAGE_SIZE as int
}

/// How many 4 KiB steps from its start fall inside the region.
pub open spec fn frame_count(r: MemoryRegion) -> nat {
    if r.end <= r.start {
        0
    } else {
        let d = r.end - r.start;
        (d / PAGE_SIZE as int + if d % PAGE_SIZE as int == 0 { 0int } else { 1int }) as nat
    }
}

/// The frames of a region: one for each 4 KiB step from its start.
pub open spec fn region_frames(r: MemoryRegion) -> Seq<u64> {
    Seq::new(frame_count(r), |j: int| frame_of(r.start + j * PAGE_SIZE as int) as u64)
}

/// The frames of the usable regions, region after region in map order.
pub open spec fn usable_frames(map: Seq<MemoryRegion>) -> Seq<u64>
    decreases map.len(),
{
    if map.len() == 0 {
        Seq::empty()
    } else {
        usable_frames(map.drop_last()) + if map.last().region_type == MemoryRegionType::Usable {
            region_frames(map.last())
        } else {
            Seq::empty()
        }
    }
}

/// The frames of a prefix of the map come first among those of the map.
pub proof fn lemma_usable_frames_prefix(map: Seq<MemoryRegion>, k: int)
    requires
        0 <= k <= map.len(),
    ensures
        usable_frames(map.take(k)).len() <= usable_frames(map).len(),
        forall|j: int|
            0 <= j < usable_frames(map.take(k)).len() ==> #[trigger] usable_frames(map.take(k))[j]
                == usable_frames(map)[j],
    decreases map.len(),
{
    if k == map.len() {
        assert(map.take(k) =~= map);
    } else {
        let dl = map.drop_last();
        assert(map.take(k) =~= dl.take(k));
        lemma_usable_frames_prefix(dl, k);
    }
}

/// A frame allocator that never hands out the same step of the map twice
/// and never takes frames back.
pub struct BootInfoFrameAllocator {
    memory_map: Vec<MemoryRegion>,
    next: u64,
}

impl BootInfoFrameAllocator {
    pub closed spec fn memory_map(&self) -> Seq<MemoryRegion> {
        self.memory_map@
    }

    /// How many frames have been handed out.
    pub closed spec fn spec_next(&self) -> u64 {
        self.next
    }

    /// The result of `allocate_frame()` on `old` is `r`, leaving `new`: the
    /// `next`-th usable frame, if there is one; `next` advances on every
    /// call, until it reaches the top of its range.
    pub open spec fn allocate_post(old: Self, r: Option<u64>, new: Self) -> bool {
        let frames = usable_frames(old.memory_map());
        &&& new.memory_map() == old.memory_map()
        &&& r == if old.spec_next() < frames.len() && old.spec_next() < u64::MAX {
            Some(frames[old.spec_next() as int])
        } else {
            None::<u64>
        }
        &&& new.spec_next() == if old.spec_next() < u64::MAX {
            (old.spec_next() + 1) as u64
        } else {
            old.spec_next()
        }
    }

    /// An allocator over `memory_map` that has handed out nothing yet.
    pub fn init(memory_map: Vec<MemoryRegion>) -> (r: Self)
        ensures
            r.memory_map() == memory_map@,
            r.spec_next() == 0,
    {
        BootInfoFrameAllocator { memory_map, next: 0 }
    }

    /// The next usable frame, or `None` once all are handed out.
    pub fn allocate_frame(&mut self) -> (r: Option<u64>)
        ensures
            Self::allocate_post(*old(self), r, *final(self)),
    {
        let ghost map = self.memory_map@;
        if self.next == u64::MAX {
            return None;
        }
        let mut remaining: u64 = self.next;
        self.next = self.next + 1;
        let mut i: usize = 0;
        assert(map.take(0) =~= Seq::<MemoryRegion>::empty());
        while i < self.memory_map.len()
            invariant
                map == self.memory_map@,
                self.memory_map == old(self).memory_map,
                self.next == old(self).next + 1,
                i <= map.len(),
                remaining + usable_frames(map.take(i as int)).len() == old(self).next,
            decreases map.len() - i,
        {
            let region = self.memory_map[i];
            proof {
                assert(map.take(i + 1).drop_last() =~= map.take(i as int));
                assert(map.take(i + 1).last() == region);
            }
            if region.region_type == MemoryRegionType::Usable && region.end > region.start {
                let d = region.end - region.start;
                let count = d / PAGE_SIZE + if d % PAGE_SIZE == 0 {
                    0
                } else {
                    1
                };
                if remaining < count {
                    let addr = region.start + remaining * PAGE_SIZE;
                    let frame = addr - addr % PAGE_SIZE;
                    proof {
                        lemma_usable_frames_prefix(map, i + 1);
                        let before = usable_frames(map.take(i as int));
                        assert(usable_frames(map.take(i + 1)) == before + region_frames(region));
                        assert(usable_frames(map.take(i + 1))[old(self).next as int] == region_frames(
                            region,
                        )[remaining as int]);
                    }
                    return Some(frame);
                }
                remaining = remaining - count;
            }
            i = i + 1;
        }
        assert(map.take(map.len() as int) =~= map);
        None
    }
}

/// A frame allocator with no frames.
pub struct EmptyFrameAllocator;

impl EmptyFrameAllocator {
    pub fn allocate_frame(&mut self) -> (r: Option<u64>)
        ensures
            r.is_none(),
    {
        None
    }
}

/// One heap page and the frame that backs it.
#[derive(Clone, Copy, PartialEq, Eq, Structural, Debug)]
pub struct PageMapping {
    pub page: u64,
    pub frame: u64,
    pub flags: u64,
}

/// Why the heap could not be set up.
#[derive(Clone, Copy, PartialEq, Eq, Structural, Debug)]
pub enum HeapInitError {
    FrameAllocationFailed,
}

/// The mapping of heap page `k` when the allocator stood at `first`.
pub open spec fn heap_mapping(frames: Seq<u64>, first: int, k: int) -> PageMapping {
    PageMapping {
        page: (HEAP_START + k * PAGE_SIZE as int) as u64,
        frame: frames[first + k],
        flags: PRESENT | WRITABLE,
    }
}

/// Takes a frame for every page of the heap, in page order, and gives each
/// page its mapping, present and writable. Fails when the frames run out.
pub fn heap_mappings(frame_allocator: &mut BootInfoFrameAllocator) -> (r: Result<
    Vec<PageMapping>,
    HeapInitError,
>)
    ensures
        final(frame_allocator).memory_map() == old(frame_allocator).memory_map(),
        r.is_err() <==> (old(frame_allocator).spec_next() + HEAP_PAGES > usable_frames(
            old(frame_allocator).memory_map(),
        ).len() || old(frame_allocator).spec_next() + HEAP_PAGES > u64::MAX),
        ({
            let frames = usable_frames(old(frame_allocator).memory_map());
            let first = old(frame_allocator).spec_next() as int;
            r matches Ok(v) ==> {
                &&& v@.len() == HEAP_PAGES
                &&& forall|k: int| 0 <= k < HEAP_PAGES ==> #[trigger] v@[k] == heap_mapping(frames, first, k)
                &&& final(frame_allocator).spec_next() == first + HEAP_PAGES
            }
        }),
{
    let ghost frames = usable_frames(frame_allocator.memory_map());
    let ghost first = frame_allocator.spec_next() as int;
    let mut mappings: Vec<PageMapping> = Vec::new();
    let mut k: u64 = 0;
    while k < HEAP_PAGES
        invariant
            k <= HEAP_PAGES,
            frame_allocator.memory_map() == old(frame_allocator).memory_map(),
            frames == usable_frames(frame_allocator.memory_map()),
            frame_allocator.spec_next() == first + k,
            first == old(frame_allocator).spec_next(),
            k == 0 || first + k <= frames.len(),
            k == 0 || first + k <= u64::MAX,
            mappings@.len() == k,
            forall|j: int| 0 <= j < k ==> #[trigger] mappings@[j] == heap_mapping(frames, first, j),
        decreases HEAP_PAGES - k,
    {
        let frame = match frame_allocator.allocate_frame() {
            Some(f) => f,
            None => {
                assert(first + k >= frames.len() || first + k == u64::MAX);

                return Err(HeapInitError::FrameAllocationFailed);
            },
        };
        mappings.push(PageMapping { page: HEAP_START + k * PAGE_SIZE, frame, flags: PRESENT | WRITABLE });
        k = k + 1;
    }
    Ok(mappings)
}

/// The usable regions of the map are page aligned and no two of them overlap.
pub open spec fn map_valid(map: Seq<MemoryRegion>) -> bool {
    &&& forall|i: int|
        0 <= i < map.len() && (#[trigger] map[i]).region_type == MemoryRegionType::Usable ==> map[i].start
            % PAGE_SIZE == 0
    &&& forall|i: int, j: int|
        0 <= i < map.len() && 0 <= j < map.len() && i != j && (#[trigger] map[i]).region_type
            == MemoryRegionType::Usable && (#[trigger] map[j]).region_type == MemoryRegionType::Usable
            ==> map[i].end <= map[j].start || map[j].end <= map[i].start
}

proof fn lemma_region_frame(r: MemoryRegion, j: int)
    requires
        r.start % PAGE_SIZE == 0,
        0 <= j < frame_count(r),
    ensures
        region_frames(r)[j] == r.start + j * PAGE_SIZE as int,
        r.start <= region_frames(r)[j] < r.end,
{
    assert((r.start + j * 4096) % 4096 == 0);
}

/// Each usable frame lies in a usable region of the map, and no frame
/// appears twice.
pub proof fn lemma_usable_frames_distinct(map: Seq<MemoryRegion>)
    requires
        map_valid(map),
    ensures
        forall|k: int|
            0 <= k < usable_frames(map).len() ==> exists|i: int|
                0 <= i < map.len() && (#[trigger] map[i]).region_type == MemoryRegionType::Usable && map[i].start
                    <= #[trigger] usable_frames(map)[k] < map[i].end,
        usable_frames(map).no_duplicates(),
    decreases map.len(),
{
    if map.len() > 0 {
        let dl = map.drop_last();
        let n = map.len() - 1;
        let last = map.last();
        assert forall|i: int| 0 <= i < dl.len() implies #[trigger] dl[i] == map[i] by {}
        lemma_usable_frames_distinct(dl);
        let head = usable_frames(dl);
        let extra = if last.region_type == MemoryRegionType::Usable {
            region_frames(last)
        } else {
            Seq::<u64>::empty()
        };
        let all = usable_frames(map);
        assert(all == head + extra);
        assert forall|k: int| 0 <= k < all.len() implies exists|i: int|
            0 <= i < map.len() && (#[trigger] map[i]).region_type == MemoryRegionType::Usable && map[i].start
                <= #[trigger] all[k] < map[i].end by {
            if k < head.len() {
                assert(all[k] == head[k]);
                let i = choose|i: int|
                    0 <= i < dl.len() && (#[trigger] dl[i]).region_type == MemoryRegionType::Usable && dl[i].start
                        <= #[trigger] head[k] < dl[i].end;
                assert(map[i] == dl[i]);
            } else {
                lemma_region_frame(last, k - head.len());
                assert(map[n] == last);
            }
        }
        assert forall|a: int, b: int| 0 <= a < all.len() && 0 <= b < all.len() && a != b implies all[a]
            != all[b] by {
            if a < head.len() && b < head.len() {
                assert(all[a] == head[a] && all[b] == head[b]);
            } else if a >= head.len() && b >= head.len() {
                lemma_region_frame(last, a - head.len());
                lemma_region_frame(last, b - head.len());
            } else {
                let (x, y) = if a < head.len() { (a, b) } else { (b, a) };
                assert(all[x] == head[x]);
                let i = choose|i: int|
                    0 <= i < dl.len() && (#[trigger] dl[i]).region_type == MemoryRegionType::Usable && dl[i].start
                        <= #[trigger] head[x] < dl[i].end;
                assert(map[i] == dl[i]);
                lemma_region_frame(last, y - head.len());
                assert(map[n] == last);
            }
        }
    }
}

/// With a valid memory map, the heap pages are the 4 KiB pages of the heap
/// range in order, each mapped present and writable to a frame of its own.
pub proof fn lemma_heap_frames_distinct(map: Seq<MemoryRegion>, first: int, v: Seq<PageMapping>)
    requires
        map_valid(map),
        0 <= first,
        v.len() == HEAP_PAGES,
        forall|k: int| 0 <= k < HEAP_PAGES ==> #[trigger] v[k] == heap_mapping(usable_frames(map), first, k),
        first + HEAP_PAGES <= usable_frames(map).len(),
    ensures
        forall|k: int| 0 <= k < HEAP_PAGES ==> (#[trigger] v[k]).page == HEAP_START + k * PAGE_SIZE as int,
        HEAP_PAGES * PAGE_SIZE == HEAP_SIZE,
        forall|k: int| 0 <= k < HEAP_PAGES ==> (#[trigger] v[k]).flags == PRESENT | WRITABLE,
        forall|a: int, b: int| 0 <= a < b < HEAP_PAGES ==> (#[trigger] v[a]).frame != (#[trigger] v[b]).frame,
{
    lemma_usable_frames_distinct(map);
    assert forall|a: int, b: int| 0 <= a < b < HEAP_PAGES implies (#[trigger] v[a]).frame != (#[trigger] v[b]).frame by {
        assert(v[a].frame == usable_frames(map)[first + a]);
        assert(v[b].frame == usable_frames(map)[first + b]);
    }
}

/// Sets every byte of `dest` to `value`.
pub fn memset(dest: &mut [u8], value: u8)
    ensures
        final(dest)@.len() == old(dest)@.len(),
        forall|i: int| 0 <= i < final(dest)@.len() ==> #[trigger] final(dest)@[i] == value,
{
    let mut i: usize = 0;
    while i < dest.len()
        invariant
            dest@.len() == old(dest)@.len(),
            i <= dest@.len(),
            forall|j: int| 0 <= j < i ==> #[trigger] dest@[j] == value,
        decreases dest@.len() - i,
    {
        dest[i] = value;
        i = i + 1;
    }
}

/// Copies `src` into the start of `dest`.
pub fn memcpy(dest: &mut [u8], src: &[u8])
    requires
        src@.len() <= old(dest)@.len(),
    ensures
        final(dest)@ == src@ + old(dest)@.skip(src@.len() as int),
{
    let mut i: usize = 0;
    while i < src.len()
        invariant
            src@.len() <= dest@.len(),
            dest@.len() == old(dest)@.len(),
            i <= src@.len(),
            forall|j: int| 0 <= j < i ==> #[trigger] dest@[j] == src@[j],
            forall|j: int| src@.len() <= j < dest@.len() ==> #[trigger] dest@[j] == old(dest)@[j],
        decreases src@.len() - i,
    {
        dest[i] = src[i];
        i = i + 1;
    }
    assert(dest@ =~= src@ + old(dest)@.skip(src@.len() as int));
}

/// The first `num` bytes of `a` and `b` compared: zero when they are
/// equal, else the difference of the first bytes that differ.
pub open spec fn spec_memcmp(a: Seq<u8>, b: Seq<u8>, num: int) -> int
    decreases num,
{
    if num <= 0 {
        0
    } else if a[0] != b[0] {
        a[0] - b[0]
    } else {
        spec_memcmp(a.drop_first(), b.drop_first(), num - 1)
    }
}

/// Compares the first `num` bytes of `a` and `b`.
pub fn memcmp(a: &[u8], b: &[u8], num: usize) -> (r: i32)
    requires
        num <= a@.len(),
        num <= b@.len(),
    ensures
        r == spec_memcmp(a@, b@, num as int),
{
    let mut i: usize = 0;
    assert(a@.skip(0) =~= a@);
    assert(b@.skip(0) =~= b@);
    while i < num
        invariant
            num <= a@.len(),
            num <= b@.len(),
            i <= num,
            spec_memcmp(a@, b@, num as int) == spec_memcmp(a@.skip(i as int), b@.skip(i as int), num - i),
        decreases num - i,
    {
        let x = a[i];
        let y = b[i];
        proof {
            assert(a@.skip(i as int)[0] == x);
            assert(b@.skip(i as int)[0] == y);
            assert(a@.skip(i as int).drop_first() =~= a@.skip(i + 1));
            assert(b@.skip(i as int).drop_first() =~= b@.skip(i + 1));
        }
        if x != y {
            return (x as i32) - (y as i32);
        }
        i = i + 1;
    }
    0
}

/// Moves the `num` bytes at `src` to `dest` within `buf`. The two ranges may
/// overlap: the copy runs forwards when `dest` is below `src` and backwards
/// otherwise, so every byte is read before it is overwritten.
pub fn memmove(buf: &mut [u8], dest: usize, src: usize, num: usize)
    requires
        dest + num <= old(buf)@.len(),
        src + num <= old(buf)@.len(),
    ensures
        final(buf)@.len() == old(buf)@.len(),
        forall|i: int| 0 <= i < num ==> #[trigger] final(buf)@[dest + i] == old(buf)@[src + i],
        forall|i: int|
            0 <= i < old(buf)@.len() && !(dest <= i < dest + num) ==> #[trigger] final(buf)@[i] == old(buf)@[i],
{
    let len = buf.len();
    if dest < src {
        let mut i: usize = 0;
        while i < num
            invariant
                dest < src,
                dest + num <= buf@.len(),
                src + num <= buf@.len(),
                buf@.len() == old(buf)@.len(),
                buf@.len() == len,
                i <= num,
                forall|j: int| 0 <= j < i ==> #[trigger] buf@[dest + j] == old(buf)@[src + j],
                forall|j: int|
                    0 <= j < buf@.len() && !(dest <= j < dest + i) ==> #[trigger] buf@[j] == old(buf)@[j],
            decreases num - i,
        {
            let b = buf[src + i];
            buf[dest + i] = b;
            i = i + 1;
        }
    } else {
        let mut i: usize = num;
        while i > 0
            invariant
                dest >= src,
                dest + num <= buf@.len(),
                src + num <= buf@.len(),
                buf@.len() == old(buf)@.len(),
                buf@.len() == len,
                i <= num,
                forall|j: int| i <= j < num ==> #[trigger] buf@[dest + j] == old(buf)@[src + j],
                forall|j: int|
                    0 <= j < buf@.len() && !(dest + i <= j < dest + num) ==> #[trigger] buf@[j] == old(buf)@[j],
            decreases i,
        {
            i = i - 1;
            let b = buf[src + i];
            buf[dest + i] = b;
        }
    }
}

} // verus!
