use vstd::prelude::*;

use x86_64::structures::paging::{Page, PhysFrame, Size4KiB};
use x86_64::{PhysAddr, VirtAddr};

verus! {

/// Size of a page and of a frame.
pub const PAGE_SIZE: u64 = 4096;

/// Physical addresses have 52 bits.
pub const PHYS_ADDR_LIMIT: u64 = 0x10_0000_0000_0000;

/// Start of the kernel heap.
pub const HEAP_START: u64 = 0x4444_4444_0000;

/// Size of the kernel heap: 100 KiB.
pub const HEAP_SIZE: u64 = 102400;

/// Start of the region user mappings are carved from.
pub const USER_SPACE_START: u64 = 0x4000_0000_0000;

/// Pages in the user region.
pub const USER_SPACE_PAGES: usize = 4096;

/// The start of the 4 KiB unit that holds `addr`.
pub open spec fn align_down(addr: u64) -> u64 {
    (addr - addr % PAGE_SIZE) as u64
}

/// Bits 48 to 63 of a canonical address copy bit 47.
pub open spec fn is_canonical(addr: u64) -> bool {
    addr < 0x8000_0000_0000 || addr >= 0xffff_8000_0000_0000
}

/// Relies on x86_64's `PhysFrame::containing_address` (with `PhysAddr::new`,
/// which panics at 2^52 and above): the start of the frame holding `addr`.
#[verifier::external_body]
fn frame_containing(addr: u64) -> (r: u64)
    requires
        addr < PHYS_ADDR_LIMIT,
    ensures
        r == align_down(addr),
{
    PhysFrame::<Size4KiB>::containing_address(PhysAddr::new(addr)).start_address().as_u64()
}

/// Relies on x86_64's `Page::containing_address` (with `VirtAddr::try_new`,
/// which refuses a non-canonical address): the start of the page holding
/// `addr`.
#[verifier::external_body]
fn page_containing(addr: u64) -> (r: Option<u64>)
    ensures
        r == if is_canonical(addr) { Some(align_down(addr)) } else { None::<u64> },
{
    match VirtAddr::try_new(addr) {
        Ok(v) => Some(Page::<Size4KiB>::containing_address(v).start_address().as_u64()),
        Err(_) => None,
    }
}

#[derive(Debug, Clone, Copy, PartialEq, Eq, Structural)]
pub enum MemoryRegionType {
    /// Free for the kernel to use.
    Usable,
    /// Anything else: firmware, the kernel image, device memory.
    Reserved,
}

/// An entry of the boot memory map: the bytes `[start, end)`.
#[derive(Debug, Clone, Copy, PartialEq, Eq, Structural)]
pub struct MemoryRegion {
    pub start: u64,
    pub end: u64,
    pub region_type: MemoryRegionType,
}

/// The frames a region gives: one at every 4 KiB step from its start
/// below its end, if it is usable.
pub open spec fn frame_count(r: MemoryRegion) -> int {
    if r.region_type == MemoryRegionType::Usable && r.end > r.start {
        (r.end - r.start + PAGE_SIZE - 1) / (PAGE_SIZE as int)
    } else {
        0
    }
}

/// Frame `n` of the stream of usable frames of `regions[i..]`.
pub open spec fn frame_from(regions: Seq<MemoryRegion>, i: int, n: int) -> Option<u64>
    decreases regions.len() - i,
{
    if i < 0 || i >= regions.len() || n < 0 {
        None
    } else if n < frame_count(regions[i]) {
        Some(align_down((regions[i].start + n * PAGE_SIZE) as u64))
    } else {
        frame_from(regions, i + 1, n - frame_count(regions[i]))
    }
}

/// Frame `n` of the stream of usable frames of the map.
pub open spec fn usable_frame(regions: Seq<MemoryRegion>, n: int) -> Option<u64> {
    frame_from(regions, 0, n)
}

/// Every region lies below the physical address limit.
pub open spec fn map_wf(regions: Seq<MemoryRegion>) -> bool {
    forall|i: int| 0 <= i < regions.len() ==> (#[trigger] regions[i]).end <= PHYS_ADDR_LIMIT
}

proof fn lemma_frame_from_earlier(regions: Seq<MemoryRegion>, i: int, m: int, n: int)
    requires
        0 <= m <= n,
        frame_from(regions, i, n) is Some,
    ensures
        frame_from(regions, i, m) is Some,
    decreases regions.len() - i,
{
    if m >= frame_count(regions[i]) {
        lemma_frame_from_earlier(regions, i + 1, m - frame_count(regions[i]), n - frame_count(regions[i]));
    }
}

/// Once a frame is in the stream, so is every earlier one.
pub proof fn lemma_usable_frame_earlier(regions: Seq<MemoryRegion>, m: int, n: int)
    requires
        0 <= m <= n,
        usable_frame(regions, n) is Some,
    ensures
        usable_frame(regions, m) is Some,
{
    lemma_frame_from_earlier(regions, 0, m, n);
}

/// A bump allocator over the usable frames of the boot memory map: the
/// cursor counts the frames handed out and never goes back.
pub struct BootInfoFrameAllocator {
    memory_map: Vec<MemoryRegion>,
    next: usize,
}

impl BootInfoFrameAllocator {
    pub closed spec fn regions(&self) -> Seq<MemoryRegion> {
        self.memory_map@
    }

    pub closed spec fn cursor(&self) -> nat {
        self.next as nat
    }

    pub open spec fn wf(&self) -> bool {
        map_wf(self.regions())
    }

    /// An allocator that has handed out no frame yet.
    pub fn init(memory_map: Vec<MemoryRegion>) -> (r: Self)
        requires
            map_wf(memory_map@),
        ensures
            r.wf(),
            r.regions() == memory_map@,
            r.cursor() == 0,
    {
        BootInfoFrameAllocator { memory_map, next: 0 }
    }

    /// Frame `n` of the stream of usable frames.
    pub fn usable_frame(&self, n: usize) -> (r: Option<u64>)
        requires
            self.wf(),
        ensures
            r == usable_frame(self.regions(), n as int),
    {
        let mut rest: usize = n;
        let mut i: usize = 0;
        while i < self.memory_map.len()
            invariant
                self.wf(),
                i <= self.memory_map@.len(),
                rest <= n,
                usable_frame(self.regions(), n as int) == frame_from(self.regions(), i as int, rest as int),
            decreases self.memory_map.len() - i,
        {
            let r = self.memory_map[i];
            if r.region_type == MemoryRegionType::Usable && r.end > r.start {
                let span = r.end - r.start;
                let count = span / PAGE_SIZE + if span % PAGE_SIZE == 0 { 0 } else { 1 };
                assert(count == frame_count(r));
                if (rest as u64) < count {
                    assert(r.end <= PHYS_ADDR_LIMIT);
                    assert(rest * PAGE_SIZE < span) by (nonlinear_arith)
                        requires
                            rest < count,
                            count == span / PAGE_SIZE + if span % PAGE_SIZE == 0 { 0u64 } else { 1u64 },
                            PAGE_SIZE == 4096,
                    {}
                    return Some(frame_containing(r.start + (rest as u64) * PAGE_SIZE));
                }
                rest = rest - count as usize;
            }
            i = i + 1;
        }
        None
    }

    /// Hands out the frame at the cursor and moves the cursor on; `None`
    /// once the usable frames are used up.
    pub fn allocate_frame(&mut self) -> (r: Option<u64>)
        requires
            old(self).wf(),
        ensures
            final(self).wf(),
            final(self).regions() == old(self).regions(),
            r == if old(self).cursor() < usize::MAX {
                usable_frame(old(self).regions(), old(self).cursor() as int)
            } else {
                None::<u64>
            },
            final(self).cursor() == if r is Some { old(self).cursor() + 1 } else { old(self).cursor() + 0 },
    {
        if self.next == usize::MAX {
            return None;
        }
        let frame = self.usable_frame(self.next);
        if frame.is_some() {
            self.next = self.next + 1;
        }
        frame
    }
}

} // verus!

verus! {

/// The `count` pages from position `i` of the user region are all free.
pub open spec fn run_free(used: Seq<bool>, i: int, count: int) -> bool {
    &&& 0 <= i
    &&& i + count <= used.len()
    &&& forall|j: int| i <= j < i + count ==> !(#[trigger] used[j])
}

/// The lowest position at or after `i` where `count` free pages start.
pub open spec fn first_fit_from(used: Seq<bool>, count: int, i: int) -> Option<int>
    decreases used.len() - i,
{
    if i < 0 || i + count > used.len() {
        None
    } else if run_free(used, i, count) {
        Some(i)
    } else {
        first_fit_from(used, count, i + 1)
    }
}

/// The usage map with positions `[i, i + count)` set to `v`.
pub open spec fn mark(used: Seq<bool>, i: int, count: int, v: bool) -> Seq<bool> {
    Seq::new(used.len(), |j: int| if i <= j < i + count { v } else { used[j] })
}

/// The frames `[cursor, cursor + count)` of the stream.
pub open spec fn frames_at(regions: Seq<MemoryRegion>, cursor: int, count: int) -> Seq<u64> {
    Seq::new(count as nat, |j: int| usable_frame(regions, cursor + j)->Some_0)
}

/// A virtual page and the frame it is to be mapped to.
#[derive(Debug, Clone, Copy, PartialEq, Eq, Structural)]
pub struct PageMapping {
    pub page: u64,
    pub frame: u64,
}

/// A run of user pages and the frames to map them to, in order.
pub struct PageAllocation {
    pub base: u64,
    pub frames: Vec<u64>,
}

#[derive(Debug, Clone, Copy, PartialEq, Eq, Structural)]
pub enum MemoryError {
    NotInitialized,
    OutOfMemory,
}

impl MemoryError {
    /// A short description of the error.
    pub fn message(&self) -> &'static str {
        match self {
            MemoryError::NotInitialized => "Memory manager not initialized",
            MemoryError::OutOfMemory => "out of memory",
        }
    }
}

/// Frames for the kernel heap and for user pages. Which pages of the user
/// region are in use is kept in a map, so mappings never alias; the page
/// tables themselves are the caller's.
pub struct MemoryManager {
    frame_allocator: BootInfoFrameAllocator,
    used_pages: Vec<bool>,
}

/// Pages of the kernel heap.
pub open spec fn heap_pages() -> int {
    (align_down((HEAP_START + HEAP_SIZE - 1) as u64) - align_down(HEAP_START)) / (PAGE_SIZE as int) + 1
}

impl MemoryManager {
    pub closed spec fn frames(&self) -> BootInfoFrameAllocator {
        self.frame_allocator
    }

    pub closed spec fn used(&self) -> Seq<bool> {
        self.used_pages@
    }

    pub open spec fn wf(&self) -> bool {
        &&& self.frames().wf()
        &&& self.used().len() == USER_SPACE_PAGES
    }

    /// A manager over the map, with the whole user region free.
    pub fn new(memory_map: Vec<MemoryRegion>) -> (r: Self)
        requires
            map_wf(memory_map@),
        ensures
            r.wf(),
            r.frames().regions() == memory_map@,
            r.frames().cursor() == 0,
            forall|j: int| 0 <= j < USER_SPACE_PAGES ==> !(#[trigger] r.used()[j]),
    {
        let mut used_pages: Vec<bool> = Vec::new();
        let mut i: usize = 0;
        while i < USER_SPACE_PAGES
            invariant
                i <= USER_SPACE_PAGES,
                used_pages@.len() == i,
                forall|j: int| 0 <= j < i ==> !(#[trigger] used_pages@[j]),
            decreases USER_SPACE_PAGES - i,
        {
            used_pages.push(false);
            i = i + 1;
        }
        MemoryManager { frame_allocator: BootInfoFrameAllocator::init(memory_map), used_pages }
    }

    /// Hands out the next frame, for the page tables themselves.
    pub fn allocate_frame(&mut self) -> (r: Option<u64>)
        requires
            old(self).wf(),
        ensures
            final(self).wf(),
            final(self).used() == old(self).used(),
            final(self).frames().regions() == old(self).frames().regions(),
            r == if old(self).frames().cursor() < usize::MAX {
                usable_frame(old(self).frames().regions(), old(self).frames().cursor() as int)
            } else {
                None::<u64>
            },
            final(self).frames().cursor() == if r is Some { old(self).frames().cursor() + 1 } else { old(self).frames().cursor() + 0 },
    {
        self.frame_allocator.allocate_frame()
    }

    /// Position in the user region of the first run of `count` free pages.
    fn free_run(&self, count: usize) -> (r: Option<usize>)
        requires
            self.wf(),
        ensures
            r == match first_fit_from(self.used(), count as int, 0) {
                Some(i) => Some(i as usize),
                None => None::<usize>,
            },
    {
        if count > self.used_pages.len() {
            return None;
        }
        let last = self.used_pages.len() - count;
        let mut i: usize = 0;
        while i <= last
            invariant
                self.wf(),
                last + count == self.used().len(),
                first_fit_from(self.used(), count as int, 0) == first_fit_from(self.used(), count as int, i as int),
            decreases last + 1 - i,
        {
            let mut j: usize = 0;
            while j < count && !self.used_pages[i + j]
                invariant
                    self.wf(),
                    i <= last,
                    last + count == self.used().len(),
                    j <= count,
                    forall|k: int| i <= k < i + j ==> !(#[trigger] self.used()[k]),
                decreases count - j,
            {
                j = j + 1;
            }
            if j == count {
                return Some(i);
            }
            assert(!run_free(self.used(), i as int, count as int));
            i = i + 1;
        }
        None
    }

    /// Base address of the first run of `count` free pages of the user
    /// region.
    pub fn find_free_pages(&self, count: usize) -> (r: Option<u64>)
        requires
            self.wf(),
        ensures
            r == match first_fit_from(self.used(), count as int, 0) {
                Some(i) => Some((USER_SPACE_START + i * PAGE_SIZE) as u64),
                None => None::<u64>,
            },
    {
        match self.free_run(count) {
            Some(i) => {
                proof {
                    lemma_first_fit(self.used(), count as int, 0);
                }
                Some(USER_SPACE_START + (i as u64) * PAGE_SIZE)
            },
            None => None,
        }
    }

    /// Takes `count` frames from the allocator, if that many remain.
    fn take_frames(&mut self, count: usize) -> (r: Option<Vec<u64>>)
        requires
            old(self).wf(),
        ensures
            final(self).wf(),
            final(self).used() == old(self).used(),
            final(self).frames().regions() == old(self).frames().regions(),
            ({
                let c = old(self).frames().cursor() as int;
                let ok = c + count <= usize::MAX && (count == 0 || usable_frame(old(self).frames().regions(), c + count - 1) is Some);
                &&& (r is Some <==> ok)
                &&& r matches Some(v) ==> v@ == frames_at(old(self).frames().regions(), c, count as int)
                    && final(self).frames().cursor() == c + count
                &&& r is None ==> final(self).frames().cursor() == c
            }),
    {
        let c = self.frame_allocator.next;
        if count > usize::MAX - c {
            return None;
        }
        if count > 0 && self.frame_allocator.usable_frame(c + count - 1).is_none() {
            return None;
        }
        let ghost regions = self.frame_allocator.regions();
        let mut frames: Vec<u64> = Vec::new();
        let mut k: usize = 0;
        while k < count
            invariant
                self.wf(),
                self.used() == old(self).used(),
                self.frames().regions() == regions,
                k <= count,
                c + count <= usize::MAX,
                count > 0 ==> usable_frame(regions, c + count - 1) is Some,
                self.frames().cursor() == c + k,
                frames@ == frames_at(regions, c as int, k as int),
            decreases count - k,
        {
            proof {
                lemma_usable_frame_earlier(regions, c + k, c + count - 1);
            }
            let f = self.frame_allocator.allocate_frame();
            match f {
                Some(f) => frames.push(f),
                None => {},
            }
            assert(frames@ == frames_at(regions, c as int, k + 1));
            k = k + 1;
        }
        Some(frames)
    }

    /// Reserves the first run of `count` free user pages and the frames to
    /// back them. `None`, with nothing changed, when `count` is 0, no run is
    /// free, or the frames do not suffice.
    pub fn allocate_pages(&mut self, count: usize) -> (r: Option<PageAllocation>)
        requires
            old(self).wf(),
        ensures
            final(self).wf(),
            final(self).frames().regions() == old(self).frames().regions(),
            ({
                let c = old(self).frames().cursor() as int;
                let fit = first_fit_from(old(self).used(), count as int, 0);
                let ok = count > 0 && fit is Some && c + count <= usize::MAX
                    && usable_frame(old(self).frames().regions(), c + count - 1) is Some;
                &&& (r is Some <==> ok)
                &&& r matches Some(a) ==> {
                    &&& a.base == USER_SPACE_START + fit->Some_0 * PAGE_SIZE
                    &&& a.frames@ == frames_at(old(self).frames().regions(), c, count as int)
                    &&& final(self).frames().cursor() == c + count
                    &&& final(self).used() == mark(old(self).used(), fit->Some_0, count as int, true)
                }
                &&& r is None ==> final(self).frames().cursor() == c && final(self).used() == old(self).used()
            }),
    {
        if count == 0 {
            return None;
        }
        let i = match self.free_run(count) {
            Some(i) => i,
            None => {
                return None;
            },
        };
        proof {
            lemma_first_fit(self.used(), count as int, 0);
        }
        let frames = match self.take_frames(count) {
            Some(frames) => frames,
            None => {
                return None;
            },
        };
        let ghost before = self.used();
        let ghost fa = self.frames();
        let mut j: usize = 0;
        while j < count
            invariant
                self.frames() == fa,
                self.used_pages@.len() == USER_SPACE_PAGES,
                i + count <= USER_SPACE_PAGES,
                j <= count,
                self.used() == mark(before, i as int, j as int, true),
            decreases count - j,
        {
            self.used_pages.set(i + j, true);
            assert(self.used() == mark(before, i as int, j + 1, true));
            j = j + 1;
        }
        Some(PageAllocation { base: USER_SPACE_START + (i as u64) * PAGE_SIZE, frames })
    }
}

proof fn lemma_first_fit(used: Seq<bool>, count: int, i: int)
    requires
        0 <= i,
    ensures
        first_fit_from(used, count, i) matches Some(k) ==> i <= k && run_free(used, k, count),
    decreases used.len() - i,
{
    if i + count <= used.len() && !run_free(used, i, count) {
        lemma_first_fit(used, count, i + 1);
    }
}

} // verus!

verus! {

/// The page after `j` whole pages from `page`, as an integer.
pub open spec fn nth_page(page: u64, j: int) -> int {
    page + j * PAGE_SIZE
}

/// A page that exists: it fits in 64 bits and is canonical.
pub open spec fn page_ok(p: int) -> bool {
    p <= u64::MAX && is_canonical(p as u64)
}

/// `pages` are the pages unmapped for `count` pages from `addr`: those from
/// the page holding `addr` on, up to the first that does not exist.
pub open spec fn unmapped(addr: u64, count: int, pages: Seq<u64>) -> bool {
    if !is_canonical(addr) {
        pages.len() == 0
    } else {
        let page = align_down(addr);
        &&& pages.len() <= count
        &&& forall|j: int| 0 <= j < pages.len() ==> #[trigger] pages[j] == nth_page(page, j)
        &&& forall|j: int| 0 <= j < pages.len() ==> page_ok(#[trigger] nth_page(page, j))
        &&& pages.len() < count ==> !page_ok(nth_page(page, pages.len() as int))
    }
}

/// The usage map once the user pages among `pages` are free again.
pub open spec fn freed(used: Seq<bool>, pages: Seq<u64>) -> Seq<bool> {
    Seq::new(used.len(), |k: int| if pages.contains((USER_SPACE_START + k * PAGE_SIZE) as u64) { false } else { used[k] })
}

proof fn lemma_aligned_eq(a: int, b: int)
    requires
        a % 4096 == 0,
        b % 4096 == 0,
        a <= b < a + 4096,
    ensures
        a == b,
{
    assert(a == b) by (nonlinear_arith)
        requires
            a % 4096 == 0,
            b % 4096 == 0,
            a <= b < a + 4096,
    {}
}

impl MemoryManager {
    /// Frees the user pages among the `count` pages from the page holding
    /// `addr`; returns the pages to unmap. Frames are not reclaimed.
    pub fn deallocate_pages(&mut self, addr: u64, count: usize) -> (r: Vec<u64>)
        requires
            old(self).wf(),
        ensures
            final(self).wf(),
            final(self).frames() == old(self).frames(),
            unmapped(addr, count as int, r@),
            final(self).used() == freed(old(self).used(), r@),
    {
        let mut pages: Vec<u64> = Vec::new();
        let page = match page_containing(addr) {
            Some(p) => p,
            None => {
                assert(freed(self.used(), pages@) == self.used());
                return pages;
            },
        };
        let ghost before = self.used();
        assert(page % 4096 == 0);
        let mut i: usize = 0;
        let mut going = true;
        while going && i < count
            invariant
                self.wf(),
                self.frames() == old(self).frames(),
                before == old(self).used(),
                !going ==> i < count && !page_ok(nth_page(page, i as int)),
                is_canonical(addr),
                page == align_down(addr),
                page % 4096 == 0,
                i <= count,
                pages@.len() == i,
                forall|j: int| 0 <= j < i ==> #[trigger] pages@[j] == nth_page(page, j),
                forall|j: int| 0 <= j < i ==> page_ok(#[trigger] nth_page(page, j)),
                self.used() == freed(before, pages@),
            decreases count - i + if going { 1int } else { 0int },
        {
            if (i as u64) > (u64::MAX - page) / PAGE_SIZE {
                assert(nth_page(page, i as int) > u64::MAX) by (nonlinear_arith)
                    requires
                        i > (u64::MAX - page) / 4096,
                        page <= u64::MAX,
                {}
                going = false;
            } else {
            assert(nth_page(page, i as int) <= u64::MAX) by (nonlinear_arith)
                requires
                    i <= (u64::MAX - page) / 4096,
                    page <= u64::MAX,
            {}
            let p = page + (i as u64) * PAGE_SIZE;
            if page_containing(p).is_none() {
                going = false;
            } else {
            let ghost old_pages = pages@;
            assert(p as int == nth_page(page, i as int));
            assert(is_canonical(p));
            assert(page_ok(nth_page(page, i as int)));
            pages.push(p);
            assert forall|j: int| 0 <= j < i + 1 implies #[trigger] pages@[j] == nth_page(page, j) by {
                if j < i {
                    assert(old_pages[j] == pages@[j]);
                }
            }
            assert(p % 4096 == 0) by (nonlinear_arith)
                requires
                    p == page + i * 4096,
                    page % 4096 == 0,
            {}
            if p >= USER_SPACE_START && p < USER_SPACE_START + (USER_SPACE_PAGES as u64) * PAGE_SIZE {
                let k = ((p - USER_SPACE_START) / PAGE_SIZE) as usize;
                assert(USER_SPACE_START + k * 4096 == p) by (nonlinear_arith)
                    requires
                        k == (p - USER_SPACE_START) / 4096,
                        p % 4096 == 0,
                        USER_SPACE_START % 4096 == 0,
                        p >= USER_SPACE_START,
                {}
                let ghost pre_used = self.used();
                self.used_pages.set(k, false);
                assert forall|m: int| 0 <= m < before.len() implies #[trigger] self.used()[m] == freed(before, pages@)[m] by {
                    let a = (USER_SPACE_START + m * PAGE_SIZE) as u64;
                    if m != k {
                        if a == p {
                            assert(USER_SPACE_START + m * 4096 == USER_SPACE_START + k * 4096);
                        }
                        if old_pages.contains(a) {
                            let j = choose|j: int| 0 <= j < old_pages.len() && old_pages[j] == a;
                            assert(pages@[j] == a);
                        }
                        if pages@.contains(a) {
                            let j = choose|j: int| 0 <= j < pages@.len() && pages@[j] == a;
                            if j < old_pages.len() {
                                assert(old_pages[j] == a);
                            }
                        }
                    } else {
                        assert(pages@[i as int] == p);
                    }
                }
                assert(self.used() == freed(before, pages@));
            } else {
                assert forall|m: int| 0 <= m < before.len() implies #[trigger] self.used()[m] == freed(before, pages@)[m] by {
                    let a = (USER_SPACE_START + m * PAGE_SIZE) as u64;
                    assert(a != p);
                    if old_pages.contains(a) {
                        let j = choose|j: int| 0 <= j < old_pages.len() && old_pages[j] == a;
                        assert(pages@[j] == a);
                    }
                    if pages@.contains(a) {
                        let j = choose|j: int| 0 <= j < pages@.len() && pages@[j] == a;
                        if j < old_pages.len() {
                            assert(old_pages[j] == a);
                        }
                    }
                }
                assert(self.used() == freed(before, pages@));
            }
            i = i + 1;
            }
            }
        }
        assert(unmapped(addr, count as int, pages@));
        pages
    }

    /// Takes the frames for the kernel heap and pairs them with its pages,
    /// in order; fails with nothing taken if the frames do not suffice.
    pub fn init_heap(&mut self) -> (r: Result<Vec<PageMapping>, MemoryError>)
        requires
            old(self).wf(),
        ensures
            final(self).wf(),
            final(self).used() == old(self).used(),
            final(self).frames().regions() == old(self).frames().regions(),
            ({
                let c = old(self).frames().cursor() as int;
                let ok = c + heap_pages() <= usize::MAX && usable_frame(old(self).frames().regions(), c + heap_pages() - 1) is Some;
                &&& (r is Ok <==> ok)
                &&& r matches Ok(v) ==> {
                    &&& v@.len() == heap_pages()
                    &&& forall|j: int| 0 <= j < v@.len() ==> (#[trigger] v@[j]).page == HEAP_START + j * PAGE_SIZE
                        && v@[j].frame == usable_frame(old(self).frames().regions(), c + j)->Some_0
                    &&& final(self).frames().cursor() == c + heap_pages()
                }
                &&& r is Err ==> r == Err::<Vec<PageMapping>, MemoryError>(MemoryError::OutOfMemory)
                    && final(self).frames().cursor() == c
            }),
    {
        let first = match page_containing(HEAP_START) {
            Some(p) => p,
            None => {
                return Err(MemoryError::OutOfMemory);
            },
        };
        let last = match page_containing(HEAP_START + HEAP_SIZE - 1) {
            Some(p) => p,
            None => {
                return Err(MemoryError::OutOfMemory);
            },
        };
        let count = ((last - first) / PAGE_SIZE + 1) as usize;
        assert(count == heap_pages());
        assert(count == 25);
        let frames = match self.take_frames(count) {
            Some(f) => f,
            None => {
                return Err(MemoryError::OutOfMemory);
            },
        };
        let mut mappings: Vec<PageMapping> = Vec::new();
        let mut j: usize = 0;
        while j < count
            invariant
                count == 25,
                first == HEAP_START,
                frames@.len() == count,
                j <= count,
                mappings@.len() == j,
                forall|k: int| 0 <= k < j ==> (#[trigger] mappings@[k]).page == HEAP_START + k * PAGE_SIZE
                    && mappings@[k].frame == frames@[k],
            decreases count - j,
        {
            mappings.push(PageMapping { page: first + (j as u64) * PAGE_SIZE, frame: frames[j] });
            j = j + 1;
        }
        Ok(mappings)
    }
}

} // verus!

verus! {

/// Whether the memory slot holds a well-formed manager, if any.
pub open spec fn slot_wf(m: Option<MemoryManager>) -> bool {
    m matches Some(v) ==> v.wf()
}

/// A memory manager over the boot memory map.
pub fn init(memory_map: Vec<MemoryRegion>) -> (r: MemoryManager)
    requires
        map_wf(memory_map@),
    ensures
        r.wf(),
        r.frames().regions() == memory_map@,
        r.frames().cursor() == 0,
        forall|j: int| 0 <= j < USER_SPACE_PAGES ==> !(#[trigger] r.used()[j]),
{
    MemoryManager::new(memory_map)
}

/// The heap's pages and frames to map, from the manager of the slot.
pub fn init_heap(manager: &mut Option<MemoryManager>) -> (r: Result<Vec<PageMapping>, MemoryError>)
    requires
        slot_wf(*old(manager)),
    ensures
        slot_wf(*final(manager)),
        *old(manager) is None ==> r == Err::<Vec<PageMapping>, MemoryError>(MemoryError::NotInitialized)
            && *final(manager) is None,
        *old(manager) is Some ==> *final(manager) is Some && ({
            let m = (*old(manager))->Some_0;
            let c = m.frames().cursor() as int;
            &&& (r is Ok <==> c + heap_pages() <= usize::MAX && usable_frame(m.frames().regions(), c + heap_pages() - 1) is Some)
            &&& r matches Ok(v) ==> v@.len() == heap_pages() && forall|j: int| 0 <= j < v@.len() ==> (#[trigger] v@[j]).page
                == HEAP_START + j * PAGE_SIZE && v@[j].frame == usable_frame(m.frames().regions(), c + j)->Some_0
            &&& r is Err ==> r == Err::<Vec<PageMapping>, MemoryError>(MemoryError::OutOfMemory)
        }),
{
    match manager {
        Some(m) => m.init_heap(),
        None => Err(MemoryError::NotInitialized),
    }
}

/// Whether `count` user pages and their frames can be had: `count` is not
/// 0, a run of that many pages is free and the frames remain.
pub open spec fn allocation_possible(m: MemoryManager, count: int) -> bool {
    let c = m.frames().cursor() as int;
    &&& count > 0
    &&& first_fit_from(m.used(), count, 0) is Some
    &&& c + count <= usize::MAX
    &&& usable_frame(m.frames().regions(), c + count - 1) is Some
}

/// Reserves `count` user pages and their frames (see
/// `MemoryManager::allocate_pages`) from the manager of the slot.
pub fn allocate_pages(manager: &mut Option<MemoryManager>, count: usize) -> (r: Option<PageAllocation>)
    requires
        slot_wf(*old(manager)),
    ensures
        slot_wf(*final(manager)),
        *old(manager) is None ==> r is None && *final(manager) is None,
        *old(manager) is Some ==> *final(manager) is Some
            && (r is Some <==> allocation_possible((*old(manager))->Some_0, count as int)),
        r matches Some(a) ==> a.frames@.len() == count && USER_SPACE_START <= a.base
            < USER_SPACE_START + USER_SPACE_PAGES * PAGE_SIZE,
{
    match manager {
        Some(m) => {
            let r = m.allocate_pages(count);
            proof {
                lemma_first_fit((*old(manager))->Some_0.used(), count as int, 0);
            }
            r
        },
        None => None,
    }
}

/// Frees `count` pages from the page holding `addr` in the manager of the
/// slot; the pages to unmap.
pub fn deallocate_pages(manager: &mut Option<MemoryManager>, addr: u64, count: usize) -> (r: Vec<u64>)
    requires
        slot_wf(*old(manager)),
    ensures
        slot_wf(*final(manager)),
        *old(manager) is None ==> r@.len() == 0 && *final(manager) is None,
        *old(manager) is Some ==> *final(manager) is Some && unmapped(addr, count as int, r@),
{
    match manager {
        Some(m) => m.deallocate_pages(addr, count),
        None => Vec::new(),
    }
}

} // verus!

verus! {

/// The regions ascend without overlapping and start on frame boundaries,
/// as a boot memory map does.
pub open spec fn map_sorted(regions: Seq<MemoryRegion>) -> bool {
    &&& forall|i: int| 0 <= i < regions.len() ==> (#[trigger] regions[i]).start <= regions[i].end
    &&& forall|i: int| 0 <= i < regions.len() ==> (#[trigger] regions[i]).start % PAGE_SIZE == 0
    &&& forall|i: int, j: int| 0 <= i < j < regions.len() ==> (#[trigger] regions[i]).end <= (#[trigger] regions[j]).start
}

proof fn lemma_frame_in_region(r: MemoryRegion, n: int)
    requires
        r.start % PAGE_SIZE == 0,
        r.end <= PHYS_ADDR_LIMIT,
        0 <= n < frame_count(r),
    ensures
        r.start + n * PAGE_SIZE < r.end,
        align_down((r.start + n * PAGE_SIZE) as u64) == r.start + n * PAGE_SIZE,
{
    let s = r.start as int;
    let e = r.end as int;
    assert(s + n * 4096 < e) by (nonlinear_arith)
        requires
            0 <= n < (e - s + 4095) / 4096,
            s < e,
    {}
    assert((s + n * 4096) % 4096 == 0) by (nonlinear_arith)
        requires
            s % 4096 == 0,
            0 <= n,
    {}
}

proof fn lemma_frame_lower_bound(regions: Seq<MemoryRegion>, i: int, n: int)
    requires
        map_sorted(regions),
        map_wf(regions),
        0 <= i,
        frame_from(regions, i, n) is Some,
    ensures
        i < regions.len(),
        frame_from(regions, i, n)->Some_0 >= regions[i].start,
    decreases regions.len() - i,
{
    if n < frame_count(regions[i]) {
        lemma_frame_in_region(regions[i], n);
        assert(n * PAGE_SIZE >= 0) by (nonlinear_arith)
            requires
                n >= 0,
        {}
    } else {
        lemma_frame_lower_bound(regions, i + 1, n - frame_count(regions[i]));
        assert(regions[i].end <= regions[i + 1].start);
    }
}

proof fn lemma_frames_ascend_from(regions: Seq<MemoryRegion>, i: int, m: int, n: int)
    requires
        map_sorted(regions),
        map_wf(regions),
        0 <= i,
        0 <= m < n,
        frame_from(regions, i, n) is Some,
    ensures
        frame_from(regions, i, m) is Some,
        frame_from(regions, i, m)->Some_0 < frame_from(regions, i, n)->Some_0,
    decreases regions.len() - i,
{
    lemma_frame_from_earlier(regions, i, m, n);
    let c = frame_count(regions[i]);
    if m < c {
        lemma_frame_in_region(regions[i], m);
        if n < c {
            lemma_frame_in_region(regions[i], n);
            assert(m * PAGE_SIZE < n * PAGE_SIZE) by (nonlinear_arith)
                requires
                    m < n,
            {}
        } else {
            lemma_frame_lower_bound(regions, i + 1, n - c);
            assert(regions[i].end <= regions[i + 1].start);
        }
    } else {
        lemma_frames_ascend_from(regions, i + 1, m - c, n - c);
    }
}

/// On a sorted map, later frames of the stream lie at higher addresses: as
/// the cursor only moves on, no allocation returns a frame below one
/// returned before it.
pub proof fn lemma_frames_ascend(regions: Seq<MemoryRegion>, m: int, n: int)
    requires
        map_sorted(regions),
        map_wf(regions),
        0 <= m < n,
        usable_frame(regions, n) is Some,
    ensures
        usable_frame(regions, m) is Some,
        usable_frame(regions, m)->Some_0 < usable_frame(regions, n)->Some_0,
{
    lemma_frames_ascend_from(regions, 0, m, n);
}

} // verus!
