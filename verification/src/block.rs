//! The block heap allocator: fine-grained sub-page allocation atop the
//! mapper and the frame ledger, with on-demand page backing.

use vstd::prelude::*;
use crate::addr::Page;
use crate::bits::{bit64, clear_bit64, get_bit64, set_bit64};
use crate::frame::{count_free, FrameManager, FrameState};
use crate::mapper::{MapError, PageManager};
use crate::paging::{leaf_result, TableEntry, TableEntryFlags, WalkResult};

verus! {

/// The size of one allocator block, in bytes: one 64th of a page.
pub const BLOCK_SIZE: u64 = 64;

/// The number of blocks (bits) of one [`BlockPage`].
pub const BLOCKS_PER: u64 = 64;

/// The page index at which the allocator's own block-page map is kept,
/// within a reserved region well above any heap data page.
pub const ALLOCATOR_BASE_PAGE: u64 = 0x8_0000_0000;

/// The attributes of the pages the allocator maps for itself: present and
/// writable.
pub const HEAP_PAGE_ATTRS: u64 = 0x3;

/// One page worth of heap blocks: a 64-bit bitmap word, one bit per block.
/// The word is zero exactly when the corresponding heap page is entirely
/// free and, in the steady state, unmapped.
#[derive(Clone, Copy, PartialEq, Eq, Structural, Debug)]
pub struct BlockPage(u64);

impl BlockPage {
    /// The bitmap word.
    pub closed spec fn value_spec(self) -> u64 {
        self.0
    }

    /// Whether block `j` of this block page is allocated.
    pub open spec fn bit_spec(self, j: u64) -> bool {
        bit64(self.value_spec(), j)
    }

    /// The empty block page, as a spec value.
    pub closed spec fn empty_spec() -> BlockPage {
        BlockPage(0)
    }

    /// An empty block page: all blocks free.
    pub fn empty() -> (r: Self)
        ensures
            r.value_spec() == 0,
            r == BlockPage::empty_spec(),
    {
        BlockPage(0)
    }

    /// Whether the block page is empty.
    pub fn is_empty(&self) -> (r: bool)
        ensures
            r == (self.value_spec() == 0),
    {
        self.0 == 0
    }

    /// Whether the block page is full.
    pub fn is_full(&self) -> (r: bool)
        ensures
            r == (self.value_spec() == u64::MAX),
    {
        self.0 == u64::MAX
    }

    /// Unset all of the block page's blocks.
    pub fn set_empty(&mut self)
        ensures
            final(self).value_spec() == 0,
    {
        self.0 = u64::MIN;
    }

    /// Set all of the block page's blocks.
    pub fn set_full(&mut self)
        ensures
            final(self).value_spec() == u64::MAX,
    {
        self.0 = u64::MAX;
    }

    /// The bitmap word.
    pub fn value(&self) -> (r: u64)
        ensures
            r == self.value_spec(),
    {
        self.0
    }

    /// Replace the bitmap word.
    pub fn value_mut(&mut self, value: u64)
        ensures
            final(self).value_spec() == value,
    {
        self.0 = value;
    }
}

/// Whether block `b` is allocated in the map `map`.
pub open spec fn block_set(map: Seq<BlockPage>, b: int) -> bool {
    map[b / 64].bit_spec((b % 64) as u64)
}

/// Whether every allocated block of word `i` of the map lies in the block
/// range `start .. end`: clearing that range empties the word.
pub open spec fn word_emptied_by(map: Seq<BlockPage>, i: int, start: int, end: int) -> bool {
    forall|j: u64| #[trigger] map[i].bit_spec(j) ==> start <= i * 64 + j < end
}

/// The number of 4096-byte metadata pages that hold a map of `len` block
/// pages.
pub open spec fn storage_pages(len: int) -> int {
    (len + 511) / 512
}

/// The smallest power of two at least `x` (for positive `x`).
pub open spec fn pow2_ceil(x: int) -> int
    decreases x,
{
    if x <= 1 {
        1
    } else {
        2 * pow2_ceil((x + 1) / 2)
    }
}

/// `pow2_ceil` is at least `x`, and below `2 * x` beyond the base case.
pub proof fn lemma_pow2_ceil_bounds(x: int)
    requires
        x >= 1,
    ensures
        x <= pow2_ceil(x),
        x >= 2 ==> pow2_ceil(x) <= 2 * (x - 1),
        pow2_ceil(x) <= 2 * x,
    decreases x,
{
    if x > 1 {
        lemma_pow2_ceil_bounds((x + 1) / 2);
    }
}

/// The smallest power of two at least `x`.
fn npo2(x: usize) -> (r: usize)
    requires
        1 <= x <= 0x4000_0000,
    ensures
        r == pow2_ceil(x as int),
        x <= r <= 2 * x,
    decreases x,
{
    proof {
        lemma_pow2_ceil_bounds(x as int);
    }
    if x <= 1 {
        1
    } else {
        2 * npo2((x + 1) / 2)
    }
}

/// The block heap allocator: an ordered map of [`BlockPage`] records kept
/// at a fixed reserved virtual base, and the address space backing both the
/// map and the heap pages it describes.  The map grows only forward within
/// a boot session.
pub struct BlockAllocator {
    addressor: PageManager,
    map: Vec<BlockPage>,
}

impl BlockAllocator {
    /// The address space the heap is built on.
    pub closed spec fn addressor_spec(self) -> PageManager {
        self.addressor
    }

    /// The block-page map.
    pub closed spec fn map_spec(self) -> Seq<BlockPage> {
        self.map@
    }

    /// The walk outcome of heap page `vpn` in the backing address space.
    pub open spec fn walk0(self, vpn: u64) -> WalkResult {
        self.addressor_spec().walk0(vpn)
    }

    /// Well-formedness of the heap:
    /// the backing space is well-formed and at least 4 levels deep; the map
    /// fits below its own metadata base; a block page is zero exactly when
    /// its heap page is unmapped; every page beyond the map and beyond the
    /// metadata in use is unmapped; and no walk meets a huge entry.
    pub open spec fn wf_spec(self) -> bool {
        &&& self.addressor_spec().wf_spec()
        &&& self.addressor_spec().depth_spec() >= 4
        &&& self.map_spec().len() <= ALLOCATOR_BASE_PAGE
        &&& (forall|i: int|
            0 <= i < self.map_spec().len() ==> ((#[trigger] self.map_spec()[i]).value_spec() == 0
                ==> self.walk0(i as u64) is NotMapped))
        &&& (forall|i: int|
            0 <= i < self.map_spec().len() ==> ((#[trigger] self.map_spec()[i]).value_spec() != 0
                ==> self.walk0(i as u64) is Mapped))
        &&& (forall|q: u64|
            self.map_spec().len() <= q < ALLOCATOR_BASE_PAGE ==> (#[trigger] self.walk0(q))
                is NotMapped)
        &&& (forall|q: u64|
            ALLOCATOR_BASE_PAGE + storage_pages(self.map_spec().len() as int) <= q
                < self.addressor_spec().space_pages() ==> (#[trigger] self.walk0(q)) is NotMapped)
        &&& (forall|q: u64|
            q < self.addressor_spec().space_pages() ==> !((#[trigger] self.walk0(q)) is HugePage))
    }

    /// A fresh heap on a fresh address space: an empty map.
    ///
    /// The address space must be empty — as [`PageManager::new`] leaves it —
    /// and at least 4 levels deep; the heap owns it from here on.
    pub fn new(addressor: PageManager) -> (r: Self)
        requires
            addressor.wf_spec(),
            addressor.depth_spec() >= 4,
            (forall|q: u64| (#[trigger] addressor.walk0(q)) == WalkResult::NotMapped),
        ensures
            r.wf_spec(),
            r.map_spec().len() == 0,
            r.addressor_spec() == addressor,
    {
        BlockAllocator { addressor, map: Vec::new() }
    }

    /// The number of block pages of the map.
    pub fn len(&self) -> (r: usize)
        ensures
            r == self.map_spec().len(),
    {
        self.map.len()
    }

    /// Whether heap page `page_index` currently backs any allocated block,
    /// or `None` beyond the map.
    pub fn page_state(&self, page_index: usize) -> (r: Option<bool>)
        ensures
            page_index < self.map_spec().len() ==> r == Some(
                self.map_spec()[page_index as int].value_spec() != 0,
            ),
            page_index >= self.map_spec().len() ==> r is None,
    {
        if page_index < self.map.len() {
            Some(!self.map[page_index].is_empty())
        } else {
            None
        }
    }

    /// The attributes of the entry mapping `page` in the backing space.
    pub fn get_page_attributes(&self, page: Page) -> (r: Option<TableEntryFlags>)
        requires
            self.wf_spec(),
        ensures
            (self.walk0(page.index_spec()) matches WalkResult::Mapped(e) ==> r == Some(
                TableEntryFlags { bits: e.attrs_spec() },
            )),
            (!(self.walk0(page.index_spec()) is Mapped) ==> r is None),
    {
        self.addressor.get_page_attributes(page)
    }

    /// Grow the map to the next power of two covering `required_blocks`
    /// more blocks: map the newly needed metadata pages through the backing
    /// space (the self-hosting step — the heap's own bookkeeping is
    /// mapper/ledger-backed, never heap-allocated), then zero-fill the new
    /// map region.
    ///
    /// The map never shrinks: the old region is kept bit for bit.  Fails
    /// exactly when the ledger cannot back the new metadata pages, and then
    /// changes nothing.
    #[verifier::loop_isolation(false)]
    pub fn grow(&mut self, required_blocks: usize, fm: &mut FrameManager) -> (r: Result<
        (),
        MapError,
    >)
        requires
            old(self).wf_spec(),
            1 <= required_blocks <= 0x4000_0000,
            old(self).map_spec().len() <= 0x1000_0000,
            old(fm)@.len() <= 0x100_0000_0000,
        ensures
            final(self).wf_spec(),
            final(self).addressor_spec().same_config(old(self).addressor_spec()),
            final(self).map_spec().len() >= old(self).map_spec().len(),
            (forall|i: int|
                0 <= i < old(self).map_spec().len() ==> (#[trigger] final(self).map_spec()[i])
                    == old(self).map_spec()[i]),
            (forall|i: int|
                old(self).map_spec().len() <= i < final(self).map_spec().len() ==> (
                #[trigger] final(self).map_spec()[i]).value_spec() == 0),
            (forall|q: u64|
                q < ALLOCATOR_BASE_PAGE ==> (#[trigger] final(self).walk0(q)) == old(self).walk0(q)),
            final(fm)@.len() == old(fm)@.len(),
            (forall|i: int|
                0 <= i < old(fm)@.len() ==> final(fm)@[i] == old(fm)@[i] || (old(fm)@[i]
                    == FrameState::Free && final(fm)@[i] == FrameState::Locked)),
            count_free(final(fm)@) >= count_free(old(fm)@) - (storage_pages(
                pow2_ceil(old(self).map_spec().len() + (required_blocks + 63) / 64),
            ) - storage_pages(old(self).map_spec().len() as int)) * old(self).addressor_spec().depth_spec(),
            (r is Ok ==> final(self).map_spec().len() == pow2_ceil(
                old(self).map_spec().len() + (required_blocks + 63) / 64,
            )),
            (r is Err ==> r == Result::<(), MapError>::Err(MapError::AllocError) && final(self).map_spec() == old(self).map_spec() && final(fm)@ == old(fm)@ && count_free(old(fm)@)
                < (storage_pages(
                pow2_ceil(old(self).map_spec().len() + (required_blocks + 63) / 64),
            ) - storage_pages(old(self).map_spec().len() as int)) * old(self).addressor_spec().depth_spec()),
    {
        let cur_len = self.map.len();
        let add_pages = (required_blocks + 63) / 64;
        let new_len = npo2(cur_len + add_pages);
        let cur_storage = (cur_len + 511) / 512;
        let new_storage = (new_len + 511) / 512;
        proof {
            lemma_pow2_ceil_bounds((cur_len + add_pages) as int);
            assert(cur_storage <= new_storage && new_storage <= new_len && 1 <= new_storage
                <= 0x800_0000) by (nonlinear_arith)
                requires
                    cur_storage == (cur_len + 511) / 512,
                    new_storage == (new_len + 511) / 512,
                    cur_len <= new_len,
                    1 <= new_len <= 0x2300_0000,
            ;
        }
        let depth = self.addressor.depth();
        proof {
            assert((new_storage - cur_storage) * (depth as usize) <= 0x2800_0000)
                by (nonlinear_arith)
                requires
                    0 <= new_storage - cur_storage <= 0x800_0000,
                    depth <= 5,
            ;
        }
        let needed = (new_storage - cur_storage) * (depth as usize);
        if fm.free_count() < needed {
            return Err(MapError::AllocError);
        }
        let attrs = TableEntryFlags::new(HEAP_PAGE_ATTRS);
        let mut k = cur_storage;
        while k < new_storage
            invariant
                self.addressor_spec().wf_spec(),
                self.addressor_spec().depth_spec() == depth,
                4 <= depth <= 5,
                self.map_spec() == old(self).map_spec(),
                self.map_spec().len() == cur_len,
                self.addressor_spec().same_config(old(self).addressor_spec()),
                cur_storage <= k <= new_storage,
                new_storage <= 0x800_0000,
                fm@.len() == old(fm)@.len(),
                fm@.len() <= 0x100_0000_0000,
                count_free(fm@) >= (new_storage - k) * (depth as usize),
                count_free(fm@) >= count_free(old(fm)@) - ((k - cur_storage) * (depth as usize)),
                (forall|i: int|
                    0 <= i < old(fm)@.len() ==> fm@[i] == old(fm)@[i] || (old(fm)@[i]
                        == FrameState::Free && fm@[i] == FrameState::Locked)),
                (forall|q: u64|
                    q < ALLOCATOR_BASE_PAGE ==> (#[trigger] self.walk0(q)) == old(self).walk0(q)),
                (forall|q: u64|
                    ALLOCATOR_BASE_PAGE + k <= q < self.addressor_spec().space_pages() ==> (
                    #[trigger] self.walk0(q)) is NotMapped),
                (forall|q: u64|
                    q < self.addressor_spec().space_pages() ==> !((#[trigger] self.walk0(q))
                        is HugePage)),
            decreases new_storage - k,
        {
            proof {
                crate::mapper::lemma_space_pages_lower(depth);
                assert((new_storage - k) * (depth as usize) >= depth as usize && ((new_storage - k)
                    * (depth as usize)) - (depth as usize) == (new_storage - (k + 1)) * (
                depth as usize) && ((k - cur_storage) * (depth as usize)) + (depth as usize) == ((k
                    + 1) - cur_storage) * (depth as usize)) by (nonlinear_arith)
                    requires
                        cur_storage <= k < new_storage,
                        depth >= 1,
                ;
                assert(ALLOCATOR_BASE_PAGE + k < self.addressor_spec().space_pages());
                assert(self.walk0((ALLOCATOR_BASE_PAGE + k as u64) as u64) is NotMapped);
                assert(count_free(fm@) >= depth);
            }
            let page = Page::from_index(ALLOCATOR_BASE_PAGE + k as u64);
            let ghost pre = *self;
            let res = self.addressor.auto_map(page, attrs, fm);
            proof {
                crate::mapper::lemma_space_pages_lower(depth);
                if res is Err {
                    assert(false);
                }
                assert forall|q: u64| q < ALLOCATOR_BASE_PAGE implies (#[trigger] self.walk0(q))
                    == old(self).walk0(q) by {
                    assert(self.walk0(q) == pre.walk0(q));
                }
                assert forall|q: u64|
                    ALLOCATOR_BASE_PAGE + (k + 1) <= q < self.addressor_spec().space_pages()
                    implies (#[trigger] self.walk0(q)) is NotMapped by {
                    assert(self.walk0(q) == pre.walk0(q));
                }
                assert forall|q: u64| q < self.addressor_spec().space_pages() implies !((
                #[trigger] self.walk0(q)) is HugePage) by {
                    if q != ALLOCATOR_BASE_PAGE + k {
                        assert(self.walk0(q) == pre.walk0(q));
                    }
                }
            }
            k = k + 1;
        }
        let ghost mid_self = *self;
        let mut i = cur_len;
        while i < new_len
            invariant
                cur_len <= i <= new_len,
                self.map_spec().len() == i,
                (forall|j: int|
                    0 <= j < cur_len ==> (#[trigger] self.map_spec()[j]) == old(self).map_spec()[j]),
                (forall|j: int|
                    cur_len <= j < i ==> (#[trigger] self.map_spec()[j]).value_spec() == 0),
                self.addressor_spec() == mid_self.addressor_spec(),
            decreases new_len - i,
        {
            self.map.push(BlockPage::empty());
            i = i + 1;
        }
        proof {
            assert(storage_pages(new_len as int) == new_storage as int);
            crate::mapper::lemma_space_pages_lower(depth);
            assert(self.addressor_spec() == mid_self.addressor_spec());
            assert forall|q: u64| q < ALLOCATOR_BASE_PAGE implies (#[trigger] self.walk0(q)) == old(self).walk0(q) by {
                assert(self.walk0(q) == mid_self.walk0(q));
                assert(mid_self.walk0(q) == old(self).walk0(q));
            }
            assert forall|i: int|
                0 <= i < self.map_spec().len() implies ((#[trigger] self.map_spec()[i]).value_spec()
                == 0 ==> self.walk0(i as u64) is NotMapped) by {
                assert(self.walk0(i as u64) == old(self).walk0(i as u64));
                if i >= cur_len {
                    assert(old(self).walk0(i as u64) is NotMapped);
                }
            }
            assert forall|i: int|
                0 <= i < self.map_spec().len() implies ((#[trigger] self.map_spec()[i]).value_spec()
                != 0 ==> self.walk0(i as u64) is Mapped) by {
                assert(self.walk0(i as u64) == old(self).walk0(i as u64));
            }
            assert forall|q: u64|
                self.map_spec().len() <= q < ALLOCATOR_BASE_PAGE implies (#[trigger] self.walk0(q))
                is NotMapped by {
                assert(self.walk0(q) == old(self).walk0(q));
            }
            assert forall|q: u64|
                ALLOCATOR_BASE_PAGE + storage_pages(self.map_spec().len() as int) <= q
                < self.addressor_spec().space_pages() implies (#[trigger] self.walk0(q))
                is NotMapped by {
                assert(self.walk0(q) == mid_self.walk0(q));
            }
            assert forall|q: u64|
                q < self.addressor_spec().space_pages() implies !((#[trigger] self.walk0(q))
                is HugePage) by {
                assert(self.walk0(q) == mid_self.walk0(q));
            }
        }
        Ok(())
    }
}


/// The alignment the allocator honours for a request of alignment `align`:
/// `align` itself when it is a multiple of the block size, and the block
/// size otherwise — alignment below block granularity is silently upgraded
/// to one block.
pub open spec fn effective_align(align: u64) -> u64 {
    if align % 64 == 0 {
        align
    } else {
        64
    }
}

/// Enough free ledger frames for any `alloc(size, align)` call to succeed:
/// frames for the worst-case map growth, plus one frame (and intermediate
/// tables) for every heap page the run can touch.
pub open spec fn alloc_frames_bound(old_len: int, size: int, align: u64, depth: int) -> int {
    (storage_pages(
        pow2_ceil(old_len + ((size + 63) / 64 + effective_align(align) as int / 64 - 1 + 63) / 64),
    ) - storage_pages(old_len) + (size + 63) / 64 / 64 + 2) * depth
}

impl BlockAllocator {
    /// Scan the map for a run of `blocks` consecutive free blocks starting
    /// at a multiple of `step` blocks: the run's first block index, if one
    /// was found.
    #[verifier::loop_isolation(false)]
    fn find_run(&self, blocks: u64, step: u64) -> (r: Option<u64>)
        requires
            blocks >= 1,
            step >= 1,
            self.map_spec().len() <= 0x1000_0000,
        ensures
            (r matches Some(start) ==> (start as int) % (step as int) == 0 && start + blocks
                <= self.map_spec().len() * 64 && (forall|b: int|
                start <= b < start + blocks ==> !block_set(self.map_spec(), b))),
    {
        let total: u64 = (self.map.len() as u64) * 64;
        let mut b: u64 = 0;
        let mut run: u64 = 0;
        while b < total
            invariant
                b <= total,
                run <= b,
                run < blocks,
                (run > 0 ==> ((b - run) as int) % (step as int) == 0),
                (forall|j: int| b - run <= j < b ==> !block_set(self.map_spec(), j)),
            decreases total - b,
        {
            proof {
                assert(b / 64 < self.map_spec().len() && b % 64 < 64) by (nonlinear_arith)
                    requires
                        b < total,
                        total == self.map_spec().len() * 64,
                ;
            }
            let word = self.map[(b / 64) as usize].value();
            let bit = get_bit64(word, b % 64);
            proof {
                assert(block_set(self.map_spec(), b as int) == bit64(word, b % 64));
            }
            if bit {
                run = 0;
            } else if run > 0 {
                run = run + 1;
            } else if b % step == 0 {
                run = 1;
            } else {
                run = 0;
            }
            b = b + 1;
            if run == blocks {
                return Some(b - blocks);
            }
        }
        None
    }

    /// Allocate `size` bytes aligned to `align` (a power of two; alignment
    /// below the block size is silently upgraded to one block): find or
    /// create a run of free blocks, mark them allocated, and demand-map a
    /// fresh exclusively-locked frame for every heap page that goes from
    /// entirely free to backing a block.  Returns the byte address of the
    /// run.
    ///
    /// When no run exists the map grows first (never shrinking, old blocks
    /// keeping their state).  Fails only with `AllocError`, when the ledger
    /// cannot back the growth or the fresh pages; the blocks are then left
    /// unallocated.
    #[verifier::loop_isolation(false)]
    #[verifier::rlimit(100)]
    pub fn allocate(&mut self, size: usize, align: u64, fm: &mut FrameManager) -> (r: Result<
        u64,
        MapError,
    >)
        requires
            old(self).wf_spec(),
            1 <= size <= 0x100_0000,
            1 <= align <= 0x20_0000,
            align & ((align - 1) as u64) == 0,
            old(self).map_spec().len() <= 0x1000_0000,
            old(fm)@.len() <= 0x100_0000_0000,
        ensures
            final(self).wf_spec(),
            final(self).addressor_spec().same_config(old(self).addressor_spec()),
            final(self).map_spec().len() >= old(self).map_spec().len(),
            final(fm)@.len() == old(fm)@.len(),
            (forall|i: int|
                0 <= i < old(fm)@.len() ==> final(fm)@[i] == old(fm)@[i] || (old(fm)@[i]
                    == FrameState::Free && final(fm)@[i] == FrameState::Locked)),
            (count_free(old(fm)@) >= alloc_frames_bound(
                old(self).map_spec().len() as int,
                size as int,
                align,
                old(self).addressor_spec().depth_spec() as int,
            ) ==> r is Ok),
            (r matches Ok(addr) ==> {
                let start = addr as int / 64;
                let blocks = (size + 63) as int / 64;
                &&& addr % 64 == 0
                &&& addr % effective_align(align) == 0
                &&& start + blocks <= final(self).map_spec().len() * 64
                &&& (forall|b: int|
                    start <= b < start + blocks && b < old(self).map_spec().len() * 64
                        ==> !block_set(old(self).map_spec(), b))
                &&& (forall|b: int|
                    0 <= b < final(self).map_spec().len() * 64 ==> block_set(
                        final(self).map_spec(),
                        b,
                    ) == (if start <= b < start + blocks {
                        true
                    } else if b < old(self).map_spec().len() * 64 {
                        block_set(old(self).map_spec(), b)
                    } else {
                        false
                    }))
                &&& (forall|q: u64|
                    q < ALLOCATOR_BASE_PAGE && !(start / 64 <= q <= (start + blocks - 1) / 64)
                        ==> (#[trigger] final(self).walk0(q)) == old(self).walk0(q))
            }),
            (r is Err ==> r == Result::<u64, MapError>::Err(MapError::AllocError) && (forall|
                b: int,
            |
                0 <= b < final(self).map_spec().len() * 64 ==> block_set(final(self).map_spec(), b)
                    == (if b < old(self).map_spec().len() * 64 {
                    block_set(old(self).map_spec(), b)
                } else {
                    false
                })) && (forall|q: u64|
                q < ALLOCATOR_BASE_PAGE ==> (#[trigger] final(self).walk0(q)) == old(self).walk0(
                    q,
                ))),
    {
        let blocks: u64 = ((size as u64) + 63) / 64;
        let step: u64 = if align % 64 == 0 {
            align / 64
        } else {
            1
        };
        let depth = self.addressor.depth();
        let ghost old_len: int = old(self).map_spec().len() as int;
        let ghost cf0: int = count_free(old(fm)@) as int;
        let ghost addp: int = ((blocks + step - 1) as int + 63) / 64;
        let ghost pgrow: int = pow2_ceil(old_len + addp);
        let ghost sdelta: int = storage_pages(pgrow) - storage_pages(old_len);
        let ghost bound = alloc_frames_bound(
            old(self).map_spec().len() as int,
            size as int,
            align,
            depth as int,
        );
        proof {
            lemma_pow2_ceil_bounds(old_len + addp);
            assert(blocks as int == (size + 63) as int / 64);
            assert(step as int == effective_align(align) as int / 64);
            assert(bound == (sdelta + (size + 63) as int / 64 / 64 + 2) * depth);
            assert(storage_pages(pgrow) >= storage_pages(old_len) && sdelta >= 0)
                by (nonlinear_arith)
                requires
                    pgrow >= old_len,
                    storage_pages(pgrow) == (pgrow + 511) / 512,
                    storage_pages(old_len) == (old_len + 511) / 512,
                    sdelta == storage_pages(pgrow) - storage_pages(old_len),
            ;
        }
        let start: u64 = match self.find_run(blocks, step) {
            Some(start) => start,
            None => {
                let cur_len = self.map.len();
                let grow_blocks = (blocks + step - 1) as usize;
                match self.grow(grow_blocks, fm) {
                    Ok(_) => {},
                    Err(e) => {
                        proof {
                            assert(cf0 < sdelta * depth);
                            assert(cf0 < bound) by (nonlinear_arith)
                                requires
                                    cf0 < sdelta * depth,
                                    bound == (sdelta + (size + 63) as int / 64 / 64 + 2) * depth,
                                    depth >= 1,
                                    size >= 1,
                            ;
                        }
                        return Err(e);
                    },
                }
                let old_total: u64 = (cur_len as u64) * 64;
                let q0: u64 = (old_total + step - 1) / step;
                proof {
                    assert(q0 * step <= old_total + step - 1 && q0 * step + step > old_total + step
                        - 1 && ((q0 * step) as int) % (step as int) == 0) by (nonlinear_arith)
                        requires
                            step >= 1,
                            q0 as int == (old_total as int + step as int - 1) / (step as int),
                            old_total <= 0x4_0000_0000,
                            step <= 0x8000,
                    ;
                }
                let start = q0 * step;
                proof {
                    crate::bits::lemma_bit64_zero(0u64);
                    assert(old_total <= start && start + blocks <= self.map_spec().len() * 64)
                        by (nonlinear_arith)
                        requires
                            step >= 1,
                            blocks >= 1,
                            old_total == cur_len * 64,
                            start == q0 * step,
                            q0 * step <= old_total + step - 1,
                            q0 * step + step > old_total + step - 1,
                            self.map_spec().len() >= cur_len + ((blocks + step - 1) as int + 63)
                                / 64,
                            cur_len <= 0x1000_0000,
                            step <= 0x8000,
                            blocks <= 0x4_0000,
                    ;
                    assert forall|bb: int|
                        start <= bb < start + blocks implies !block_set(self.map_spec(), bb) by {
                        assert(cur_len <= bb / 64 < self.map_spec().len() && 0 <= bb % 64 < 64)
                            by (nonlinear_arith)
                            requires
                                old_total == cur_len * 64,
                                old_total <= bb,
                                bb < self.map_spec().len() * 64,
                        ;
                        assert(self.map_spec()[bb / 64].value_spec() == 0);
                    }
                }
                start
            },
        };
        let end: u64 = start + blocks;
        let first: u64 = start / 64;
        let last: u64 = (end - 1) / 64;
        proof {
            assert(first <= last && last < self.map_spec().len() && (last + 1 - first) <= blocks
                / 64 + 2) by (nonlinear_arith)
                requires
                    end == start + blocks,
                    first == start / 64,
                    last == (end - 1) / 64,
                    blocks >= 1,
                    end <= self.map_spec().len() * 64,
            ;
        }
        let pages: u64 = last + 1 - first;
        proof {
            assert(pages * (depth as u64) <= 0x200_0000 && pages * (depth as u64) <= (blocks / 64
                + 2) * depth) by (nonlinear_arith)
                requires
                    pages <= blocks / 64 + 2,
                    blocks <= 0x4_0001,
                    1 <= depth <= 5,
            ;
        }
        let needed: u64 = pages * (depth as u64);
        let ghost pre = *self;
        let ghost fm_pre = fm@;
        proof {
            crate::bits::lemma_bit64_zero(0u64);
            assert forall|bb: int|
                0 <= bb < pre.map_spec().len() * 64 implies block_set(pre.map_spec(), bb) == (if bb
                < old(self).map_spec().len() * 64 {
                block_set(old(self).map_spec(), bb)
            } else {
                false
            }) by {
                assert(0 <= bb / 64 < pre.map_spec().len() && 0 <= bb % 64 < 64)
                    by (nonlinear_arith)
                    requires
                        0 <= bb < pre.map_spec().len() * 64,
                ;
                if bb < old_len * 64 {
                    assert(bb / 64 < old_len) by (nonlinear_arith)
                        requires
                            bb < old_len * 64,
                    ;
                    assert(pre.map_spec()[bb / 64] == old(self).map_spec()[bb / 64]);
                } else {
                    assert(bb / 64 >= old_len) by (nonlinear_arith)
                        requires
                            bb >= old_len * 64,
                            0 <= bb % 64 < 64,
                            bb == (bb / 64) * 64 + bb % 64,
                    ;
                    assert(pre.map_spec()[bb / 64].value_spec() == 0);
                }
            }
            let ghost cfp: int = count_free(fm_pre) as int;
            assert(cfp >= cf0 - sdelta * depth);
            assert(cfp >= cf0 - (bound - needed)) by (nonlinear_arith)
                requires
                    cfp >= cf0 - sdelta * depth,
                    bound == (sdelta + (size + 63) as int / 64 / 64 + 2) * depth,
                    needed <= ((size + 63) as int / 64 / 64 + 2) * depth,
                    depth >= 1,
            ;
        }
        if (fm.free_count() as u64) < needed {
            return Err(MapError::AllocError);
        }
        proof {
            assert(count_free(fm@) >= ((last + 1 - start / 64) as int - (if self.map_spec()[(start
                / 64) as int].value_spec() == 0 {
                0int
            } else {
                1int
            }) as int) * depth) by (nonlinear_arith)
                requires
                    count_free(fm@) >= (last + 1 - start / 64) * depth,
                    depth >= 1,
                    start / 64 <= last,
            ;
        }
        let attrs = TableEntryFlags::new(HEAP_PAGE_ATTRS);
        let mut b: u64 = start;
        while b < end
            invariant
                start <= b <= end,
                self.map_spec().len() == pre.map_spec().len(),
                self.addressor_spec().same_config(pre.addressor_spec()),
                self.addressor_spec().wf_spec(),
                self.addressor_spec().depth_spec() == depth,
                fm@.len() == fm_pre.len(),
                (forall|i: int|
                    0 <= i < fm_pre.len() ==> fm@[i] == fm_pre[i] || (fm_pre[i]
                        == FrameState::Free && fm@[i] == FrameState::Locked)),
                count_free(fm@) >= ((last + 1 - b / 64) as int - (if self.map_spec()[(b / 64)
                    as int].value_spec() == 0 {
                    0int
                } else {
                    1int
                })) * depth,
                (b < end ==> b / 64 <= last),
                (forall|bb: int|
                    0 <= bb < self.map_spec().len() * 64 ==> block_set(self.map_spec(), bb) == (if
                    start <= bb < b {
                        true
                    } else {
                        block_set(pre.map_spec(), bb)
                    })),
                (forall|i: int|
                    0 <= i < self.map_spec().len() ==> ((#[trigger] self.map_spec()[i]).value_spec()
                        == 0 ==> self.walk0(i as u64) is NotMapped)),
                (forall|i: int|
                    0 <= i < self.map_spec().len() ==> ((#[trigger] self.map_spec()[i]).value_spec()
                        != 0 ==> self.walk0(i as u64) is Mapped)),
                (forall|q: u64|
                    q < ALLOCATOR_BASE_PAGE && !(first <= q <= last) ==> (#[trigger] self.walk0(q))
                        == pre.walk0(q)),
                (forall|q: u64|
                    self.map_spec().len() <= q < ALLOCATOR_BASE_PAGE ==> (#[trigger] self.walk0(q))
                        is NotMapped),
                (forall|q: u64|
                    ALLOCATOR_BASE_PAGE + storage_pages(self.map_spec().len() as int) <= q < self
                        .addressor_spec().space_pages() ==> (#[trigger] self.walk0(q))
                        is NotMapped),
                (forall|q: u64|
                    q < self.addressor_spec().space_pages() ==> !((#[trigger] self.walk0(q))
                        is HugePage)),
            decreases end - b,
        {
            let idx: u64 = b / 64;
            let off: u64 = b % 64;
            proof {
                assert(first <= idx && idx <= last && idx < self.map_spec().len() && off < 64 && b
                    == idx * 64 + off) by (nonlinear_arith)
                    requires
                        idx == b / 64,
                        off == b % 64,
                        start <= b < end,
                        first == start / 64,
                        last == (end - 1) / 64,
                        end <= self.map_spec().len() * 64,
                ;
                crate::mapper::lemma_space_pages_lower(depth);
                assert(idx < ALLOCATOR_BASE_PAGE && idx < self.addressor_spec().space_pages());
            }
            let ghost entry_state = *self;
            let was_empty = self.map[idx as usize].is_empty();
            let word = self.map[idx as usize].value();
            let new_word = set_bit64(word, off);
            self.map[idx as usize] = BlockPage(new_word);
            proof {
                assert(self.map_spec() == entry_state.map_spec().update(
                    idx as int,
                    BlockPage(new_word),
                ));
                assert(self.map_spec()[idx as int].value_spec() != 0);
                assert forall|bb: int|
                    0 <= bb < self.map_spec().len() * 64 implies block_set(self.map_spec(), bb)
                    == (if start <= bb < b + 1 {
                    true
                } else {
                    block_set(pre.map_spec(), bb)
                }) by {
                    assert(0 <= bb / 64 < self.map_spec().len() && 0 <= bb % 64 < 64 && bb == (bb
                        / 64) * 64 + (bb % 64)) by (nonlinear_arith)
                        requires
                            0 <= bb < self.map_spec().len() * 64,
                    ;
                    assert(block_set(entry_state.map_spec(), bb) == (if start <= bb < b {
                        true
                    } else {
                        block_set(pre.map_spec(), bb)
                    }));
                    if bb / 64 == idx as int {
                        assert((bb == b) == (bb % 64 == off as int));
                        assert(block_set(self.map_spec(), bb) == bit64(
                            new_word,
                            (bb % 64) as u64,
                        ));
                        assert(block_set(entry_state.map_spec(), bb) == bit64(
                            word,
                            (bb % 64) as u64,
                        ));
                    } else {
                        assert(self.map_spec()[bb / 64] == entry_state.map_spec()[bb / 64]);
                    }
                }
            }
            if was_empty {
                proof {
                    assert(((last + 1 - idx) as int - 0) * depth >= depth && ((last + 1 - idx)
                        as int) * depth - depth == ((last + 1 - idx) as int - 1) * depth)
                        by (nonlinear_arith)
                        requires
                            idx <= last,
                            depth >= 1,
                    ;
                    assert(self.walk0(idx) is NotMapped);
                }
                let res = self.addressor.auto_map(Page::from_index(idx), attrs, fm);
                proof {
                    if res is Err {
                        assert(false);
                    }
                    crate::paging::TableEntry::lemma_entry_new_fields(
                        (res->Ok_0) as u64,
                        HEAP_PAGE_ATTRS,
                    );
                    assert(0x3u64 & 0x1 == 0x1 && 0x3u64 & 0x80 == 0) by (bit_vector);
                    assert(self.walk0(idx) is Mapped);
                    assert forall|q: u64|
                        q < ALLOCATOR_BASE_PAGE && !(first <= q <= last) implies (
                    #[trigger] self.walk0(q)) == pre.walk0(q) by {
                        assert(self.walk0(q) == entry_state.walk0(q));
                    }
                    assert forall|q: u64|
                        self.map_spec().len() <= q < ALLOCATOR_BASE_PAGE implies (
                    #[trigger] self.walk0(q)) is NotMapped by {
                        assert(self.walk0(q) == entry_state.walk0(q));
                    }
                    assert forall|q: u64|
                        ALLOCATOR_BASE_PAGE + storage_pages(self.map_spec().len() as int) <= q
                            < self.addressor_spec().space_pages() implies (#[trigger] self.walk0(
                        q,
                    )) is NotMapped by {
                        assert(self.walk0(q) == entry_state.walk0(q));
                    }
                    assert forall|q: u64|
                        q < self.addressor_spec().space_pages() implies !((#[trigger] self.walk0(
                        q,
                    )) is HugePage) by {
                        if q != idx {
                            assert(self.walk0(q) == entry_state.walk0(q));
                        }
                    }
                    assert forall|i: int|
                        0 <= i < self.map_spec().len() && (#[trigger] self.map_spec()[i]).value_spec()
                        == 0 implies self.walk0(i as u64) is NotMapped by {
                        assert(i != idx as int);
                        assert(self.walk0(i as u64) == entry_state.walk0(i as u64));
                    }
                    assert forall|i: int|
                        0 <= i < self.map_spec().len() && (#[trigger] self.map_spec()[i]).value_spec()
                        != 0 implies self.walk0(i as u64) is Mapped by {
                        if i != idx as int {
                            assert(self.walk0(i as u64) == entry_state.walk0(i as u64));
                        }
                    }
                }
            } else {
                proof {
                    assert(self.addressor_spec() == entry_state.addressor_spec());
                    assert forall|q: u64| (#[trigger] self.walk0(q)) == entry_state.walk0(q) by {}
                    assert(entry_state.map_spec()[idx as int].value_spec() != 0);
                    assert(entry_state.walk0(idx) is Mapped);
                    assert forall|i: int|
                        0 <= i < self.map_spec().len() && (#[trigger] self.map_spec()[i]).value_spec()
                        == 0 implies self.walk0(i as u64) is NotMapped by {
                        assert(i != idx as int);
                        assert(self.walk0(i as u64) == entry_state.walk0(i as u64));
                    }
                    assert forall|i: int|
                        0 <= i < self.map_spec().len() && (#[trigger] self.map_spec()[i]).value_spec()
                        != 0 implies self.walk0(i as u64) is Mapped by {
                        if i != idx as int {
                            assert(self.walk0(i as u64) == entry_state.walk0(i as u64));
                        } else {
                            assert(self.walk0(i as u64) == entry_state.walk0(idx));
                        }
                    }
                }
            }
            b = b + 1;
            proof {
                assert(count_free(fm@) >= ((last + 1 - idx) as int - 1) * depth);
                let ghost nidx = (b / 64) as int;
                assert(nidx == idx || nidx == idx + 1) by (nonlinear_arith)
                    requires
                        b == idx * 64 + off + 1,
                        off < 64,
                        nidx == (b / 64) as int,
                ;
                let ghost d2: int = if self.map_spec()[nidx].value_spec() == 0 {
                    0int
                } else {
                    1int
                };
                let ghost cfn: int = count_free(fm@) as int;
                assert(nidx == idx ==> d2 == 1);
                assert(cfn >= ((last + 1 - nidx) as int - d2) * depth) by (nonlinear_arith)
                    requires
                        cfn >= ((last + 1 - idx) as int - 1) * depth,
                        nidx == idx || nidx == idx + 1,
                        0 <= d2 <= 1,
                        nidx == idx ==> d2 == 1,
                        idx <= last,
                        depth >= 1,
                        cfn >= 0,
                ;
                assert(b < end ==> b / 64 <= last) by (nonlinear_arith)
                    requires
                        b <= end,
                        last == (end - 1) / 64,
                ;
            }
        }
        proof {
            assert((start * 64) as int / 64 == start && (start * 64) % 64 == 0)
                by (nonlinear_arith)
                requires
                    start <= 0x4_0000_8000,
            ;
            if align % 64 == 0 {
                assert(step * 64 == align) by (nonlinear_arith)
                    requires
                        step == align / 64,
                        align % 64 == 0,
                ;
                let k = start as int / step as int;
                vstd::arithmetic::div_mod::lemma_fundamental_div_mod(start as int, step as int);
                assert(start * 64 == k * ((step * 64) as int)) by (nonlinear_arith)
                    requires
                        start as int == step as int * k,
                ;
                vstd::arithmetic::div_mod::lemma_mod_multiples_basic(k, (step * 64) as int);
            }
        }
        Ok(start * 64)
    }
}


/// The map `m` agrees with `base` except that the blocks of `start .. b`
/// are cleared.
#[verifier::opaque]
pub open spec fn cleared_upto(m: Seq<BlockPage>, base: Seq<BlockPage>, start: int, b: int) -> bool {
    forall|bb: int|
        #![trigger block_set(base, bb)]
        0 <= bb < m.len() * 64 ==> block_set(m, bb) == (block_set(base, bb) && !(start <= bb < b))
}

/// Pointwise reading of [`cleared_upto`].
proof fn lemma_cleared_at(m: Seq<BlockPage>, base: Seq<BlockPage>, start: int, b: int, bb: int)
    requires
        cleared_upto(m, base, start, b),
        0 <= bb < m.len() * 64,
    ensures
        block_set(m, bb) == (block_set(base, bb) && !(start <= bb < b)),
{
    reveal(cleared_upto);
}

/// Clearing one more bit of the run extends the cleared range by one block
/// and touches nothing else.
proof fn lemma_clear_bit_step(
    m0: Seq<BlockPage>,
    m1: Seq<BlockPage>,
    base: Seq<BlockPage>,
    start: int,
    b: int,
    idx: int,
    off: u64,
    word: u64,
    new_word: u64,
)
    requires
        0 <= idx < m0.len(),
        m1 == m0.update(idx, BlockPage(new_word)),
        base.len() == m0.len(),
        off < 64,
        b == idx * 64 + off,
        start <= b,
        word == m0[idx].value_spec(),
        (forall|j: u64| #[trigger] bit64(new_word, j) == (j != off && bit64(word, j))),
        cleared_upto(m0, base, start, b),
    ensures
        cleared_upto(m1, base, start, b + 1),
{
    reveal(cleared_upto);
    assert(m1.len() == m0.len());
    assert forall|bb: int|
        0 <= bb < m0.len() * 64 implies block_set(m0, bb) == ((#[trigger] block_set(base, bb))
        && !(start <= bb < b)) by {
        lemma_cleared_at(m0, base, start, b, bb);
    }
    assert forall|bb: int|
        0 <= bb < m1.len() * 64 implies (#[trigger] block_set(m1, bb)) == (block_set(base, bb)
        && !(start <= bb < b + 1)) by {
        assert(0 <= bb / 64 < m0.len() && 0 <= bb % 64 < 64 && bb == (bb / 64) * 64 + (bb % 64))
            by (nonlinear_arith)
            requires
                0 <= bb < m0.len() * 64,
        ;
        assert(0 <= bb < m0.len() * 64);
        lemma_cleared_at(m0, base, start, b, bb);
        assert(block_set(m0, bb) == (block_set(base, bb) && !(start <= bb < b)));
        if bb / 64 == idx {
            assert((bb == b) == (bb % 64 == off as int));
            assert(block_set(m1, bb) == bit64(new_word, (bb % 64) as u64));
            assert(block_set(m0, bb) == bit64(word, (bb % 64) as u64));
        } else {
            assert(m1[bb / 64] == m0[bb / 64]);
        }
    }
    assert forall|bb: int|
        0 <= bb < m1.len() * 64 implies block_set(m1, bb) == ((#[trigger] block_set(base, bb))
        && !(start <= bb < b + 1)) by {
        assert(block_set(m1, bb) == (block_set(base, bb) && !(start <= bb < b + 1)));
    }
}

/// A word whose allocated blocks all lie in a fully cleared range is zero
/// once the range is cleared.
proof fn lemma_emptied_zero(m: Seq<BlockPage>, base: Seq<BlockPage>, start: int, end: int, i: int)
    requires
        cleared_upto(m, base, start, end),
        m.len() == base.len(),
        0 <= i < m.len(),
        word_emptied_by(base, i, start, end),
    ensures
        m[i].value_spec() == 0,
{
    crate::bits::lemma_bit64_zero(m[i].value_spec());
    assert forall|j: u64| !bit64(m[i].value_spec(), j) by {
        if j < 64 {
            assert(0 <= i * 64 + j < m.len() * 64 && (i * 64 + j) / 64 == i && (i * 64 + j) % 64
                == j) by (nonlinear_arith)
                requires
                    0 <= i < m.len(),
                    j < 64,
            ;
            lemma_cleared_at(m, base, start, end, i * 64 + j);
            assert(block_set(m, i * 64 + j) == (block_set(base, i * 64 + j) && !(start <= i * 64
                + j < end)));
            if !(start <= i * 64 + j < end) {
                if base[i].bit_spec(j) {
                    assert(false);
                }
                assert(!block_set(base, i * 64 + j));
            }
            assert(!block_set(m, i * 64 + j));
            assert(!bit64(m[i].value_spec(), j));
        }
    }
}

impl BlockAllocator {
    /// Free the run of blocks at byte address `addr` covering `size` bytes:
    /// clear exactly those block bits, and for every block page whose word
    /// goes from non-zero to zero, unmap the heap page and free its frame
    /// back to the ledger — heap memory is returned eagerly, never cached.
    ///
    /// The targeted blocks must currently be allocated (freeing a free
    /// block indicates ledger corruption and is excluded), and the pages
    /// emptied by the call must be backed by distinct exclusively-locked
    /// frames.
    #[verifier::loop_isolation(false)]
    #[verifier::rlimit(100)]
    pub fn dealloc(&mut self, addr: u64, size: usize, fm: &mut FrameManager)
        requires
            old(self).wf_spec(),
            addr % 64 == 0,
            1 <= size,
            old(self).map_spec().len() <= 0x1000_0000,
            addr as int / 64 + (size + 63) as int / 64 <= old(self).map_spec().len() * 64,
            old(fm)@.len() <= usize::MAX,
            (forall|bb: int|
                addr as int / 64 <= bb < addr as int / 64 + (size + 63) as int / 64
                    ==> block_set(old(self).map_spec(), bb)),
            (forall|i: int|
                #![trigger old(self).walk0(i as u64)]
                addr as int / 4096 <= i <= (addr as int / 64 + (size + 63) as int / 64 - 1) / 64
                    && word_emptied_by(
                    old(self).map_spec(),
                    i,
                    addr as int / 64,
                    addr as int / 64 + (size + 63) as int / 64,
                ) ==> (old(self).walk0(i as u64) matches WalkResult::Mapped(e) && e.frame_spec()
                    < old(fm)@.len() && old(fm)@[e.frame_spec() as int] == FrameState::Locked)),
            (forall|i: int, j: int|
                #![trigger old(self).walk0(i as u64), old(self).walk0(j as u64)]
                addr as int / 4096 <= i <= (addr as int / 64 + (size + 63) as int / 64 - 1) / 64
                    && addr as int / 4096 <= j <= (addr as int / 64 + (size + 63) as int / 64 - 1)
                    / 64 && i != j && word_emptied_by(
                    old(self).map_spec(),
                    i,
                    addr as int / 64,
                    addr as int / 64 + (size + 63) as int / 64,
                ) && word_emptied_by(
                    old(self).map_spec(),
                    j,
                    addr as int / 64,
                    addr as int / 64 + (size + 63) as int / 64,
                ) ==> (old(self).walk0(i as u64) matches WalkResult::Mapped(e1) && old(self).walk0(j as u64) matches WalkResult::Mapped(e2) && e1.frame_spec()
                    != e2.frame_spec())),
        ensures
            final(self).wf_spec(),
            final(self).addressor_spec().same_config(old(self).addressor_spec()),
            final(self).map_spec().len() == old(self).map_spec().len(),
            final(fm)@.len() == old(fm)@.len(),
            (forall|bb: int|
                0 <= bb < final(self).map_spec().len() * 64 ==> block_set(
                    final(self).map_spec(),
                    bb,
                ) == (block_set(old(self).map_spec(), bb) && !(addr as int / 64 <= bb < addr as int
                    / 64 + (size + 63) as int / 64))),
            (forall|i: int|
                #![trigger final(self).walk0(i as u64)]
                addr as int / 4096 <= i <= (addr as int / 64 + (size + 63) as int / 64 - 1) / 64
                    && word_emptied_by(
                    old(self).map_spec(),
                    i,
                    addr as int / 64,
                    addr as int / 64 + (size + 63) as int / 64,
                ) ==> final(self).walk0(i as u64) is NotMapped),
            (forall|q: u64|
                q < ALLOCATOR_BASE_PAGE && !(addr as int / 4096 <= q as int && q as int <= (
                addr as int / 64 + (size + 63) as int / 64 - 1) / 64 && word_emptied_by(
                    old(self).map_spec(),
                    q as int,
                    addr as int / 64,
                    addr as int / 64 + (size + 63) as int / 64,
                )) ==> (#[trigger] final(self).walk0(q)) == old(self).walk0(q)),
            (forall|i: int|
                #![trigger old(self).walk0(i as u64)]
                addr as int / 4096 <= i <= (addr as int / 64 + (size + 63) as int / 64 - 1) / 64
                    && word_emptied_by(
                    old(self).map_spec(),
                    i,
                    addr as int / 64,
                    addr as int / 64 + (size + 63) as int / 64,
                ) ==> (old(self).walk0(i as u64) matches WalkResult::Mapped(e) ==> final(fm)@[
                    e.frame_spec() as int
                ] == FrameState::Free)),
            (forall|f: int|
                0 <= f < old(fm)@.len() ==> final(fm)@[f] == old(fm)@[f] || (old(fm)@[f]
                    == FrameState::Locked && final(fm)@[f] == FrameState::Free && (exists|i: int|
                    #![trigger old(self).walk0(i as u64)]
                    addr as int / 4096 <= i <= (addr as int / 64 + (size + 63) as int / 64 - 1)
                        / 64 && word_emptied_by(
                        old(self).map_spec(),
                        i,
                        addr as int / 64,
                        addr as int / 64 + (size + 63) as int / 64,
                    ) && (match old(self).walk0(i as u64) {
                        WalkResult::Mapped(e) => e.frame_spec() == f as u64,
                        _ => false,
                    })))),
    {
        let start: u64 = addr / 64;
        let blocks: u64 = ((size as u64) + 63) / 64;
        let end: u64 = start + blocks;
        let first: u64 = start / 64;
        let last: u64 = (end - 1) / 64;
        proof {
            assert(first == addr as int / 4096 && first <= last && last < self.map_spec().len()
                && end == addr as int / 64 + (size + 63) as int / 64) by (nonlinear_arith)
                requires
                    addr % 64 == 0,
                    start == addr / 64,
                    blocks == ((size as u64) + 63) / 64,
                    blocks >= 1,
                    end == start + blocks,
                    first == start / 64,
                    last == (end - 1) / 64,
                    end <= self.map_spec().len() * 64,
            ;
        }
        let ghost pre = *self;
        let ghost fm_pre = fm@;
        proof {
            reveal(cleared_upto);
            assert(cleared_upto(self.map_spec(), pre.map_spec(), start as int, start as int));
        }
        let mut b: u64 = start;
        while b < end
            invariant
                start <= b <= end,
                self.map_spec().len() == pre.map_spec().len(),
                self.addressor_spec().same_config(pre.addressor_spec()),
                self.addressor_spec().wf_spec(),
                fm@.len() == fm_pre.len(),
                (b < end ==> b / 64 <= last),
                cleared_upto(self.map_spec(), pre.map_spec(), start as int, b as int),
                (forall|i: int|
                    0 <= i < self.map_spec().len() ==> ((#[trigger] self.map_spec()[i]).value_spec()
                        == 0 ==> self.walk0(i as u64) is NotMapped)),
                (forall|i: int|
                    0 <= i < self.map_spec().len() ==> ((#[trigger] self.map_spec()[i]).value_spec()
                        != 0 ==> self.walk0(i as u64) is Mapped)),
                (forall|q: u64|
                    q < ALLOCATOR_BASE_PAGE && !(first <= q && q <= last && word_emptied_by(
                        pre.map_spec(),
                        q as int,
                        start as int,
                        end as int,
                    )) ==> (#[trigger] self.walk0(q)) == pre.walk0(q)),
                (forall|i: int|
                    #![trigger self.walk0(i as u64)]
                    first <= i <= last && word_emptied_by(
                        pre.map_spec(),
                        i,
                        start as int,
                        end as int,
                    ) && self.map_spec()[i].value_spec() == 0 ==> (self.walk0(i as u64)
                        is NotMapped && (pre.walk0(i as u64) matches WalkResult::Mapped(e) && fm@[
                        e.frame_spec() as int
                    ] == FrameState::Free))),
                (forall|i: int|
                    #![trigger self.walk0(i as u64)]
                    first <= i <= last && self.map_spec()[i].value_spec() != 0 ==> self.walk0(
                        i as u64,
                    ) == pre.walk0(i as u64)),
                (forall|f: int|
                    0 <= f < fm_pre.len() ==> fm@[f] == fm_pre[f] || (fm_pre[f]
                        == FrameState::Locked && fm@[f] == FrameState::Free && (exists|i: int|
                        #![trigger pre.walk0(i as u64)]
                        first <= i <= last && word_emptied_by(
                            pre.map_spec(),
                            i,
                            start as int,
                            end as int,
                        ) && self.walk0(i as u64) is NotMapped && (match pre.walk0(i as u64) {
                            WalkResult::Mapped(e) => e.frame_spec() == f as u64,
                            _ => false,
                        })))),
                (forall|q: u64|
                    self.map_spec().len() <= q < ALLOCATOR_BASE_PAGE ==> (#[trigger] self.walk0(q))
                        is NotMapped),
                (forall|q: u64|
                    ALLOCATOR_BASE_PAGE + storage_pages(self.map_spec().len() as int) <= q < self
                        .addressor_spec().space_pages() ==> (#[trigger] self.walk0(q))
                        is NotMapped),
                (forall|q: u64|
                    q < self.addressor_spec().space_pages() ==> !((#[trigger] self.walk0(q))
                        is HugePage)),
            decreases end - b,
        {
            let idx: u64 = b / 64;
            let off: u64 = b % 64;
            proof {
                assert(first <= idx && idx <= last && idx < self.map_spec().len() && off < 64 && b
                    == idx * 64 + off) by (nonlinear_arith)
                    requires
                        idx == b / 64,
                        off == b % 64,
                        start <= b < end,
                        first == start / 64,
                        last == (end - 1) / 64,
                        end <= self.map_spec().len() * 64,
                ;
                crate::mapper::lemma_space_pages_lower(self.addressor_spec().depth_spec());
                assert(b < self.map_spec().len() * 64);
                assert(cleared_upto(self.map_spec(), pre.map_spec(), start as int, b as int));
                lemma_cleared_at(self.map_spec(), pre.map_spec(), start as int, b as int, b as int);
                assert(block_set(pre.map_spec(), b as int));
                assert(block_set(self.map_spec(), b as int));
                crate::bits::lemma_bit64_zero(self.map_spec()[idx as int].value_spec());
                assert(self.map_spec()[idx as int].value_spec() != 0);
            }
            let ghost entry_state = *self;
            let word = self.map[idx as usize].value();
            let new_word = clear_bit64(word, off);
            self.map[idx as usize] = BlockPage(new_word);
            proof {
                assert(self.map_spec() =~= entry_state.map_spec().update(
                    idx as int,
                    BlockPage(new_word),
                ));
                assert(self.addressor_spec() == entry_state.addressor_spec());
                assert forall|q: u64| (#[trigger] self.walk0(q)) == entry_state.walk0(q) by {}
                lemma_clear_bit_step(
                    entry_state.map_spec(),
                    self.map_spec(),
                    pre.map_spec(),
                    start as int,
                    b as int,
                    idx as int,
                    off,
                    word,
                    new_word,
                );
            }
            let became_empty = self.map[idx as usize].is_empty();
            if became_empty {
                proof {
                    crate::bits::lemma_bit64_zero(new_word);
                    assert forall|j: u64| #[trigger] pre.map_spec()[idx as int].bit_spec(j)
                        implies start as int <= idx as int * 64 + j < end as int by {
                        assert(j < 64);
                        if idx as int * 64 + j >= b as int + 1 {
                            assert(block_set(self.map_spec(), idx as int * 64 + j) == (block_set(
                                pre.map_spec(),
                                idx as int * 64 + j,
                            ) && !(start as int <= idx as int * 64 + j < b as int + 1)));
                            assert(bit64(new_word, j));
                            assert(false);
                        } else {
                            assert(block_set(pre.map_spec(), idx as int * 64 + j));
                            assert(idx as int * 64 + j >= idx as int * 64);
                            assert(idx as int * 64 >= start as int - 63) by (nonlinear_arith)
                                requires
                                    idx == b / 64,
                                    start <= b,
                                    b == idx * 64 + off,
                                    off < 64,
                            ;
                            if idx as int * 64 + j < start as int {
                                assert(block_set(self.map_spec(), idx as int * 64 + j) == (
                                block_set(pre.map_spec(), idx as int * 64 + j) && !(start as int
                                    <= idx as int * 64 + j < b as int + 1)));
                                assert(bit64(new_word, j));
                                assert(false);
                            }
                        }
                    }
                    assert(word_emptied_by(pre.map_spec(), idx as int, start as int, end as int));
                    assert(self.walk0(idx) == pre.walk0(idx));
                    assert(pre.walk0(idx) is Mapped);
                    crate::mapper::lemma_space_pages_lower(self.addressor_spec().depth_spec());
                    assert(idx < self.addressor_spec().space_pages());
                    let e = pre.walk0(idx)->Mapped_0;
                    let f = e.frame_spec() as int;
                    assert(fm_pre[f] == FrameState::Locked);
                    if fm@[f] != fm_pre[f] {
                        let j = choose|j: int|
                            first <= j <= last && word_emptied_by(
                                pre.map_spec(),
                                j,
                                start as int,
                                end as int,
                            ) && self.walk0(j as u64) is NotMapped && (match (#[trigger] pre.walk0(
                                j as u64,
                            )) {
                                WalkResult::Mapped(e2) => e2.frame_spec() == f as u64,
                                _ => false,
                            });
                        if j != idx as int {
                            assert(false);
                        } else {
                            assert(self.walk0(idx) is Mapped);
                            assert(false);
                        }
                    }
                    assert(fm@[f] == FrameState::Locked);
                }
                let ghost mid_state = *self;
                let res = self.addressor.unmap(Page::from_index(idx), crate::frame::FrameOwnership::Locked, fm);
                proof {
                    if res is Err {
                        assert(false);
                    }
                    crate::mapper::lemma_space_pages_lower(mid_state.addressor_spec().depth_spec());
                    assert forall|q: u64|
                        q < ALLOCATOR_BASE_PAGE && !(first <= q && q <= last && word_emptied_by(
                            pre.map_spec(),
                            q as int,
                            start as int,
                            end as int,
                        )) implies (#[trigger] self.walk0(q)) == pre.walk0(q) by {
                        if q != idx {
                            assert(q < mid_state.addressor_spec().space_pages());
                            assert(self.walk0(q) == mid_state.walk0(q));
                        }
                    }
                    assert forall|i: int|
                        0 <= i < self.map_spec().len() && (#[trigger] self.map_spec()[i]).value_spec()
                        != 0 implies self.walk0(i as u64) is Mapped by {
                        assert(i != idx as int);
                        assert(self.walk0(i as u64) == mid_state.walk0(i as u64));
                    }
                    assert forall|i: int|
                        0 <= i < self.map_spec().len() && (#[trigger] self.map_spec()[i]).value_spec()
                        == 0 implies self.walk0(i as u64) is NotMapped by {
                        if i != idx as int {
                            assert(self.walk0(i as u64) == mid_state.walk0(i as u64));
                        }
                    }
                    assert forall|i: int|
                        first <= i <= last && self.map_spec()[i].value_spec() != 0 implies (
                    #[trigger] self.walk0(i as u64)) == pre.walk0(i as u64) by {
                        assert(i != idx as int);
                        assert(self.walk0(i as u64) == mid_state.walk0(i as u64));
                    }
                    assert forall|q: u64|
                        self.map_spec().len() <= q < ALLOCATOR_BASE_PAGE implies (
                    #[trigger] self.walk0(q)) is NotMapped by {
                        assert(self.walk0(q) == mid_state.walk0(q));
                    }
                    assert forall|q: u64|
                        ALLOCATOR_BASE_PAGE + storage_pages(self.map_spec().len() as int) <= q
                            < self.addressor_spec().space_pages() implies (#[trigger] self.walk0(
                        q,
                    )) is NotMapped by {
                        assert(self.walk0(q) == mid_state.walk0(q));
                    }
                    assert forall|q: u64|
                        q < self.addressor_spec().space_pages() implies !((#[trigger] self.walk0(
                        q,
                    )) is HugePage) by {
                        if q != idx {
                            assert(self.walk0(q) == mid_state.walk0(q));
                        }
                    }
                    assert forall|f: int|
                        0 <= f < fm_pre.len() implies fm@[f] == fm_pre[f] || (fm_pre[f]
                        == FrameState::Locked && fm@[f] == FrameState::Free && (exists|i: int|
                        #![trigger pre.walk0(i as u64)]
                        first <= i <= last && word_emptied_by(
                            pre.map_spec(),
                            i,
                            start as int,
                            end as int,
                        ) && (match pre.walk0(i as u64) {
                            WalkResult::Mapped(e) => e.frame_spec() == f as u64,
                            _ => false,
                        }))) by {
                        let e = pre.walk0(idx)->Mapped_0;
                        if f == e.frame_spec() as int {
                            assert(first <= idx as int <= last && word_emptied_by(
                                pre.map_spec(),
                                idx as int,
                                start as int,
                                end as int,
                            ) && self.walk0(idx) is NotMapped && (match pre.walk0(
                                idx as int as u64,
                            ) {
                                WalkResult::Mapped(e2) => e2.frame_spec() == f as u64,
                                _ => false,
                            }));
                        } else {
                            if fm@[f] != fm_pre[f] {
                                let j = choose|j: int|
                                    first <= j <= last && word_emptied_by(
                                        pre.map_spec(),
                                        j,
                                        start as int,
                                        end as int,
                                    ) && mid_state.walk0(j as u64) is NotMapped && (match (
                                    #[trigger] pre.walk0(j as u64)) {
                                        WalkResult::Mapped(e2) => e2.frame_spec() == f as u64,
                                        _ => false,
                                    });
                                assert(j != idx as int);
                                assert(self.walk0(j as u64) == mid_state.walk0(j as u64));
                            }
                        }
                    }
                }
            }
            b = b + 1;
            proof {
                assert(b < end ==> b / 64 <= last) by (nonlinear_arith)
                    requires
                        b <= end,
                        last == (end - 1) / 64,
                ;
            }
        }
        proof {
            assert(b == end);
            assert(cleared_upto(self.map_spec(), pre.map_spec(), start as int, end as int));
            assert(self.map_spec().len() == pre.map_spec().len());
            assert forall|i: int|
                first <= i <= last && word_emptied_by(pre.map_spec(), i, start as int, end as int)
                implies self.map_spec()[i].value_spec() == 0 by {
                lemma_emptied_zero(self.map_spec(), pre.map_spec(), start as int, end as int, i);
            }
        }
    }
}

/// The number of `Reserved` entries of `s` from index `i` on.
pub open spec fn reserved_from(s: Seq<crate::frame::FrameState>, i: int) -> int
    decreases s.len() - i,
{
    if i < 0 || i >= s.len() {
        0
    } else {
        (if s[i] == FrameState::Reserved {
            1int
        } else {
            0int
        }) + reserved_from(s, i + 1)
    }
}

/// `reserved_from` is nonnegative and ignores transitions that do not touch
/// `Reserved` entries.
pub proof fn lemma_reserved_from_same(s1: Seq<crate::frame::FrameState>, s2: Seq<
    crate::frame::FrameState,
>, i: int)
    requires
        s1.len() == s2.len(),
        (forall|k: int| 0 <= k < s1.len() ==> (s1[k] == FrameState::Reserved) == (s2[k]
            == FrameState::Reserved)),
    ensures
        reserved_from(s1, i) == reserved_from(s2, i),
        reserved_from(s1, i) >= 0,
    decreases s1.len() - i,
{
    if 0 <= i && i < s1.len() {
        lemma_reserved_from_same(s1, s2, i + 1);
    }
}

impl BlockAllocator {
    /// Scan the map for `count` consecutive entirely-free block pages: the
    /// first page index of the run, if one was found.
    #[verifier::loop_isolation(false)]
    fn find_word_run(&self, count: usize) -> (r: Option<usize>)
        requires
            count >= 1,
            self.map_spec().len() <= 0x1000_0000,
        ensures
            (r matches Some(w) ==> w + count <= self.map_spec().len() && (forall|i: int|
                w <= i < w + count ==> (#[trigger] self.map_spec()[i]).value_spec() == 0)),
    {
        let total = self.map.len();
        let mut i: usize = 0;
        let mut run: usize = 0;
        while i < total
            invariant
                i <= total,
                run <= i,
                run < count,
                (forall|j: int| i - run <= j < i ==> (#[trigger] self.map_spec()[j]).value_spec()
                    == 0),
            decreases total - i,
        {
            if self.map[i].is_empty() {
                run = run + 1;
            } else {
                run = 0;
            }
            i = i + 1;
            if run == count {
                return Some(i - count);
            }
        }
        None
    }

    /// Identity-map the heap page sharing the index of `frame`: grow the
    /// map to cover it if needed, mark its block page fully occupied, and —
    /// when `virtual_map` is set — map the page 1:1 to the frame through
    /// the backing space, without touching the frame's ledger state.  The
    /// bootstrap path for firmware-reserved regions.
    ///
    /// With `virtual_map` unset the page must already be mapped (the
    /// two-phase bootstrap maps it through the backing space first).  The
    /// ledger must hold enough free frames; exhaustion here is fatal in the
    /// running kernel.
    #[verifier::loop_isolation(false)]
    #[verifier::rlimit(100)]
    pub fn identity_map(&mut self, frame: usize, virtual_map: bool, fm: &mut FrameManager)
        requires
            old(self).wf_spec(),
            frame < 0x100_0000,
            old(self).map_spec().len() <= 0x1000_0000,
            old(fm)@.len() <= 0x100_0000_0000,
            count_free(old(fm)@) >= old(self).addressor_spec().depth_spec(),
            frame >= old(self).map_spec().len() ==> count_free(old(fm)@) >= (storage_pages(
                pow2_ceil(frame + 1),
            ) - storage_pages(old(self).map_spec().len() as int) + 1) * old(self).addressor_spec().depth_spec(),
            !virtual_map ==> frame < old(self).map_spec().len() && old(self).walk0(frame as u64)
                is Mapped,
        ensures
            final(self).wf_spec(),
            final(self).addressor_spec().same_config(old(self).addressor_spec()),
            final(self).map_spec().len() >= old(self).map_spec().len(),
            frame < final(self).map_spec().len(),
            final(self).map_spec()[frame as int].value_spec() == u64::MAX,
            (forall|i: int|
                0 <= i < final(self).map_spec().len() && i != frame ==> (#[trigger] final(self).map_spec()[i]) == (if i < old(self).map_spec().len() {
                    old(self).map_spec()[i]
                } else {
                    BlockPage::empty_spec()
                })),
            (virtual_map ==> final(self).walk0(frame as u64) == leaf_result(
                crate::paging::TableEntry::spec_new(frame as u64, HEAP_PAGE_ATTRS),
            )),
            (!virtual_map ==> final(self).walk0(frame as u64) == old(self).walk0(frame as u64)),
            (forall|q: u64|
                q < ALLOCATOR_BASE_PAGE && q != frame ==> (#[trigger] final(self).walk0(q)) == old(self).walk0(q)),
            final(fm)@.len() == old(fm)@.len(),
            (forall|i: int|
                0 <= i < old(fm)@.len() ==> final(fm)@[i] == old(fm)@[i] || (old(fm)@[i]
                    == FrameState::Free && final(fm)@[i] == FrameState::Locked)),
            (frame < old(self).map_spec().len() ==> count_free(final(fm)@) >= count_free(old(fm)@)
                - old(self).addressor_spec().depth_spec()),
            (frame < old(self).map_spec().len() ==> final(self).map_spec().len() == old(
                self,
            ).map_spec().len()),
    {
        let depth = self.addressor.depth();
        if self.map.len() <= frame {
            let cur_len = self.map.len();
            let grow_blocks = ((frame - cur_len) + 1) * 64;
            proof {
                assert((grow_blocks + 63) / 64 == frame - cur_len + 1 && 1 <= grow_blocks
                    <= 0x4000_0000) by (nonlinear_arith)
                    requires
                        grow_blocks == ((frame - cur_len) + 1) * 64,
                        cur_len <= frame < 0x100_0000,
                ;
            }
            let ghost sdelta = storage_pages(pow2_ceil(frame + 1)) - storage_pages(cur_len as int);
            proof {
                lemma_pow2_ceil_bounds(frame + 1 as int);
                assert(sdelta * depth < (sdelta + 1) * depth) by (nonlinear_arith)
                    requires
                        depth >= 1,
                ;
            }
            match self.grow(grow_blocks, fm) {
                Ok(_) => {},
                Err(_) => {
                    proof {
                        assert(false);
                    }
                },
            }
            proof {
                lemma_pow2_ceil_bounds(frame + 1 as int);
                let ghost cfa: int = count_free(fm@) as int;
                let ghost cf0: int = count_free(old(fm)@) as int;
                assert(cfa >= cf0 - sdelta * depth);
                assert(cfa >= depth) by (nonlinear_arith)
                    requires
                        cfa >= cf0 - sdelta * depth,
                        cf0 >= (sdelta + 1) * depth,
                        depth >= 1,
                ;
            }
        }
        let ghost mid = *self;
        let ghost fm_mid = fm@;
        if virtual_map {
            let attrs = TableEntryFlags::new(HEAP_PAGE_ATTRS);
            proof {
                crate::mapper::lemma_space_pages_lower(depth);
                assert((frame as u64) < self.addressor_spec().space_pages());
                assert(count_free(fm@) >= depth - 1);
            }
            proof {
                assert(!(self.walk0(frame as u64) is HugePage));
            }
            let res = self.addressor.identity_map(frame, attrs, fm);
            proof {
                if res is Err {
                    assert(false);
                }
            }
        }
        let ghost mid2 = *self;
        self.map[frame] = BlockPage(0xFFFF_FFFF_FFFF_FFFF);
        proof {
            crate::paging::TableEntry::lemma_entry_new_fields(frame as u64, HEAP_PAGE_ATTRS);
            assert(0x3u64 & 0x1 == 0x1 && 0x3u64 & 0x80 == 0 && 0xFFFF_FFFF_FFFF_FFFFu64 != 0)
                by (bit_vector);
            assert(self.map_spec() == mid2.map_spec().update(
                frame as int,
                BlockPage(0xFFFF_FFFF_FFFF_FFFF),
            ));
            assert(self.addressor_spec() == mid2.addressor_spec());
            assert forall|q: u64| (#[trigger] self.walk0(q)) == mid2.walk0(q) by {}
            if virtual_map {
                assert(self.walk0(frame as u64) == leaf_result(
                    crate::paging::TableEntry::spec_new(frame as u64, HEAP_PAGE_ATTRS),
                ));
                assert(self.walk0(frame as u64) is Mapped);
            } else {
                assert(self.walk0(frame as u64) == old(self).walk0(frame as u64));
                assert(self.walk0(frame as u64) is Mapped);
            }
            assert forall|q: u64|
                q < ALLOCATOR_BASE_PAGE && q != frame implies (#[trigger] self.walk0(q)) == old(self).walk0(q) by {
                if virtual_map {
                    assert(mid2.walk0(q) == mid.walk0(q));
                }
                assert(mid.walk0(q) == old(self).walk0(q));
            }
            assert forall|i: int|
                0 <= i < self.map_spec().len() && (#[trigger] self.map_spec()[i]).value_spec() == 0
                implies self.walk0(i as u64) is NotMapped by {
                assert(i != frame as int);
                assert(self.map_spec()[i] == mid.map_spec()[i]);
            }
            assert forall|i: int|
                0 <= i < self.map_spec().len() && (#[trigger] self.map_spec()[i]).value_spec() != 0
                implies self.walk0(i as u64) is Mapped by {
                if i != frame as int {
                    assert(self.map_spec()[i] == mid.map_spec()[i]);
                }
            }
            assert forall|q: u64|
                self.map_spec().len() <= q < ALLOCATOR_BASE_PAGE implies (#[trigger] self.walk0(q))
                is NotMapped by {
                assert(self.walk0(q) == mid.walk0(q));
            }
            assert forall|q: u64|
                ALLOCATOR_BASE_PAGE + storage_pages(self.map_spec().len() as int) <= q < self
                    .addressor_spec().space_pages() implies (#[trigger] self.walk0(q))
                is NotMapped by {
                assert(self.walk0(q) == mid.walk0(q));
            }
            assert forall|q: u64|
                q < self.addressor_spec().space_pages() implies !((#[trigger] self.walk0(q))
                is HugePage) by {
                if q != frame as u64 {
                    assert(self.walk0(q) == mid.walk0(q));
                }
            }
            assert forall|i: int|
                0 <= i < self.map_spec().len() && i != frame implies (
            #[trigger] self.map_spec()[i]) == (if i < old(self).map_spec().len() {
                old(self).map_spec()[i]
            } else {
                BlockPage::empty_spec()
            }) by {
                assert(self.map_spec()[i] == mid.map_spec()[i]);
                if i >= old(self).map_spec().len() {
                    assert(mid.map_spec()[i].value_spec() == 0);
                }
            }
        }
    }

    /// Allocate a run of block pages pre-bound to the caller-supplied
    /// physical frames `frame_base .. frame_base + frame_count` rather than
    /// fresh ones: find or create a run of entirely-free block pages, mark
    /// them fully occupied, and map each 1:1-offset page to its frame
    /// without touching the frames' ledger states.  Returns the byte
    /// address of the run.
    ///
    /// The ledger must hold enough free frames for the growth and the
    /// intermediate tables; exhaustion here is fatal in the running kernel.
    #[verifier::loop_isolation(false)]
    #[verifier::rlimit(100)]
    pub fn alloc_to(&mut self, frame_base: usize, frame_count: usize, fm: &mut FrameManager) -> (r:
        u64)
        requires
            old(self).wf_spec(),
            1 <= frame_count <= 0x10_0000,
            frame_base + frame_count < 0x100_0000_0000,
            frame_base + frame_count <= usize::MAX,
            old(self).map_spec().len() <= 0x1000_0000,
            old(fm)@.len() <= 0x100_0000_0000,
            count_free(old(fm)@) >= (storage_pages(
                pow2_ceil(old(self).map_spec().len() + frame_count),
            ) - storage_pages(old(self).map_spec().len() as int) + frame_count) * old(self).addressor_spec().depth_spec(),
        ensures
            final(self).wf_spec(),
            final(self).addressor_spec().same_config(old(self).addressor_spec()),
            final(self).map_spec().len() >= old(self).map_spec().len(),
            r % 0x1000 == 0,
            r / 0x1000 + frame_count <= final(self).map_spec().len(),
            (forall|k: int|
                0 <= k < frame_count ==> (#[trigger] final(self).map_spec()[r as int / 0x1000
                    + k]).value_spec() == u64::MAX),
            (forall|k: int|
                0 <= k < frame_count ==> (#[trigger] final(self).walk0((r / 0x1000 + k) as u64))
                    == leaf_result(
                    crate::paging::TableEntry::spec_new(
                        (frame_base + k) as u64,
                        HEAP_PAGE_ATTRS,
                    ),
                )),
            (forall|i: int|
                0 <= i < final(self).map_spec().len() && !(r as int / 0x1000 <= i < r as int
                    / 0x1000 + frame_count) ==> (#[trigger] final(self).map_spec()[i]) == (if i
                    < old(self).map_spec().len() {
                    old(self).map_spec()[i]
                } else {
                    BlockPage::empty_spec()
                })),
            (forall|q: u64|
                q < ALLOCATOR_BASE_PAGE && !(r as int / 0x1000 <= q as int && (q as int) < r as int
                    / 0x1000 + frame_count) ==> (#[trigger] final(self).walk0(q)) == old(self).walk0(q)),
            final(fm)@.len() == old(fm)@.len(),
            (forall|i: int|
                0 <= i < old(fm)@.len() ==> final(fm)@[i] == old(fm)@[i] || (old(fm)@[i]
                    == FrameState::Free && final(fm)@[i] == FrameState::Locked)),
    {
        let depth = self.addressor.depth();
        let ghost len0: int = old(self).map_spec().len() as int;
        let ghost pg: int = pow2_ceil(len0 + frame_count);
        let ghost sdelta = storage_pages(pg) - storage_pages(len0);
        proof {
            lemma_pow2_ceil_bounds(len0 + frame_count);
            assert(storage_pages(pg) >= storage_pages(len0)) by (nonlinear_arith)
                requires
                    pg >= len0,
                    len0 >= 0,
                    storage_pages(pg) == (pg + 511) / 512,
                    storage_pages(len0) == (len0 + 511) / 512,
            ;
            assert((sdelta + frame_count) * depth >= frame_count * depth && frame_count * depth
                >= frame_count) by (nonlinear_arith)
                requires
                    sdelta >= 0,
                    depth >= 1,
                    frame_count >= 1,
            ;
        }
        let w: usize = match self.find_word_run(frame_count) {
            Some(w) => w,
            None => {
                let cur_len = self.map.len();
                let grow_blocks = frame_count * 64;
                proof {
                    assert((grow_blocks + 63) / 64 == frame_count && 1 <= grow_blocks
                        <= 0x4000_0000) by (nonlinear_arith)
                        requires
                            grow_blocks == frame_count * 64,
                            1 <= frame_count <= 0x10_0000,
                    ;
                }
                match self.grow(grow_blocks, fm) {
                    Ok(_) => {},
                    Err(_) => {
                        proof {
                            assert(sdelta * depth < (sdelta + frame_count) * depth)
                                by (nonlinear_arith)
                                requires
                                    depth >= 1,
                                    frame_count >= 1,
                            ;
                            assert(false);
                        }
                    },
                }
                proof {
                    lemma_pow2_ceil_bounds((cur_len + frame_count) as int);
                }
                cur_len
            },
        };
        let ghost pre = *self;
        let ghost fm_pre = fm@;
        proof {
            let ghost cfp: int = count_free(fm_pre) as int;
            let ghost cf0: int = count_free(old(fm)@) as int;
            assert(cfp >= cf0 - sdelta * depth);
            assert(cfp >= frame_count * depth) by (nonlinear_arith)
                requires
                    cfp >= cf0 - sdelta * depth,
                    cf0 >= (sdelta + frame_count) * depth,
                    depth >= 1,
            ;
        }
        let attrs = TableEntryFlags::new(HEAP_PAGE_ATTRS);
        let mut k: usize = 0;
        while k < frame_count
            invariant
                k <= frame_count,
                w + frame_count <= self.map_spec().len(),
                self.map_spec().len() == pre.map_spec().len(),
                self.addressor_spec().same_config(pre.addressor_spec()),
                self.addressor_spec().wf_spec(),
                self.addressor_spec().depth_spec() == depth,
                fm@.len() == fm_pre.len(),
                (forall|i: int|
                    0 <= i < fm_pre.len() ==> fm@[i] == fm_pre[i] || (fm_pre[i]
                        == FrameState::Free && fm@[i] == FrameState::Locked)),
                count_free(fm@) >= (frame_count - k) * depth,
                (forall|j: int|
                    w <= j < w + k ==> (#[trigger] self.map_spec()[j]).value_spec() == u64::MAX),
                (forall|j: int|
                    w <= j < w + k ==> (#[trigger] self.walk0(j as u64)) == leaf_result(
                        crate::paging::TableEntry::spec_new((frame_base + j - w) as u64, HEAP_PAGE_ATTRS),
                    )),
                (forall|i: int|
                    0 <= i < self.map_spec().len() && !(w <= i < w + k) ==> (
                    #[trigger] self.map_spec()[i]) == pre.map_spec()[i]),
                (forall|q: u64|
                    q < ALLOCATOR_BASE_PAGE && !(w <= q as int && (q as int) < w + k) ==> (
                    #[trigger] self.walk0(q)) == pre.walk0(q)),
                (forall|i: int|
                    0 <= i < self.map_spec().len() ==> ((#[trigger] self.map_spec()[i]).value_spec()
                        == 0 ==> self.walk0(i as u64) is NotMapped)),
                (forall|i: int|
                    0 <= i < self.map_spec().len() ==> ((#[trigger] self.map_spec()[i]).value_spec()
                        != 0 ==> self.walk0(i as u64) is Mapped)),
                (forall|q: u64|
                    self.map_spec().len() <= q < ALLOCATOR_BASE_PAGE ==> (#[trigger] self.walk0(q))
                        is NotMapped),
                (forall|q: u64|
                    ALLOCATOR_BASE_PAGE + storage_pages(self.map_spec().len() as int) <= q < self
                        .addressor_spec().space_pages() ==> (#[trigger] self.walk0(q))
                        is NotMapped),
                (forall|q: u64|
                    q < self.addressor_spec().space_pages() ==> !((#[trigger] self.walk0(q))
                        is HugePage)),
            decreases frame_count - k,
        {
            let page_index = w + k;
            proof {
                crate::mapper::lemma_space_pages_lower(depth);
                assert((page_index as u64) < self.addressor_spec().space_pages());
                assert(((frame_count - k) as int) * depth >= depth && ((frame_count - k) as int)
                    * depth - depth == ((frame_count - (k + 1)) as int) * depth)
                    by (nonlinear_arith)
                    requires
                        k < frame_count,
                        depth >= 1,
                ;
            }
            let ghost entry_state = *self;
            proof {
                assert(!(self.walk0(page_index as u64) is HugePage));
            }
            let res = self.addressor.map(
                Page::from_index(page_index as u64),
                frame_base + k,
                crate::frame::FrameOwnership::Untracked,
                attrs,
                fm,
            );
            proof {
                if res is Err {
                    assert(false);
                }
                crate::paging::TableEntry::lemma_entry_new_fields(
                    (frame_base + k) as u64,
                    HEAP_PAGE_ATTRS,
                );
                assert(0x3u64 & 0x1 == 0x1 && 0x3u64 & 0x80 == 0) by (bit_vector);
            }
            let ghost mid2 = *self;
            self.map[page_index] = BlockPage(0xFFFF_FFFF_FFFF_FFFF);
            proof {
                assert(self.map_spec() == mid2.map_spec().update(
                    page_index as int,
                    BlockPage(0xFFFF_FFFF_FFFF_FFFF),
                ));
                assert(0xFFFF_FFFF_FFFF_FFFFu64 != 0) by (bit_vector);
                assert forall|q: u64| (#[trigger] self.walk0(q)) == mid2.walk0(q) by {}
                assert forall|q: u64|
                    q < ALLOCATOR_BASE_PAGE && !(w <= q as int && (q as int) < w + (k + 1)) implies (
                #[trigger] self.walk0(q)) == pre.walk0(q) by {
                    assert(self.walk0(q) == mid2.walk0(q));
                    assert(mid2.walk0(q) == entry_state.walk0(q));
                }
                assert forall|j: int|
                    w <= j < w + (k + 1) implies (#[trigger] self.walk0(j as u64)) == leaf_result(
                    crate::paging::TableEntry::spec_new((frame_base + j - w) as u64, HEAP_PAGE_ATTRS),
                ) by {
                    if j < w + k {
                        assert(self.walk0(j as u64) == entry_state.walk0(j as u64));
                    }
                }
                assert forall|i: int|
                    0 <= i < self.map_spec().len() && (#[trigger] self.map_spec()[i]).value_spec()
                    == 0 implies self.walk0(i as u64) is NotMapped by {
                    assert(i != page_index as int);
                    assert(self.walk0(i as u64) == entry_state.walk0(i as u64));
                    assert(self.map_spec()[i] == entry_state.map_spec()[i]);
                }
                assert forall|i: int|
                    0 <= i < self.map_spec().len() && (#[trigger] self.map_spec()[i]).value_spec()
                    != 0 implies self.walk0(i as u64) is Mapped by {
                    if i != page_index as int {
                        assert(self.walk0(i as u64) == entry_state.walk0(i as u64));
                        assert(self.map_spec()[i] == entry_state.map_spec()[i]);
                    }
                }
                assert forall|q: u64|
                    self.map_spec().len() <= q < ALLOCATOR_BASE_PAGE implies (
                #[trigger] self.walk0(q)) is NotMapped by {
                    assert(self.walk0(q) == entry_state.walk0(q));
                }
                assert forall|q: u64|
                    ALLOCATOR_BASE_PAGE + storage_pages(self.map_spec().len() as int) <= q < self
                        .addressor_spec().space_pages() implies (#[trigger] self.walk0(q))
                    is NotMapped by {
                    assert(self.walk0(q) == entry_state.walk0(q));
                }
                assert forall|q: u64|
                    q < self.addressor_spec().space_pages() implies !((#[trigger] self.walk0(q))
                    is HugePage) by {
                    if q != page_index as u64 {
                        assert(self.walk0(q) == entry_state.walk0(q));
                    }
                }
            }
            k = k + 1;
        }
        proof {
            assert(((w as u64) * 0x1000) % 0x1000 == 0 && ((w as u64) * 0x1000) as int / 0x1000
                == w) by (nonlinear_arith)
                requires
                    w <= 0x2200_0000,
            ;
            assert forall|i: int|
                0 <= i < self.map_spec().len() && !(w <= i < w + frame_count) implies (
            #[trigger] self.map_spec()[i]) == (if i < old(self).map_spec().len() {
                old(self).map_spec()[i]
            } else {
                BlockPage::empty_spec()
            }) by {
                assert(self.map_spec()[i] == pre.map_spec()[i]);
                if i >= old(self).map_spec().len() {
                    assert(pre.map_spec()[i].value_spec() == 0);
                }
            }
            assert forall|q: u64|
                q < ALLOCATOR_BASE_PAGE && !(w <= q as int && (q as int) < w + frame_count) implies (
            #[trigger] self.walk0(q)) == old(self).walk0(q) by {
                assert(self.walk0(q) == pre.walk0(q));
            }
        }
        (w as u64) * 0x1000
    }

    /// Bootstrap the heap over the firmware memory map: identity-map every
    /// `Reserved` frame of the ledger through the backing space and mark
    /// its block page fully occupied, so that the general allocation path
    /// never hands out firmware-owned memory.  The reserved frames' ledger
    /// states are left untouched.
    ///
    /// The allocator must be fresh, and the ledger must hold enough free
    /// frames for the map growth and the page tables; exhaustion here is
    /// fatal in the running kernel.
    #[verifier::loop_isolation(false)]
    #[verifier::rlimit(100)]
    pub fn init(&mut self, fm: &mut FrameManager)
        requires
            old(self).wf_spec(),
            old(self).map_spec().len() == 0,
            1 <= old(fm)@.len() <= 0x100_0000,
            count_free(old(fm)@) >= (storage_pages(pow2_ceil(old(fm)@.len() as int))
                + reserved_from(old(fm)@, 0) + 1) * old(self).addressor_spec().depth_spec(),
        ensures
            final(self).wf_spec(),
            final(self).addressor_spec().same_config(old(self).addressor_spec()),
            final(self).map_spec().len() >= old(fm)@.len(),
            final(fm)@.len() == old(fm)@.len(),
            (forall|i: int|
                0 <= i < old(fm)@.len() ==> final(fm)@[i] == old(fm)@[i] || (old(fm)@[i]
                    == FrameState::Free && final(fm)@[i] == FrameState::Locked)),
            (forall|i: int|
                0 <= i < old(fm)@.len() && old(fm)@[i] == FrameState::Reserved ==> final(fm)@[i]
                    == FrameState::Reserved),
            (forall|i: int|
                0 <= i < old(fm)@.len() && old(fm)@[i] == FrameState::Reserved ==> (
                #[trigger] final(self).walk0(i as u64)) == leaf_result(
                    crate::paging::TableEntry::spec_new(i as u64, HEAP_PAGE_ATTRS),
                ) && final(self).map_spec()[i].value_spec() == u64::MAX),
    {
        let depth = self.addressor.depth();
        let total = fm.total_frames();
        let grow_blocks = total * 64;
        let ghost rsv: int = reserved_from(old(fm)@, 0);
        let ghost spg: int = storage_pages(pow2_ceil(total as int));
        proof {
            lemma_reserved_from_same(old(fm)@, old(fm)@, 0);
            assert((grow_blocks + 63) / 64 == total && 1 <= grow_blocks <= 0x4000_0000)
                by (nonlinear_arith)
                requires
                    grow_blocks == total * 64,
                    1 <= total <= 0x100_0000,
            ;
            assert((spg + rsv + 1) * depth >= (spg - storage_pages(0) + 1) * depth && (spg
                - storage_pages(0)) * depth < (spg + rsv + 1) * depth) by (nonlinear_arith)
                requires
                    rsv >= 0,
                    depth >= 1,
                    storage_pages(0) == 0,
            ;
        }
        match self.grow(grow_blocks, fm) {
            Ok(_) => {},
            Err(_) => {
                proof {
                    assert(false);
                }
            },
        }
        proof {
            lemma_pow2_ceil_bounds(total as int);
            let ghost cfa: int = count_free(fm@) as int;
            let ghost cf0: int = count_free(old(fm)@) as int;
            assert(cfa >= cf0 - spg * depth);
            assert(cfa >= rsv * depth) by (nonlinear_arith)
                requires
                    cfa >= cf0 - spg * depth,
                    cf0 >= (spg + rsv + 1) * depth,
                    depth >= 1,
                    rsv >= 0,
            ;
        }
        let ghost fm_start = old(fm)@;
        let mut n: usize = 0;
        while n < total
            invariant
                n <= total,
                total == fm@.len(),
                total <= self.map_spec().len(),
                self.wf_spec(),
                self.map_spec().len() <= 0x1000_0000,
                self.addressor_spec().same_config(old(self).addressor_spec()),
                self.addressor_spec().depth_spec() == depth,
                fm@.len() == fm_start.len(),
                (forall|i: int|
                    0 <= i < fm_start.len() ==> fm@[i] == fm_start[i] || (fm_start[i]
                        == FrameState::Free && fm@[i] == FrameState::Locked)),
                count_free(fm@) >= reserved_from(fm_start, n as int) * depth,
                (forall|i: int|
                    0 <= i < n && fm_start[i] == FrameState::Reserved ==> (
                    #[trigger] self.walk0(i as u64)) == leaf_result(
                        crate::paging::TableEntry::spec_new(i as u64, HEAP_PAGE_ATTRS),
                    ) && self.map_spec()[i].value_spec() == u64::MAX),
            decreases total - n,
        {
            proof {
                assert(reserved_from(fm_start, n as int) == (if fm_start[n as int]
                    == FrameState::Reserved {
                    1int
                } else {
                    0int
                }) + reserved_from(fm_start, n as int + 1));
                lemma_reserved_from_same(fm_start, fm_start, n as int + 1);
            }
            let state = match fm.get_state(n) {
                Ok(state) => state,
                Err(_) => {
                    proof {
                        assert(false);
                    }
                    FrameState::Free
                },
            };
            if matches!(state, FrameState::Reserved) {
                proof {
                    assert(fm@[n as int] == fm_start[n as int]);
                    assert(reserved_from(fm_start, n as int) * depth == depth + reserved_from(
                        fm_start,
                        n as int + 1,
                    ) * depth) by (nonlinear_arith)
                        requires
                            reserved_from(fm_start, n as int) == 1 + reserved_from(
                                fm_start,
                                n as int + 1,
                            ),
                    ;
                }
                let ghost before = *self;
                self.identity_map(n, true, fm);
                proof {
                    assert forall|i: int|
                        0 <= i < n && fm_start[i] == FrameState::Reserved implies (
                    #[trigger] self.walk0(i as u64)) == leaf_result(
                        crate::paging::TableEntry::spec_new(i as u64, HEAP_PAGE_ATTRS),
                    ) && self.map_spec()[i].value_spec() == u64::MAX by {
                        assert(self.walk0(i as u64) == before.walk0(i as u64));
                        assert(self.map_spec()[i] == before.map_spec()[i]);
                    }
                }
            }
            n = n + 1;
        }
    }
}


/// The allocation round trip: marking a previously free run of blocks and
/// then clearing exactly that run returns every block page to its state
/// before the allocation (zero, for the pages the map gained).
pub proof fn lemma_alloc_dealloc_roundtrip(
    m0: Seq<BlockPage>,
    m1: Seq<BlockPage>,
    m2: Seq<BlockPage>,
    start: int,
    blocks: int,
)
    requires
        m1.len() >= m0.len(),
        m2.len() == m1.len(),
        (forall|b: int|
            0 <= b < m1.len() * 64 ==> block_set(m1, b) == (if start <= b < start + blocks {
                true
            } else if b < m0.len() * 64 {
                block_set(m0, b)
            } else {
                false
            })),
        (forall|b: int|
            start <= b < start + blocks && b < m0.len() * 64 ==> !block_set(m0, b)),
        (forall|b: int|
            0 <= b < m2.len() * 64 ==> block_set(m2, b) == (block_set(m1, b) && !(start <= b
                < start + blocks))),
    ensures
        (forall|b: int|
            0 <= b < m2.len() * 64 ==> block_set(m2, b) == (if b < m0.len() * 64 {
                block_set(m0, b)
            } else {
                false
            })),
{
    assert forall|b: int|
        0 <= b < m2.len() * 64 implies block_set(m2, b) == (if b < m0.len() * 64 {
        block_set(m0, b)
    } else {
        false
    }) by {
        assert(block_set(m2, b) == (block_set(m1, b) && !(start <= b < start + blocks)));
        assert(block_set(m1, b) == (if start <= b < start + blocks {
            true
        } else if b < m0.len() * 64 {
            block_set(m0, b)
        } else {
            false
        }));
    }
}

} // verus!
