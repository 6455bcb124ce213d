//! The address-space mapper: the map/unmap/query interface of one address
//! space, built on the table walker and the frame ledger.

use vstd::prelude::*;
use crate::addr::{Address, Page, Physical, Virtual};
use crate::frame::{count_free, FrameError, FrameManager, FrameOwnership, FrameState};
use crate::paging::{
    leaf_result, lemma_entry_fields, lemma_same_path_injective, same_path, Error, PageDepth, SlotLookup, TableEntry,
    TableEntryCell, TableEntryFlags, FlagsModify, WalkResult,
};

verus! {

/// A typed error of the mapper interface.
#[derive(Clone, Copy, PartialEq, Eq, Structural, Debug)]
pub enum MapError {
    /// The page is not mapped.
    NotMapped,
    /// The page is already mapped.
    AlreadyMapped,
    /// A ledger transition required by the requested ownership failed.
    FrameError(FrameError),
    /// A huge entry terminated the walk above the leaf depth.
    HugePage,
    /// The ledger ran out of frames while demand-creating an intermediate
    /// table.
    AllocError,
}

/// The ledger after resolving `ownership` of frame `f`: untouched, borrowed
/// once more, or exclusively locked — or the transition error.
pub open spec fn resolve_ownership(s: Seq<FrameState>, f: usize, ownership: FrameOwnership) -> Result<
    Seq<FrameState>,
    FrameError,
> {
    match ownership {
        FrameOwnership::Untracked => Ok(s),
        FrameOwnership::Locked => if f >= s.len() {
            Err(FrameError::IndexOutOfRange)
        } else if s[f as int] != FrameState::Free {
            Err(FrameError::AlreadyLocked)
        } else {
            Ok(s.update(f as int, FrameState::Locked))
        },
        FrameOwnership::Borrowed => if f >= s.len() {
            Err(FrameError::IndexOutOfRange)
        } else {
            match s[f as int] {
                FrameState::Free => Ok(s.update(f as int, FrameState::Borrowed(1))),
                FrameState::Borrowed(n) => Ok(s.update(f as int, FrameState::Borrowed((n + 1) as u32))),
                _ => Err(FrameError::AlreadyBorrowed),
            }
        },
    }
}

/// The ledger after releasing `ownership` of frame `f`: untouched, one
/// borrow dropped, or freed.
pub open spec fn release_ownership(s: Seq<FrameState>, f: usize, ownership: FrameOwnership) -> Seq<
    FrameState,
> {
    match ownership {
        FrameOwnership::Untracked => s,
        FrameOwnership::Locked => s.update(f as int, FrameState::Free),
        FrameOwnership::Borrowed => match s[f as int] {
            FrameState::Borrowed(n) => s.update(
                f as int,
                if n <= 1 {
                    FrameState::Free
                } else {
                    FrameState::Borrowed((n - 1) as u32)
                },
            ),
            _ => s,
        },
    }
}

/// Whether releasing `ownership` of frame `f` meets the ledger's
/// preconditions: the frame must be held in the matching state.
pub open spec fn release_ok(s: Seq<FrameState>, f: u64, ownership: FrameOwnership) -> bool {
    match ownership {
        FrameOwnership::Untracked => true,
        FrameOwnership::Locked => f < s.len() && s[f as int] == FrameState::Locked,
        FrameOwnership::Borrowed => f < s.len() && s[f as int] is Borrowed,
    }
}

/// An address space of at least four levels distinguishes at least 2^36
/// pages.
pub proof fn lemma_space_pages_lower(depth: u32)
    requires
        4 <= depth <= 5,
    ensures
        1u64 << ((9 * depth) as u64) >= 0x10_0000_0000,
{
    if depth == 4 {
        assert(1u64 << 36u64 >= 0x10_0000_0000) by (bit_vector);
    } else {
        assert(1u64 << 45u64 >= 0x10_0000_0000) by (bit_vector);
    }
}

/// One address space: the root of its table forest, the ledger frame
/// backing the root table, the base page of the direct-map window through
/// which table frames are reached, and whether the CPU supports the
/// no-execute bit.
///
/// Every mutating operation invalidates only the local core's TLB in the
/// running kernel; no cross-core shootdown exists, and intermediate tables,
/// once created, are never reclaimed — both known limits of the design.
pub struct PageManager {
    cell: TableEntryCell,
    root_frame: usize,
    mapped_page: Page,
    nxe: bool,
}

impl PageManager {
    /// The table forest of this address space.
    pub closed spec fn cell_spec(self) -> TableEntryCell {
        self.cell
    }

    /// The ledger frame backing the root table.
    pub closed spec fn root_frame_spec(self) -> usize {
        self.root_frame
    }

    /// The base page of the direct-map window.
    pub closed spec fn mapped_page_spec(self) -> Page {
        self.mapped_page
    }

    /// Whether the no-execute bit is honoured.
    pub closed spec fn nxe_spec(self) -> bool {
        self.nxe
    }

    /// The number of paging levels of this address space.
    pub open spec fn depth_spec(self) -> u32 {
        self.cell_spec().depth_spec()
    }

    /// Well-formedness: the table forest is well-formed for the depth.
    pub open spec fn wf_spec(self) -> bool {
        self.cell_spec().wf_spec()
    }

    /// The number of pages the address space distinguishes.
    pub open spec fn space_pages(self) -> u64 {
        1u64 << ((9 * self.depth_spec()) as u64)
    }

    /// Whether `vpn` is a page index of this address space.
    pub open spec fn page_in_space(self, vpn: u64) -> bool {
        vpn < self.space_pages()
    }

    /// The full walk outcome for page index `vpn`.
    pub open spec fn walk0(self, vpn: u64) -> WalkResult {
        self.cell_spec().walk_spec(vpn, 0)
    }

    /// Whether page index `vpn` is mapped.
    pub open spec fn is_mapped_spec(self, vpn: u64) -> bool {
        self.walk0(vpn) is Mapped
    }

    /// The frame that page index `vpn` is mapped to, if any.
    pub open spec fn mapped_to_spec(self, vpn: u64) -> Option<u64> {
        match self.walk0(vpn) {
            WalkResult::Mapped(e) => Some(e.frame_spec()),
            _ => Option::<u64>::None,
        }
    }

    /// Everything of the manager but the table forest: identity fields.
    pub open spec fn same_config(self, other: PageManager) -> bool {
        &&& self.depth_spec() == other.depth_spec()
        &&& self.root_frame_spec() == other.root_frame_spec()
        &&& self.mapped_page_spec() == other.mapped_page_spec()
        &&& self.nxe_spec() == other.nxe_spec()
    }

    /// A fresh empty address space: locks one ledger frame for the root
    /// table and maps nothing.  `mapped_page` is the base of the direct-map
    /// window; `nxe_enabled` says whether the CPU honours the no-execute
    /// bit.  Fails exactly when the ledger has no free frame.
    pub fn new(fm: &mut FrameManager, mapped_page: Page, depth: PageDepth, nxe_enabled: bool) -> (r:
        Result<PageManager, MapError>)
        requires
            1 <= depth.get_spec() <= crate::paging::MAX_PAGING_LEVELS,
        ensures
            (r matches Ok(pm) ==> {
                &&& pm.wf_spec()
                &&& pm.depth_spec() == depth.get_spec()
                &&& pm.mapped_page_spec() == mapped_page
                &&& pm.nxe_spec() == nxe_enabled
                &&& pm.root_frame_spec() < old(fm)@.len()
                &&& old(fm)@[pm.root_frame_spec() as int] == FrameState::Free
                &&& final(fm)@ == old(fm)@.update(pm.root_frame_spec() as int, FrameState::Locked)
                &&& (forall|vpn: u64| (#[trigger] pm.walk0(vpn)) == WalkResult::NotMapped)
            }),
            (r is Err ==> r == Result::<PageManager, MapError>::Err(MapError::FrameError(
                FrameError::OutOfMemory,
            )) && final(fm)@ == old(fm)@ && (forall|j: int|
                0 <= j < old(fm)@.len() ==> old(fm)@[j] != FrameState::Free)),
    {
        let root_frame = match fm.lock_next() {
            Ok(frame) => frame,
            Err(_) => {
                return Err(MapError::FrameError(FrameError::OutOfMemory));
            },
        };
        let cell = TableEntryCell::new_root(depth);
        Ok(PageManager { cell, root_frame, mapped_page, nxe: nxe_enabled })
    }

    /// The number of paging levels of this address space.
    pub fn depth(&self) -> (r: u32)
        ensures
            r == self.depth_spec(),
    {
        self.cell.depth().get()
    }

    /// The ledger frame index backing the root table.
    pub fn root_frame_index(&self) -> (r: usize)
        ensures
            r == self.root_frame_spec(),
    {
        self.root_frame
    }

    /// The base page of the direct-map window.
    pub fn mapped_page(&self) -> (r: Page)
        ensures
            r == self.mapped_page_spec(),
    {
        self.mapped_page
    }

    /// The virtual base address of the direct-map window.
    pub fn mapped_offset(&self) -> (r: Address<Virtual>)
        requires
            self.mapped_page_spec().index_spec() * 0x1000 <= u64::MAX,
        ensures
            r.addr_spec() == crate::addr::canonical_virtual(
                (self.mapped_page_spec().index_spec() * 0x1000) as u64,
            ),
    {
        Address::<Virtual>::new_truncate(self.mapped_page.index() * 0x1000)
    }

    /// The page of the direct-map window through which the root table is
    /// read and written.
    pub fn pml4_page(&self) -> (r: Page)
        requires
            self.mapped_page_spec().index_spec() + self.root_frame_spec() <= u64::MAX,
        ensures
            r.index_spec() == self.mapped_page_spec().index_spec() + self.root_frame_spec(),
    {
        match self.mapped_page.forward_checked(self.root_frame as u64) {
            Some(page) => page,
            None => {
                proof {
                    assert(false);
                }
                self.mapped_page
            },
        }
    }

    /// Whether the given CR3 control-register value names this address
    /// space's root table.  Reading the register is the embedder's concern.
    pub fn is_active(&self, cr3: u64) -> (r: bool)
        ensures
            r == (cr3 / 0x1000 == self.root_frame_spec() as u64),
    {
        cr3 / 0x1000 == self.root_frame as u64
    }

    /// Whether the page containing `virt_addr` is mapped.
    pub fn is_mapped(&self, virt_addr: Address<Virtual>) -> (r: bool)
        requires
            self.wf_spec(),
        ensures
            r == self.is_mapped_spec(virt_addr.addr_spec() / 0x1000),
    {
        let page = Page::containing_addr(virt_addr);
        match self.cell.with_entry(page, PageDepth::min()) {
            Ok(_) => true,
            Err(_) => false,
        }
    }

    /// Whether `page` is mapped exactly to `frame_index`.
    pub fn is_mapped_to(&self, page: Page, frame_index: usize) -> (r: bool)
        requires
            self.wf_spec(),
        ensures
            r == (self.mapped_to_spec(page.index_spec()) == Some(frame_index as u64)),
    {
        match self.cell.with_entry(page, PageDepth::min()) {
            Ok(entry) => entry.get_frame() == frame_index as u64,
            Err(_) => false,
        }
    }

    /// The frame that `page` is mapped to: exactly the frame installed by
    /// the most recent mapping of `page`, and `None` once it is unmapped.
    pub fn get_mapped_to(&self, page: Page) -> (r: Option<u64>)
        requires
            self.wf_spec(),
        ensures
            r == self.mapped_to_spec(page.index_spec()),
    {
        match self.cell.with_entry(page, PageDepth::min()) {
            Ok(entry) => Some(entry.get_frame()),
            Err(_) => None,
        }
    }

    /// The attributes of the entry mapping `page`, or `None` when `page`
    /// is not mapped.
    pub fn get_page_attributes(&self, page: Page) -> (r: Option<TableEntryFlags>)
        requires
            self.wf_spec(),
        ensures
            (self.walk0(page.index_spec()) matches WalkResult::Mapped(e) ==> r == Some(
                TableEntryFlags { bits: e.attrs_spec() },
            )),
            (!(self.walk0(page.index_spec()) is Mapped) ==> r is None),
    {
        match self.cell.with_entry(page, PageDepth::min()) {
            Ok(entry) => Some(entry.get_attributes()),
            Err(_) => None,
        }
    }
}


/// The entry that `copy_by_map` installs at the destination: the source
/// frame, with the overriding attributes where given and the source's
/// attributes otherwise.
pub open spec fn moved_entry(e: TableEntry, new_attribs: Option<TableEntryFlags>) -> TableEntry {
    TableEntry::spec_new(
        e.frame_spec(),
        match new_attribs {
            Some(a) => a.bits,
            Option::<TableEntryFlags>::None => e.attrs_spec(),
        },
    )
}

impl PageManager {
    /// Map `page` to `frame_index`, acquiring the frame per `ownership`
    /// (not at all, as a shared borrow, or exclusively) before installing
    /// the entry with the attributes `attribs`, demand-creating
    /// intermediate tables from the ledger.
    ///
    /// A failed ownership transition surfaces as `FrameError` and changes
    /// nothing.  After a successful acquisition the installation can still
    /// fail on a huge entry (exactly when the walk of `page` meets one) or
    /// on ledger exhaustion; the acquisition is not rolled back.  Walks of
    /// every other page are untouched in every case.
    pub fn map(
        &mut self,
        page: Page,
        frame_index: usize,
        ownership: FrameOwnership,
        attribs: TableEntryFlags,
        fm: &mut FrameManager,
    ) -> (r: Result<(), MapError>)
        requires
            old(self).wf_spec(),
            old(self).page_in_space(page.index_spec()),
            frame_index < 0x100_0000_0000,
            old(fm)@.len() <= 0x100_0000_0000,
            (ownership == FrameOwnership::Borrowed && frame_index < old(fm)@.len() ==> (old(fm)@[frame_index as int] matches FrameState::Borrowed(n) ==> n < u32::MAX)),
        ensures
            final(self).wf_spec(),
            final(self).same_config(*old(self)),
            final(fm)@.len() == old(fm)@.len(),
            (resolve_ownership(old(fm)@, frame_index, ownership) matches Err(e) ==> r
                == Result::<(), MapError>::Err(MapError::FrameError(e)) && final(fm)@ == old(fm)@
                && (forall|q: u64| (#[trigger] final(self).walk0(q)) == old(self).walk0(q))),
            (resolve_ownership(old(fm)@, frame_index, ownership) matches Ok(s1) ==> {
                &&& (forall|i: int|
                    0 <= i < s1.len() ==> final(fm)@[i] == s1[i] || (s1[i] == FrameState::Free
                        && final(fm)@[i] == FrameState::Locked))
                &&& count_free(final(fm)@) >= count_free(s1) - (old(self).depth_spec() - 1)
                &&& ((old(self).walk0(page.index_spec()) is HugePage) <==> r == Result::<
                    (),
                    MapError,
                >::Err(MapError::HugePage))
                &&& (r == Result::<(), MapError>::Err(MapError::AllocError) ==> count_free(
                    final(fm)@,
                ) == 0)
                &&& (r is Err ==> r == Result::<(), MapError>::Err(MapError::HugePage) || r
                    == Result::<(), MapError>::Err(MapError::AllocError))
                &&& (!(old(self).walk0(page.index_spec()) is HugePage) && count_free(s1) >= old(self).depth_spec() - 1 ==> r is Ok)
                &&& (r is Ok ==> final(self).walk0(page.index_spec()) == leaf_result(
                    TableEntry::spec_new(frame_index as u64, attribs.bits),
                ))
                &&& (r is Ok ==> (forall|q: u64|
                    q < old(self).space_pages() && q != page.index_spec() ==> (#[trigger] final(self).walk0(q)) == old(self).walk0(q)))
                &&& (r is Err ==> (forall|q: u64| (#[trigger] final(self).walk0(q)) == old(self).walk0(q)))
            }),
    {
        let resolved = match ownership {
            FrameOwnership::Untracked => Ok(frame_index),
            FrameOwnership::Borrowed => fm.borrow(frame_index),
            FrameOwnership::Locked => fm.lock(frame_index),
        };
        match resolved {
            Err(e) => Err(MapError::FrameError(e)),
            Ok(_) => {
                let entry = TableEntry::new(frame_index as u64, attribs);
                let res = self.cell.with_entry_create(page, PageDepth::min(), entry, fm);
                proof {
                    let p = page.index_spec();
                    lemma_same_path_injective(p, p, old(self).depth_spec());
                    assert forall|q: u64|
                        q < old(self).space_pages() && q != p implies !same_path(
                        q,
                        p,
                        old(self).depth_spec(),
                        0,
                    ) by {
                        lemma_same_path_injective(q, p, old(self).depth_spec());
                    }
                }
                match res {
                    Ok(_) => Ok(()),
                    Err(Error::HugePage) => Err(MapError::HugePage),
                    Err(Error::AllocError) => Err(MapError::AllocError),
                    Err(Error::NotMapped(_)) => {
                        proof {
                            assert(false);
                        }
                        Err(MapError::NotMapped)
                    },
                }
            },
        }
    }

    /// Unmap `page`: clear the present flag of its entry and release the
    /// backing frame per `ownership` (`free` for `Locked`, `drop` for
    /// `Borrowed`, nothing for `Untracked`).
    ///
    /// Fails with `NotMapped` or `HugePage` exactly when the walk of `page`
    /// says so, changing nothing.  Walks of every other page are untouched;
    /// intermediate tables are not reclaimed.
    pub fn unmap(&mut self, page: Page, ownership: FrameOwnership, fm: &mut FrameManager) -> (r:
        Result<(), MapError>)
        requires
            old(self).wf_spec(),
            old(self).page_in_space(page.index_spec()),
            old(fm)@.len() <= usize::MAX,
            (old(self).walk0(page.index_spec()) matches WalkResult::Mapped(e) ==> release_ok(
                old(fm)@,
                e.frame_spec(),
                ownership,
            )),
        ensures
            final(self).wf_spec(),
            final(self).same_config(*old(self)),
            final(fm)@.len() == old(fm)@.len(),
            (old(self).walk0(page.index_spec()) is NotMapped ==> r == Result::<(), MapError>::Err(
                MapError::NotMapped,
            ) && final(fm)@ == old(fm)@ && (forall|q: u64| (#[trigger] final(self).walk0(q)) == old(self).walk0(q))),
            (old(self).walk0(page.index_spec()) is HugePage ==> r == Result::<(), MapError>::Err(
                MapError::HugePage,
            ) && final(fm)@ == old(fm)@ && (forall|q: u64| (#[trigger] final(self).walk0(q)) == old(self).walk0(q))),
            (old(self).walk0(page.index_spec()) matches WalkResult::Mapped(e) ==> r == Result::<
                (),
                MapError,
            >::Ok(()) && final(self).walk0(page.index_spec()) == WalkResult::NotMapped && final(fm)@ == release_ownership(old(fm)@, e.frame_spec() as usize, ownership) && (forall|q: u64|
                q < old(self).space_pages() && q != page.index_spec() ==> (#[trigger] final(self).walk0(q)) == old(self).walk0(q))),
    {
        let entry = match self.cell.with_entry(page, PageDepth::min()) {
            Ok(entry) => entry,
            Err(Error::NotMapped(_)) => {
                return Err(MapError::NotMapped);
            },
            Err(Error::HugePage) => {
                return Err(MapError::HugePage);
            },
            Err(Error::AllocError) => {
                proof {
                    assert(false);
                }
                return Err(MapError::NotMapped);
            },
        };
        proof {
            lemma_entry_fields(entry);
        }
        let cleared = entry.set_attributes(
            TableEntryFlags::new(crate::paging::PTE_PRESENT),
            FlagsModify::Remove,
            self.nxe,
        );
        proof {
            crate::paging::lemma_remove_present(entry, self.nxe_spec());
        }
        let new_entry = match ownership {
            FrameOwnership::Untracked => cleared,
            _ => {
                let frame = entry.get_frame();
                proof {
                    assert(old(self).walk0(page.index_spec()) matches WalkResult::Mapped(e) && e
                        == entry);
                    assert(release_ok(old(fm)@, entry.frame_spec(), ownership));
                    assert(entry.frame_spec() < old(fm)@.len());
                    assert((entry.frame_spec() as usize) as u64 == entry.frame_spec());
                }
                let release = match ownership {
                    FrameOwnership::Locked => fm.free(frame as usize),
                    _ => fm.drop(frame as usize),
                };
                proof {
                    if release is Err {
                        assert(false);
                    }
                    lemma_entry_fields(cleared);
                }
                TableEntry::new(0, cleared.get_attributes())
            },
        };
        let res = self.cell.with_entry_mut(page, PageDepth::min(), new_entry);
        proof {
            if res is Err {
                assert(false);
            }
            let p = page.index_spec();
            lemma_same_path_injective(p, p, old(self).depth_spec());
            assert forall|q: u64| q < old(self).space_pages() && q != p implies !same_path(
                q,
                p,
                old(self).depth_spec(),
                0,
            ) by {
                lemma_same_path_injective(q, p, old(self).depth_spec());
            }
        }
        Ok(())
    }

    /// Atomically relocate a mapping: read and clear the entry of
    /// `unmap_from`, then install it at `map_to`, with the attributes
    /// overridden where `new_attribs` is given.  Frame ownership is not
    /// touched.
    ///
    /// Fails with `NotMapped` or `HugePage` (changing nothing) when the
    /// walk of the source says so.  After the source is cleared the
    /// destination installation can still fail on a huge entry or ledger
    /// exhaustion; the source then stays cleared.  Walks of every other
    /// page are untouched.
    pub fn copy_by_map(
        &mut self,
        unmap_from: Page,
        map_to: Page,
        new_attribs: Option<TableEntryFlags>,
        fm: &mut FrameManager,
    ) -> (r: Result<(), MapError>)
        requires
            old(self).wf_spec(),
            old(self).page_in_space(unmap_from.index_spec()),
            old(self).page_in_space(map_to.index_spec()),
            unmap_from.index_spec() != map_to.index_spec(),
            old(fm)@.len() <= 0x100_0000_0000,
        ensures
            final(self).wf_spec(),
            final(self).same_config(*old(self)),
            final(fm)@.len() == old(fm)@.len(),
            (forall|i: int|
                0 <= i < old(fm)@.len() ==> final(fm)@[i] == old(fm)@[i] || (old(fm)@[i]
                    == FrameState::Free && final(fm)@[i] == FrameState::Locked)),
            (old(self).walk0(unmap_from.index_spec()) is NotMapped ==> r == Result::<
                (),
                MapError,
            >::Err(MapError::NotMapped) && final(fm)@ == old(fm)@ && (forall|q: u64|
                (#[trigger] final(self).walk0(q)) == old(self).walk0(q))),
            (old(self).walk0(unmap_from.index_spec()) is HugePage ==> r == Result::<
                (),
                MapError,
            >::Err(MapError::HugePage) && final(fm)@ == old(fm)@ && (forall|q: u64|
                (#[trigger] final(self).walk0(q)) == old(self).walk0(q))),
            (old(self).walk0(unmap_from.index_spec()) matches WalkResult::Mapped(e) ==> {
                &&& final(self).walk0(unmap_from.index_spec()) == WalkResult::NotMapped
                &&& (r is Ok ==> final(self).walk0(map_to.index_spec()) == leaf_result(
                    moved_entry(e, new_attribs),
                ))
                &&& (r is Err ==> (r == Result::<(), MapError>::Err(MapError::HugePage) || r
                    == Result::<(), MapError>::Err(MapError::AllocError)) && final(self).walk0(
                    map_to.index_spec(),
                ) == old(self).walk0(map_to.index_spec()))
                &&& ((old(self).walk0(map_to.index_spec()) is HugePage) <==> r == Result::<
                    (),
                    MapError,
                >::Err(MapError::HugePage))
                &&& (!(old(self).walk0(map_to.index_spec()) is HugePage) && count_free(old(fm)@)
                    >= old(self).depth_spec() - 1 ==> r is Ok)
                &&& (forall|q: u64|
                    q < old(self).space_pages() && q != unmap_from.index_spec() && q
                        != map_to.index_spec() ==> (#[trigger] final(self).walk0(q)) == old(self).walk0(q))
            }),
    {
        let entry = match self.cell.with_entry(unmap_from, PageDepth::min()) {
            Ok(entry) => entry,
            Err(Error::NotMapped(_)) => {
                return Err(MapError::NotMapped);
            },
            Err(Error::HugePage) => {
                return Err(MapError::HugePage);
            },
            Err(Error::AllocError) => {
                proof {
                    assert(false);
                }
                return Err(MapError::NotMapped);
            },
        };
        proof {
            lemma_entry_fields(entry);
        }
        let res_clear = self.cell.with_entry_mut(unmap_from, PageDepth::min(), TableEntry::empty());
        proof {
            if res_clear is Err {
                assert(false);
            }
            let pf = unmap_from.index_spec();
            let pt = map_to.index_spec();
            lemma_same_path_injective(pf, pf, old(self).depth_spec());
            lemma_same_path_injective(pt, pf, old(self).depth_spec());
            assert forall|q: u64| q < old(self).space_pages() && q != pf implies !same_path(
                q,
                pf,
                old(self).depth_spec(),
                0,
            ) by {
                lemma_same_path_injective(q, pf, old(self).depth_spec());
            }
        }
        let new_entry = TableEntry::new(
            entry.get_frame(),
            match new_attribs {
                Some(a) => a,
                None => entry.get_attributes(),
            },
        );
        let ghost mid = *self;
        let res = self.cell.with_entry_create(map_to, PageDepth::min(), new_entry, fm);
        proof {
            let pf = unmap_from.index_spec();
            let pt = map_to.index_spec();
            lemma_same_path_injective(pt, pt, mid.depth_spec());
            assert forall|q: u64| q < old(self).space_pages() && q != pt implies !same_path(
                q,
                pt,
                mid.depth_spec(),
                0,
            ) by {
                lemma_same_path_injective(q, pt, mid.depth_spec());
            }
        }
        match res {
            Ok(_) => Ok(()),
            Err(Error::HugePage) => Err(MapError::HugePage),
            Err(Error::AllocError) => Err(MapError::AllocError),
            Err(Error::NotMapped(_)) => {
                proof {
                    assert(false);
                }
                Err(MapError::NotMapped)
            },
        }
    }

    /// Map `page` to the first free ledger frame, exclusively acquired on
    /// the caller's behalf, with the attributes `attribs`; the mapped frame
    /// index is returned.
    ///
    /// Fails with `OutOfMemory` exactly when the ledger has no free frame;
    /// after the frame is locked, installation can still fail as under
    /// [`PageManager::map`], and the frame then stays locked.
    pub fn auto_map(&mut self, page: Page, attribs: TableEntryFlags, fm: &mut FrameManager) -> (r:
        Result<usize, MapError>)
        requires
            old(self).wf_spec(),
            old(self).page_in_space(page.index_spec()),
            old(fm)@.len() <= 0x100_0000_0000,
        ensures
            final(self).wf_spec(),
            final(self).same_config(*old(self)),
            final(fm)@.len() == old(fm)@.len(),
            (forall|i: int|
                0 <= i < old(fm)@.len() ==> final(fm)@[i] == old(fm)@[i] || (old(fm)@[i]
                    == FrameState::Free && final(fm)@[i] == FrameState::Locked)),
            count_free(final(fm)@) >= count_free(old(fm)@) - old(self).depth_spec(),
            (r == Result::<usize, MapError>::Err(MapError::FrameError(FrameError::OutOfMemory))
                ==> count_free(old(fm)@) == 0 && final(fm)@ == old(fm)@),
            (r == Result::<usize, MapError>::Err(MapError::AllocError) ==> count_free(final(fm)@)
                == 0),
            ((old(self).walk0(page.index_spec()) is HugePage && count_free(old(fm)@) > 0) <==> r
                == Result::<usize, MapError>::Err(MapError::HugePage)),
            (r is Err ==> (forall|q: u64| (#[trigger] final(self).walk0(q)) == old(self).walk0(q))),
            (count_free(old(fm)@) >= old(self).depth_spec() && !(old(self).walk0(
                page.index_spec(),
            ) is HugePage) ==> r is Ok),
            (r matches Ok(f) ==> {
                &&& f < old(fm)@.len()
                &&& old(fm)@[f as int] == FrameState::Free
                &&& (forall|j: int| 0 <= j < f ==> old(fm)@[j] != FrameState::Free)
                &&& final(fm)@[f as int] == FrameState::Locked
                &&& final(self).walk0(page.index_spec()) == leaf_result(
                    TableEntry::spec_new(f as u64, attribs.bits),
                )
                &&& (forall|q: u64|
                    q < old(self).space_pages() && q != page.index_spec() ==> (#[trigger] final(self).walk0(q)) == old(self).walk0(q))
            }),
    {
        let frame = match fm.lock_next() {
            Ok(frame) => frame,
            Err(_) => {
                proof {
                    crate::frame::lemma_count_free_zero(old(fm)@);
                }
                return Err(MapError::FrameError(FrameError::OutOfMemory));
            },
        };
        proof {
            crate::frame::lemma_count_free_update(old(fm)@, frame as int, FrameState::Locked);
            crate::frame::lemma_count_free_zero(old(fm)@);
        }
        let ghost fm_mid = fm@;
        let res = self.map(page, frame, FrameOwnership::Untracked, attribs, fm);
        proof {
            assert(resolve_ownership(fm_mid, frame, FrameOwnership::Untracked)
                == Result::<Seq<FrameState>, FrameError>::Ok(fm_mid));
            assert forall|i: int| 0 <= i < old(fm)@.len() implies (fm@[i] == old(fm)@[i] || (old(fm)@[i] == FrameState::Free && fm@[i] == FrameState::Locked)) by {
                assert(fm@[i] == fm_mid[i] || (fm_mid[i] == FrameState::Free && fm@[i]
                    == FrameState::Locked));
            }
        }
        match res {
            Ok(_) => Ok(frame),
            Err(e) => Err(e),
        }
    }

    /// Identity-map the page sharing the index of `frame` to that frame,
    /// without touching the frame's ledger state — the way firmware-owned
    /// regions and the direct-map window's own description are mapped.
    pub fn identity_map(&mut self, frame: usize, attribs: TableEntryFlags, fm: &mut FrameManager) -> (r:
        Result<(), MapError>)
        requires
            old(self).wf_spec(),
            old(self).page_in_space(frame as u64),
            frame < 0x100_0000_0000,
            old(fm)@.len() <= 0x100_0000_0000,
        ensures
            final(self).wf_spec(),
            final(self).same_config(*old(self)),
            final(fm)@.len() == old(fm)@.len(),
            (forall|i: int|
                0 <= i < old(fm)@.len() ==> final(fm)@[i] == old(fm)@[i] || (old(fm)@[i]
                    == FrameState::Free && final(fm)@[i] == FrameState::Locked)),
            count_free(final(fm)@) >= count_free(old(fm)@) - (old(self).depth_spec() - 1),
            ((old(self).walk0(frame as u64) is HugePage) <==> r == Result::<(), MapError>::Err(
                MapError::HugePage,
            )),
            (r == Result::<(), MapError>::Err(MapError::AllocError) ==> count_free(final(fm)@)
                == 0),
            (r is Err ==> (r == Result::<(), MapError>::Err(MapError::HugePage) || r == Result::<
                (),
                MapError,
            >::Err(MapError::AllocError)) && (forall|q: u64|
                (#[trigger] final(self).walk0(q)) == old(self).walk0(q))),
            (!(old(self).walk0(frame as u64) is HugePage) && count_free(old(fm)@) >= old(self).depth_spec() - 1 ==> r is Ok),
            (r is Ok ==> final(self).walk0(frame as u64) == leaf_result(
                TableEntry::spec_new(frame as u64, attribs.bits),
            ) && (forall|q: u64|
                q < old(self).space_pages() && q != frame as u64 ==> (#[trigger] final(self).walk0(q)) == old(self).walk0(q))),
    {
        self.map(Page::from_index(frame as u64), frame, FrameOwnership::Untracked, attribs, fm)
    }

    /// Combine the attributes of the entry mapping `page` with `attributes`
    /// under `modify_mode`, silently clearing the no-execute bit when the
    /// CPU lacks that feature, and silently doing nothing when `page` is
    /// not mapped.  Walks of every other page are untouched.
    pub fn set_page_attributes(
        &mut self,
        page: Page,
        attributes: TableEntryFlags,
        modify_mode: FlagsModify,
    )
        requires
            old(self).wf_spec(),
            old(self).page_in_space(page.index_spec()),
        ensures
            final(self).wf_spec(),
            final(self).same_config(*old(self)),
            (old(self).walk0(page.index_spec()) matches WalkResult::Mapped(e) ==> final(self).walk0(page.index_spec()) == leaf_result(
                e.spec_set_attributes(attributes.bits, modify_mode, old(self).nxe_spec()),
            ) && (forall|q: u64|
                q < old(self).space_pages() && q != page.index_spec() ==> (#[trigger] final(self).walk0(q)) == old(self).walk0(q))),
            (!(old(self).walk0(page.index_spec()) is Mapped) ==> (forall|q: u64|
                (#[trigger] final(self).walk0(q)) == old(self).walk0(q))),
    {
        let entry = match self.cell.with_entry(page, PageDepth::min()) {
            Ok(entry) => entry,
            Err(_) => {
                return ;
            },
        };
        let new_entry = entry.set_attributes(attributes, modify_mode, self.nxe);
        let res = self.cell.with_entry_mut(page, PageDepth::min(), new_entry);
        proof {
            if res is Err {
                assert(false);
            }
            let p = page.index_spec();
            lemma_same_path_injective(p, p, old(self).depth_spec());
            assert forall|q: u64| q < old(self).space_pages() && q != p implies !same_path(
                q,
                p,
                old(self).depth_spec(),
                0,
            ) by {
                lemma_same_path_injective(q, p, old(self).depth_spec());
            }
        }
    }
}


/// A page mapped with exclusively acquired ownership can always be handed
/// back: the entry installed by a successful `map(page, frame, Locked, ..)`
/// names exactly `frame`, that frame meets `unmap`'s release precondition,
/// and releasing it leaves the frame `Free` — so a `map` followed by an
/// `unmap` of the same page with the same ownership ends with the page
/// unmapped and the frame free again.
pub proof fn lemma_map_unmap_roundtrip(s: PageManager, fm: Seq<FrameState>, vpn: u64, frame: u64, attrs: u64)
    requires
        s.walk0(vpn) == leaf_result(crate::paging::TableEntry::spec_new(frame, attrs)),
        attrs & crate::paging::PTE_PRESENT != 0,
        frame < 0x100_0000_0000,
        frame <= usize::MAX,
        frame < fm.len(),
        fm[frame as int] == FrameState::Locked,
    ensures
        s.is_mapped_spec(vpn),
        s.mapped_to_spec(vpn) == Some(frame),
        (s.walk0(vpn) matches WalkResult::Mapped(e) && release_ok(
            fm,
            e.frame_spec(),
            FrameOwnership::Locked,
        )),
        release_ownership(fm, frame as usize, FrameOwnership::Locked)[frame as int]
            == FrameState::Free,
{
    crate::paging::TableEntry::lemma_entry_new_fields(frame, attrs);
}


/// The attributes of a direct-map window entry: present, writable,
/// write-through, global, and never executable.
pub const DIRECT_MAP_ATTRS: u64 = 0x8000_0000_0000_010B;

impl PageManager {
    /// Establish the direct-map window at `page`: map every frame of the
    /// ledger linearly at `page + frame_index`, without touching the
    /// frames' ledger states, and record `page` as the window base.  Until
    /// this is done, table walks can only resolve identity-mapped frames.
    ///
    /// Fails with `HugePage` when a walk of a window page meets a huge
    /// entry, and with `AllocError` exactly when the ledger runs out of
    /// frames for intermediate tables; the window base is then unchanged,
    /// and window pages already written keep their new mapping.
    #[verifier::loop_isolation(false)]
    pub fn modify_mapped_page(&mut self, page: Page, fm: &mut FrameManager) -> (r: Result<
        (),
        MapError,
    >)
        requires
            old(self).wf_spec(),
            page.index_spec() + old(fm)@.len() <= old(self).space_pages(),
            old(fm)@.len() <= 0x100_0000_0000,
        ensures
            final(self).wf_spec(),
            final(self).depth_spec() == old(self).depth_spec(),
            final(self).root_frame_spec() == old(self).root_frame_spec(),
            final(self).nxe_spec() == old(self).nxe_spec(),
            final(fm)@.len() == old(fm)@.len(),
            (forall|i: int|
                0 <= i < old(fm)@.len() ==> final(fm)@[i] == old(fm)@[i] || (old(fm)@[i]
                    == FrameState::Free && final(fm)@[i] == FrameState::Locked)),
            (forall|q: u64|
                q < old(self).space_pages() && !(page.index_spec() <= q && q < page.index_spec()
                    + old(fm)@.len()) ==> (#[trigger] final(self).walk0(q)) == old(self).walk0(q)),
            (r is Ok ==> final(self).mapped_page_spec() == page && (forall|j: int|
                0 <= j < old(fm)@.len() ==> (#[trigger] final(self).walk0(
                    (page.index_spec() + j) as u64,
                )) == leaf_result(
                    crate::paging::TableEntry::spec_new(j as u64, DIRECT_MAP_ATTRS),
                ))),
            (r is Err ==> (r == Result::<(), MapError>::Err(MapError::HugePage) || r == Result::<
                (),
                MapError,
            >::Err(MapError::AllocError)) && final(self).mapped_page_spec() == old(
                self,
            ).mapped_page_spec()),
            (r == Result::<(), MapError>::Err(MapError::AllocError) ==> count_free(final(fm)@)
                == 0),
            (r == Result::<(), MapError>::Err(MapError::HugePage) ==> (exists|j: int|
                0 <= j < old(fm)@.len() && (#[trigger] old(self).walk0(
                    (page.index_spec() + j) as u64,
                )) is HugePage)),
    {
        let total = fm.total_frames();
        let base = page.index();
        let attrs = TableEntryFlags::new(DIRECT_MAP_ATTRS);
        let mut i: usize = 0;
        while i < total
            invariant
                i <= total,
                total == fm@.len(),
                base == page.index_spec(),
                base + total <= self.space_pages(),
                self.wf_spec(),
                self.same_config(*old(self)),
                fm@.len() == old(fm)@.len(),
                fm@.len() <= 0x100_0000_0000,
                (forall|k: int|
                    0 <= k < old(fm)@.len() ==> fm@[k] == old(fm)@[k] || (old(fm)@[k]
                        == FrameState::Free && fm@[k] == FrameState::Locked)),
                (forall|j: int|
                    0 <= j < i ==> (#[trigger] self.walk0((base + j) as u64)) == leaf_result(
                        crate::paging::TableEntry::spec_new(j as u64, DIRECT_MAP_ATTRS),
                    )),
                (forall|q: u64|
                    q < self.space_pages() && !(base <= q && (q as int) < base + i) ==> (
                    #[trigger] self.walk0(q)) == old(self).walk0(q)),
            decreases total - i,
        {
            let window_page = match page.forward_checked(i as u64) {
                Some(window_page) => window_page,
                None => {
                    proof {
                        assert(false);
                    }
                    page
                },
            };
            let ghost before = *self;
            let res = self.map(window_page, i, FrameOwnership::Untracked, attrs, fm);
            match res {
                Ok(_) => {},
                Err(MapError::HugePage) => {
                    proof {
                        assert(before.walk0((base + i as u64) as u64) == old(self).walk0(
                            (base + i as u64) as u64,
                        ));
                        assert(old(self).walk0((page.index_spec() + i as int) as u64)
                            is HugePage);
                    }
                    return Err(MapError::HugePage);
                },
                Err(MapError::AllocError) => {
                    return Err(MapError::AllocError);
                },
                Err(_) => {
                    proof {
                        assert(false);
                    }
                    return Err(MapError::NotMapped);
                },
            }
            proof {
                assert(window_page.index_spec() == base + (i as u64));
                assert(self.walk0(window_page.index_spec()) == leaf_result(
                    crate::paging::TableEntry::spec_new(i as u64, DIRECT_MAP_ATTRS),
                ));
                assert forall|j: int|
                    0 <= j < i + 1 implies (#[trigger] self.walk0((base + j) as u64))
                    == leaf_result(
                    crate::paging::TableEntry::spec_new(j as u64, DIRECT_MAP_ATTRS),
                ) by {
                    if j < i {
                        assert((base + j) as u64 != window_page.index_spec());
                        assert(((base + j) as u64) < before.space_pages());
                        assert(self.walk0((base + j) as u64) == before.walk0((base + j) as u64));
                    } else {
                        assert((base + j) as u64 == window_page.index_spec());
                    }
                }
                assert forall|q: u64|
                    q < self.space_pages() && !(base <= q && (q as int) < base + (i + 1)) implies (
                #[trigger] self.walk0(q)) == old(self).walk0(q) by {
                    assert(q != window_page.index_spec());
                    assert(self.walk0(q) == before.walk0(q));
                }
            }
            i = i + 1;
        }
        let ghost done = *self;
        self.mapped_page = page;
        proof {
            assert(self.cell_spec() == done.cell_spec());
            assert forall|q: u64| (#[trigger] self.walk0(q)) == done.walk0(q) by {}
            assert forall|j: int|
                0 <= j < old(fm)@.len() implies (#[trigger] self.walk0((base + j) as u64))
                == leaf_result(crate::paging::TableEntry::spec_new(j as u64, DIRECT_MAP_ATTRS)) by {
                assert(done.walk0((base + j) as u64) == leaf_result(
                    crate::paging::TableEntry::spec_new(j as u64, DIRECT_MAP_ATTRS),
                ));
            }
        }
        Ok(())
    }
}

} // verus!
