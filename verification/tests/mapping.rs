use vmem_core::addr::{Address, Page, Virtual};
use vmem_core::frame::{FrameError, FrameManager, FrameOwnership, FrameState};
use vmem_core::mapper::{MapError, PageManager};
use vmem_core::paging::{
    Error, Info, PageDepth, TableEntry, TableEntryFlags, FlagsModify, PTE_HUGE, PTE_NO_EXECUTE,
    PTE_PRESENT, PTE_WRITABLE,
};

fn four_levels() -> PageDepth {
    PageDepth::new(4).expect("4 is a valid paging depth")
}

fn rw() -> TableEntryFlags {
    TableEntryFlags::new(PTE_PRESENT | PTE_WRITABLE)
}

#[test]
fn probed_paging_levels_are_4_or_5() {
    let levels = Info::max_paging_levels();
    assert!(levels == 4 || levels == 5);
    let max = PageDepth::max();
    assert!(max.get() == 4 || max.get() == 5);
}

#[test]
fn paging_level_follows_la57_bit() {
    assert_eq!(Info::current_paging_level(0), 4);
    assert_eq!(Info::current_paging_level(0x1000), 5);
    assert_eq!(PageDepth::current(0).get(), 4);
}

#[test]
fn fresh_space_maps_nothing() {
    let mut fm = FrameManager::new(64);
    let pm = PageManager::new(&mut fm, Page::from_index(0), four_levels(), true).unwrap();
    assert_eq!(pm.get_mapped_to(Page::from_index(7)), None);
    assert!(!pm.is_mapped(Address::<Virtual>::new(7 * 0x1000).unwrap()));
    assert_eq!(fm.get_state(pm.root_frame_index()), Ok(FrameState::Locked));
}

#[test]
fn map_then_query_then_unmap_frees_the_frame() {
    let mut fm = FrameManager::new(64);
    let mut pm = PageManager::new(&mut fm, Page::from_index(0), four_levels(), true).unwrap();
    let page = Page::from_index(42);

    assert_eq!(fm.get_state(9), Ok(FrameState::Free));
    pm.map(page, 9, FrameOwnership::Locked, rw(), &mut fm).unwrap();
    assert_eq!(fm.get_state(9), Ok(FrameState::Locked));
    assert_eq!(pm.get_mapped_to(page), Some(9));
    assert!(pm.is_mapped_to(page, 9));
    assert!(pm.is_mapped(Address::<Virtual>::new(42 * 0x1000).unwrap()));

    pm.unmap(page, FrameOwnership::Locked, &mut fm).unwrap();
    assert_eq!(pm.get_mapped_to(page), None);
    assert!(!pm.is_mapped(Address::<Virtual>::new(42 * 0x1000).unwrap()));
    assert_eq!(fm.get_state(9), Ok(FrameState::Free));
}

#[test]
fn mapping_one_page_leaves_others_alone() {
    let mut fm = FrameManager::new(64);
    let mut pm = PageManager::new(&mut fm, Page::from_index(0), four_levels(), true).unwrap();
    pm.map(Page::from_index(100), 3, FrameOwnership::Untracked, rw(), &mut fm).unwrap();
    pm.map(Page::from_index(101), 4, FrameOwnership::Untracked, rw(), &mut fm).unwrap();
    assert_eq!(pm.get_mapped_to(Page::from_index(100)), Some(3));
    assert_eq!(pm.get_mapped_to(Page::from_index(101)), Some(4));
    assert_eq!(pm.get_mapped_to(Page::from_index(102)), None);

    pm.unmap(Page::from_index(100), FrameOwnership::Untracked, &mut fm).unwrap();
    assert_eq!(pm.get_mapped_to(Page::from_index(100)), None);
    assert_eq!(pm.get_mapped_to(Page::from_index(101)), Some(4));
}

#[test]
fn map_reports_frame_errors() {
    let mut fm = FrameManager::new(64);
    let mut pm = PageManager::new(&mut fm, Page::from_index(0), four_levels(), true).unwrap();
    fm.lock(5).unwrap();
    let r = pm.map(Page::from_index(1), 5, FrameOwnership::Locked, rw(), &mut fm);
    assert_eq!(r, Err(MapError::FrameError(FrameError::AlreadyLocked)));
    assert_eq!(pm.get_mapped_to(Page::from_index(1)), None);
}

#[test]
fn map_reports_exhaustion() {
    let mut fm = FrameManager::new(1);
    let mut pm = PageManager::new(&mut fm, Page::from_index(0), four_levels(), true).unwrap();
    let r = pm.map(Page::from_index(1), 0, FrameOwnership::Untracked, rw(), &mut fm);
    assert_eq!(r, Err(MapError::AllocError));
}

#[test]
fn unmap_of_unmapped_page_is_not_mapped() {
    let mut fm = FrameManager::new(64);
    let mut pm = PageManager::new(&mut fm, Page::from_index(0), four_levels(), true).unwrap();
    assert_eq!(pm.unmap(Page::from_index(9), FrameOwnership::Untracked, &mut fm), Err(MapError::NotMapped));
}

#[test]
fn copy_by_map_relocates_a_mapping() {
    let mut fm = FrameManager::new(64);
    let mut pm = PageManager::new(&mut fm, Page::from_index(0), four_levels(), true).unwrap();
    let from = Page::from_index(10);
    let to = Page::from_index(20);
    pm.map(from, 7, FrameOwnership::Untracked, rw(), &mut fm).unwrap();
    pm.copy_by_map(from, to, None, &mut fm).unwrap();
    assert_eq!(pm.get_mapped_to(from), None);
    assert_eq!(pm.get_mapped_to(to), Some(7));

    let missing = pm.copy_by_map(Page::from_index(30), Page::from_index(31), None, &mut fm);
    assert_eq!(missing, Err(MapError::NotMapped));
}

#[test]
fn copy_by_map_can_override_attributes() {
    let mut fm = FrameManager::new(64);
    let mut pm = PageManager::new(&mut fm, Page::from_index(0), four_levels(), true).unwrap();
    let from = Page::from_index(11);
    let to = Page::from_index(21);
    pm.map(from, 8, FrameOwnership::Untracked, rw(), &mut fm).unwrap();
    pm.copy_by_map(from, to, Some(TableEntryFlags::new(PTE_PRESENT)), &mut fm).unwrap();
    let attrs = pm.get_page_attributes(to).unwrap();
    assert_eq!(attrs.bits, PTE_PRESENT);
}

#[test]
fn attribute_modification_follows_the_mode() {
    let mut fm = FrameManager::new(64);
    let mut pm = PageManager::new(&mut fm, Page::from_index(0), four_levels(), true).unwrap();
    let page = Page::from_index(12);
    pm.map(page, 6, FrameOwnership::Untracked, rw(), &mut fm).unwrap();

    pm.set_page_attributes(page, TableEntryFlags::new(PTE_NO_EXECUTE), FlagsModify::Insert);
    let attrs = pm.get_page_attributes(page).unwrap();
    assert_eq!(attrs.bits, PTE_PRESENT | PTE_WRITABLE | PTE_NO_EXECUTE);

    pm.set_page_attributes(page, TableEntryFlags::new(PTE_WRITABLE), FlagsModify::Remove);
    let attrs = pm.get_page_attributes(page).unwrap();
    assert_eq!(attrs.bits, PTE_PRESENT | PTE_NO_EXECUTE);

    pm.set_page_attributes(page, TableEntryFlags::new(PTE_PRESENT), FlagsModify::Replace);
    let attrs = pm.get_page_attributes(page).unwrap();
    assert_eq!(attrs.bits, PTE_PRESENT);
}

#[test]
fn no_execute_is_stripped_without_nxe() {
    let mut fm = FrameManager::new(64);
    let mut pm = PageManager::new(&mut fm, Page::from_index(0), four_levels(), false).unwrap();
    let page = Page::from_index(13);
    pm.map(page, 6, FrameOwnership::Untracked, rw(), &mut fm).unwrap();
    pm.set_page_attributes(page, TableEntryFlags::new(PTE_NO_EXECUTE), FlagsModify::Insert);
    let attrs = pm.get_page_attributes(page).unwrap();
    assert_eq!(attrs.bits & PTE_NO_EXECUTE, 0);
}

#[test]
fn identity_map_of_reserved_frame_keeps_its_state() {
    let mut fm = FrameManager::new(64);
    let mut pm = PageManager::new(&mut fm, Page::from_index(0), four_levels(), true).unwrap();
    fm.force_modify_type(17, FrameState::Reserved).unwrap();
    pm.identity_map(17, rw(), &mut fm).unwrap();
    assert_eq!(pm.get_mapped_to(Page::from_index(17)), Some(17));
    assert_eq!(fm.get_state(17), Ok(FrameState::Reserved));
}

#[test]
fn borrowed_mapping_drops_back_to_free() {
    let mut fm = FrameManager::new(64);
    let mut pm = PageManager::new(&mut fm, Page::from_index(0), four_levels(), true).unwrap();
    let page = Page::from_index(33);
    pm.map(page, 2, FrameOwnership::Borrowed, rw(), &mut fm).unwrap();
    assert_eq!(fm.get_state(2), Ok(FrameState::Borrowed(1)));
    pm.unmap(page, FrameOwnership::Borrowed, &mut fm).unwrap();
    assert_eq!(fm.get_state(2), Ok(FrameState::Free));
}

#[test]
fn walking_a_fresh_space_is_not_mapped_and_create_yields_a_zeroed_entry() {
    let mut fm = FrameManager::new(64);
    let mut cell = vmem_core::paging::TableEntryCell::new_root(four_levels());
    let page = Page::from_index(123);
    assert_eq!(cell.depth().get(), 4);

    match cell.with_entry(page, PageDepth::min()) {
        Err(Error::NotMapped(p)) => assert_eq!(p.index(), 123),
        _ => panic!("walking an empty space must report the page unmapped"),
    }

    let entry = cell.with_entry_create(page, PageDepth::min(), TableEntry::empty(), &mut fm).unwrap();
    assert!(!entry.is_present());
    assert!(!entry.is_huge());
    assert_eq!(entry.get_frame(), 0);
}

#[test]
fn huge_entry_short_circuits_the_walk() {
    let mut fm = FrameManager::new(64);
    let mut cell = vmem_core::paging::TableEntryCell::new_root(four_levels());
    let page = Page::from_index(512 * 3);
    let huge = TableEntry::new(40, TableEntryFlags::new(PTE_PRESENT | PTE_HUGE));
    cell.with_entry_create(page, PageDepth::new(1).unwrap(), huge, &mut fm).unwrap();

    match cell.with_entry(page, PageDepth::min()) {
        Err(Error::HugePage) => {},
        _ => panic!("a huge entry above the requested depth must end the walk"),
    }
    let read_back = cell.with_entry(page, PageDepth::new(1).unwrap()).unwrap();
    assert!(read_back.is_huge());
    assert_eq!(read_back.get_frame(), 40);
}

#[test]
fn mapper_window_bookkeeping() {
    let mut fm = FrameManager::new(64);
    let pm = PageManager::new(&mut fm, Page::from_index(0x1000), four_levels(), true).unwrap();
    assert_eq!(pm.mapped_page().index(), 0x1000);
    assert_eq!(pm.pml4_page().index(), 0x1000 + pm.root_frame_index() as u64);
    let cr3 = (pm.root_frame_index() as u64) * 0x1000;
    assert!(pm.is_active(cr3));
    assert!(!pm.is_active(cr3 + 0x1000));
    assert_eq!(pm.depth(), 4);
}

#[test]
fn direct_map_window_covers_every_frame() {
    let mut fm = FrameManager::new(32);
    let mut pm = PageManager::new(&mut fm, Page::from_index(0), four_levels(), true).unwrap();
    pm.map(Page::from_index(5), 1, FrameOwnership::Untracked, rw(), &mut fm).unwrap();

    pm.modify_mapped_page(Page::from_index(0x10000), &mut fm).unwrap();
    assert_eq!(pm.mapped_page().index(), 0x10000);
    for i in 0..32u64 {
        assert_eq!(pm.get_mapped_to(Page::from_index(0x10000 + i)), Some(i));
    }
    assert_eq!(pm.get_mapped_to(Page::from_index(5)), Some(1));
}

#[test]
fn walker_reports_ledger_exhaustion() {
    let mut fm = FrameManager::new(0);
    let mut cell = vmem_core::paging::TableEntryCell::new_root(four_levels());
    let r = cell.with_entry_create(Page::from_index(1), PageDepth::min(), TableEntry::empty(), &mut fm);
    assert!(matches!(r, Err(Error::AllocError)));
}
