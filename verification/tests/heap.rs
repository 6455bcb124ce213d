use vmem_core::addr::Page;
use vmem_core::block::BlockAllocator;
use vmem_core::frame::{FrameManager, FrameState};
use vmem_core::mapper::PageManager;
use vmem_core::paging::PageDepth;

fn fresh_heap(frames: usize) -> (BlockAllocator, FrameManager) {
    let mut fm = FrameManager::new(frames);
    let pm = PageManager::new(
        &mut fm,
        Page::from_index(0),
        PageDepth::new(4).expect("4 is a valid paging depth"),
        true,
    )
    .unwrap();
    (BlockAllocator::new(pm), fm)
}

#[test]
fn alignment_below_block_size_is_upgraded_to_one_block() {
    let (mut heap, mut fm) = fresh_heap(256);
    let addr = heap.allocate(100, 8, &mut fm).unwrap();
    assert_eq!(addr % 64, 0);
    let addr2 = heap.allocate(100, 128, &mut fm).unwrap();
    assert_eq!(addr2 % 128, 0);
}

#[test]
fn full_page_allocation_then_one_block_triggers_growth() {
    let (mut heap, mut fm) = fresh_heap(256);
    assert_eq!(heap.len(), 0);

    let addr = heap.allocate(4096, 64, &mut fm).unwrap();
    assert_eq!(addr, 0);
    assert_eq!(heap.len(), 1);
    assert_eq!(heap.page_state(0), Some(true));

    let addr2 = heap.allocate(64, 64, &mut fm).unwrap();
    assert_eq!(addr2, 4096);
    assert_eq!(heap.len(), 2);
    assert_eq!(heap.page_state(1), Some(true));
}

#[test]
fn dealloc_returns_every_touched_block_page_to_zero() {
    let (mut heap, mut fm) = fresh_heap(256);
    let addr = heap.allocate(100, 8, &mut fm).unwrap();
    let page = (addr / 4096) as usize;
    assert_eq!(heap.page_state(page), Some(true));
    let free_after_alloc = fm.free_count();

    heap.dealloc(addr, 100, &mut fm);
    assert_eq!(heap.page_state(page), Some(false));
    assert_eq!(fm.free_count(), free_after_alloc + 1);

    let addr2 = heap.allocate(100, 8, &mut fm).unwrap();
    assert_eq!(addr2, addr);
}

#[test]
fn dealloc_keeps_other_blocks_of_the_same_page() {
    let (mut heap, mut fm) = fresh_heap(256);
    let a = heap.allocate(64, 1, &mut fm).unwrap();
    let b = heap.allocate(64, 1, &mut fm).unwrap();
    assert_ne!(a, b);
    let page = (a / 4096) as usize;
    assert_eq!(page, (b / 4096) as usize);

    heap.dealloc(a, 64, &mut fm);
    assert_eq!(heap.page_state(page), Some(true));
    heap.dealloc(b, 64, &mut fm);
    assert_eq!(heap.page_state(page), Some(false));
}

#[test]
fn grow_is_monotone_and_keeps_old_blocks() {
    let (mut heap, mut fm) = fresh_heap(256);
    let addr = heap.allocate(192, 1, &mut fm).unwrap();
    let len1 = heap.len();
    let page = (addr / 4096) as usize;
    assert_eq!(heap.page_state(page), Some(true));

    heap.grow(1, &mut fm).unwrap();
    let len2 = heap.len();
    assert!(len2 > len1);
    assert_eq!(heap.page_state(page), Some(true));

    heap.grow(64 * 512, &mut fm).unwrap();
    assert!(heap.len() > len2);
    assert_eq!(heap.page_state(page), Some(true));

    heap.dealloc(addr, 192, &mut fm);
    assert_eq!(heap.page_state(page), Some(false));
}

#[test]
fn alloc_to_binds_the_run_to_the_given_frames() {
    let (mut heap, mut fm) = fresh_heap(256);
    let addr = heap.alloc_to(30, 3, &mut fm);
    assert_eq!(addr % 4096, 0);
    let base = (addr / 4096) as usize;
    for k in 0..3 {
        assert_eq!(heap.page_state(base + k), Some(true));
    }
    assert_eq!(fm.get_state(30), Ok(FrameState::Free));
}

#[test]
fn identity_map_marks_the_whole_block_page() {
    let (mut heap, mut fm) = fresh_heap(256);
    heap.identity_map(5, true, &mut fm);
    assert_eq!(heap.page_state(5), Some(true));
    assert!(heap.len() > 5);
    assert_eq!(heap.page_state(4), Some(false));
}

#[test]
fn init_identity_maps_exactly_the_reserved_frames() {
    let mut fm = FrameManager::new(128);
    for i in 40..44 {
        fm.force_modify_type(i, FrameState::Reserved).unwrap();
    }
    let pm = PageManager::new(
        &mut fm,
        Page::from_index(0),
        PageDepth::new(4).expect("4 is a valid paging depth"),
        true,
    )
    .unwrap();
    let mut heap = BlockAllocator::new(pm);
    heap.init(&mut fm);

    for i in 40..44 {
        assert_eq!(heap.page_state(i), Some(true));
        assert_eq!(fm.get_state(i), Ok(FrameState::Reserved));
    }
    assert_eq!(heap.page_state(39), Some(false));
    assert_eq!(heap.page_state(44), Some(false));
    assert!(heap.len() >= 128);
}

#[test]
fn heap_exhaustion_is_reported_not_hidden() {
    let mut fm = FrameManager::new(5);
    let pm = PageManager::new(
        &mut fm,
        Page::from_index(0),
        PageDepth::new(4).expect("4 is a valid paging depth"),
        true,
    )
    .unwrap();
    let mut heap = BlockAllocator::new(pm);
    let r = heap.allocate(16 * 4096, 64, &mut fm);
    assert!(r.is_err());
}
