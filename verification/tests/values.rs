use vmem_core::addr::{Address, Page, Physical, Virtual};
use vmem_core::block::BlockPage;
use vmem_core::context::{Context, Registers, State};
use vmem_core::paging::{
    PageDepth, TableEntry, TableEntryFlags, FlagsModify, PTE_HUGE, PTE_PRESENT, PTE_WRITABLE,
};
use vmem_core::pit::{AccessMode, Channel, Command, OperatingMode};

#[test]
fn physical_addresses_expose_their_fields() {
    let a = Address::<Physical>::new(0x1234_5000);
    assert_eq!(a.as_usize(), 0x1234_5000);
    assert_eq!(a.as_u64(), 0x1234_5000);
    assert!(!a.is_null());
    assert!(Address::<Physical>::zero().is_null());
    assert_eq!(a.frame_index(), 0x1_2345);
    assert!(a.is_frame_aligned());
    assert!(!Address::<Physical>::new(0x1234_5008).is_frame_aligned());
    assert!(a.is_aligned_to(0x1000));
    assert!(!Address::<Physical>::new(0x1234_5008).is_aligned_to(16));
}

#[test]
fn physical_address_canonical_form() {
    assert!(Address::<Physical>::is_canonical(0xF_FFFF_FFFF_FFFF));
    assert!(!Address::<Physical>::is_canonical(0x10_0000_0000_0000));
    let t = Address::<Physical>::new_truncate(0xFFF5_0000_0000_1000);
    assert_eq!(t.as_u64(), 0x5_0000_0000_1000);
}

#[test]
fn virtual_addresses_canonicalize_bit_47() {
    let low = Address::<Virtual>::new(0x7FFF_FFFF_F000).unwrap();
    assert_eq!(low.as_u64(), 0x7FFF_FFFF_F000);
    let high = Address::<Virtual>::new(0xFFFF_8000_0000_0000).unwrap();
    assert_eq!(high.as_u64(), 0xFFFF_8000_0000_0000);
    let sign_extended = Address::<Virtual>::new_truncate(0x0000_8000_0000_0000);
    assert_eq!(sign_extended.as_u64(), 0xFFFF_8000_0000_0000);
    assert!(Address::<Virtual>::new(0x0001_0000_0000_0000).is_none());
}

#[test]
fn virtual_address_table_indices() {
    let a = Address::<Virtual>::new_truncate(
        (3u64 << 39) | (5u64 << 30) | (7u64 << 21) | (9u64 << 12) | 0xABC,
    );
    assert_eq!(a.p4_index(), 3);
    assert_eq!(a.p3_index(), 5);
    assert_eq!(a.p2_index(), 7);
    assert_eq!(a.p1_index(), 9);
    assert_eq!(a.page_offset(), 0xABC);
    assert!(!a.is_page_aligned());
    assert_eq!(a.page_index(), ((3u64 << 39) | (5u64 << 30) | (7u64 << 21) | (9u64 << 12)) / 0x1000);
}

#[test]
fn pages_are_index_value_types() {
    let p = Page::from_index(7);
    assert_eq!(p.index(), 7);
    assert_eq!(p.forward_checked(3).unwrap().index(), 10);
    assert!(Page::from_index(u64::MAX).forward_checked(1).is_none());
    let a = Address::<Virtual>::new(0x5000).unwrap();
    assert_eq!(Page::containing_addr(a).index(), 5);
}

#[test]
fn page_depth_arithmetic() {
    assert_eq!(PageDepth::min().get(), 0);
    assert!(PageDepth::min().is_min());
    let d = PageDepth::new(3).unwrap();
    assert_eq!(d.align(), 0x1000u64 << 27);
    assert_eq!(d.next().get(), 2);
    assert_eq!(d.next_checked().unwrap().get(), 2);
    assert!(PageDepth::min().next_checked().is_none());
    assert!(PageDepth::new(6).is_none());
    assert_eq!(PageDepth::min_align(), 0x1000);
    let ia = PageDepth::new(0).unwrap().index_address(2).unwrap();
    assert_eq!(ia.as_u64(), 0x2000);
    assert!(PageDepth::new(0).unwrap().index_address(512).is_none());
}

#[test]
fn table_entries_pack_frame_and_attributes() {
    let e = TableEntry::new(0x1234, TableEntryFlags::new(PTE_PRESENT | PTE_WRITABLE));
    assert_eq!(e.get_frame(), 0x1234);
    assert!(e.is_present());
    assert!(!e.is_huge());
    assert_eq!(e.get_attributes().bits, PTE_PRESENT | PTE_WRITABLE);

    let huge = e.set_attributes(TableEntryFlags::new(PTE_HUGE), FlagsModify::Insert, true);
    assert!(huge.is_huge());
    assert_eq!(huge.get_frame(), 0x1234);

    let cleared = e.clear();
    assert!(!cleared.is_present());
    assert_eq!(cleared.get_frame(), 0);
    assert!(!TableEntry::empty().is_present());
}

#[test]
fn table_entry_flags_operations() {
    let mut f = TableEntryFlags::new(PTE_PRESENT);
    assert!(f.contains(TableEntryFlags::new(PTE_PRESENT)));
    assert!(!f.contains(TableEntryFlags::new(PTE_WRITABLE)));
    f.insert(TableEntryFlags::new(PTE_WRITABLE));
    assert_eq!(f.bits(), PTE_PRESENT | PTE_WRITABLE);
    f.remove(TableEntryFlags::new(PTE_PRESENT));
    assert_eq!(f.bits(), PTE_WRITABLE);
    f.toggle(TableEntryFlags::new(PTE_WRITABLE | PTE_HUGE));
    assert_eq!(f.bits(), PTE_HUGE);
    assert_eq!(TableEntryFlags::from_bits_truncate(u64::MAX).bits() & 0x400, 0);
    assert_eq!(TableEntryFlags::empty().bits(), 0);
}

#[test]
fn block_pages_toggle_between_empty_and_full() {
    let mut bp = BlockPage::empty();
    assert!(bp.is_empty());
    assert!(!bp.is_full());
    bp.set_full();
    assert!(bp.is_full());
    assert_eq!(bp.value(), u64::MAX);
    bp.set_empty();
    assert!(bp.is_empty());
    bp.value_mut(0x55);
    assert_eq!(bp.value(), 0x55);
    assert!(!bp.is_empty());
    assert!(!bp.is_full());
}

#[test]
fn pit_command_packs_its_fields() {
    let c = Command::new(
        OperatingMode::SquareWaveGenerator,
        AccessMode::LowAndHighByte,
        Channel::Channel0,
    );
    assert_eq!(c.as_u8(), 0b0011_0110);

    let mut c2 = c;
    c2.set_channel(Channel::Channel2);
    assert_eq!(c2.as_u8(), 0b1011_0110);
    c2.set_access_mode(AccessMode::LowByte);
    assert_eq!(c2.as_u8(), 0b1001_0110);
    c2.set_operating_mode(OperatingMode::RateGenerator);
    assert_eq!(c2.as_u8(), 0b1001_0100);
}

#[test]
fn pit_divisor_for_a_frequency() {
    assert_eq!(vmem_core::pit::set_timer_freq(1000), 1193);
    assert_eq!(vmem_core::pit::set_timer_freq(1193181), 1);
}

#[test]
fn contexts_hold_state_and_registers() {
    let state = State { ip: 0x1000, sp: 0x2000 };
    let mut regs = Registers::new_zeroed();
    regs.rax = 7;
    let mut ctx = Context::new(state, regs);
    assert_eq!(ctx.state().ip, 0x1000);
    assert_eq!(ctx.regs().rax, 7);
    ctx.state_mut().sp = 0x3000;
    ctx.regs_mut().rbx = 9;
    assert_eq!(ctx.state().sp, 0x3000);
    assert_eq!(ctx.regs().rbx, 9);
    assert_eq!(ctx.regs().rax, 7);
}
