use vmem_core::frame::{FrameError, FrameManager, FrameState};

#[test]
fn fresh_ledger_is_all_free() {
    let fm = FrameManager::new(8);
    assert_eq!(fm.total_frames(), 8);
    assert_eq!(fm.free_count(), 8);
    for i in 0..8 {
        assert_eq!(fm.get_state(i), Ok(FrameState::Free));
    }
    assert_eq!(fm.get_state(8), Err(FrameError::IndexOutOfRange));
}

#[test]
fn lock_and_free_cycle() {
    let mut fm = FrameManager::new(4);
    assert_eq!(fm.lock(2), Ok(2));
    assert_eq!(fm.get_state(2), Ok(FrameState::Locked));
    assert_eq!(fm.lock(2), Err(FrameError::AlreadyLocked));
    assert_eq!(fm.free(2), Ok(2));
    assert_eq!(fm.get_state(2), Ok(FrameState::Free));
}

#[test]
fn free_fails_unless_locked() {
    let mut fm = FrameManager::new(4);
    assert_eq!(fm.free(1), Err(FrameError::NotLocked));
    assert_eq!(fm.borrow(1), Ok(1));
    assert_eq!(fm.free(1), Err(FrameError::NotLocked));
    assert_eq!(fm.force_modify_type(2, FrameState::Reserved), Ok(FrameState::Free));
    assert_eq!(fm.free(2), Err(FrameError::NotLocked));
    assert_eq!(fm.free(9), Err(FrameError::IndexOutOfRange));
}

#[test]
fn drop_fails_unless_borrowed() {
    let mut fm = FrameManager::new(4);
    assert_eq!(fm.drop(0), Err(FrameError::NotBorrowed));
    assert_eq!(fm.lock(0), Ok(0));
    assert_eq!(fm.drop(0), Err(FrameError::NotBorrowed));
    assert_eq!(fm.drop(9), Err(FrameError::IndexOutOfRange));
}

#[test]
fn borrow_counts_up_and_down() {
    let mut fm = FrameManager::new(4);
    assert_eq!(fm.borrow(3), Ok(3));
    assert_eq!(fm.get_state(3), Ok(FrameState::Borrowed(1)));
    assert_eq!(fm.borrow(3), Ok(3));
    assert_eq!(fm.get_state(3), Ok(FrameState::Borrowed(2)));
    assert_eq!(fm.drop(3), Ok(3));
    assert_eq!(fm.get_state(3), Ok(FrameState::Borrowed(1)));
    assert_eq!(fm.drop(3), Ok(3));
    assert_eq!(fm.get_state(3), Ok(FrameState::Free));
}

#[test]
fn borrow_fails_on_locked_and_reserved() {
    let mut fm = FrameManager::new(4);
    assert_eq!(fm.lock(0), Ok(0));
    assert_eq!(fm.borrow(0), Err(FrameError::AlreadyBorrowed));
    assert_eq!(fm.force_modify_type(1, FrameState::MMIO), Ok(FrameState::Free));
    assert_eq!(fm.borrow(1), Err(FrameError::AlreadyBorrowed));
    assert_eq!(fm.borrow(9), Err(FrameError::IndexOutOfRange));
}

#[test]
fn lock_next_takes_first_free_frame() {
    let mut fm = FrameManager::new(4);
    assert_eq!(fm.lock(0), Ok(0));
    assert_eq!(fm.force_modify_type(1, FrameState::Reserved), Ok(FrameState::Free));
    assert_eq!(fm.lock_next(), Ok(2));
    assert_eq!(fm.get_state(2), Ok(FrameState::Locked));
    assert_eq!(fm.lock_next(), Ok(3));
    assert_eq!(fm.lock_next(), Err(FrameError::OutOfMemory));
    assert_eq!(fm.free_count(), 0);
}

#[test]
fn force_modify_type_overrides_any_state() {
    let mut fm = FrameManager::new(2);
    assert_eq!(fm.lock(0), Ok(0));
    assert_eq!(fm.force_modify_type(0, FrameState::MMIO), Ok(FrameState::Locked));
    assert_eq!(fm.get_state(0), Ok(FrameState::MMIO));
    assert_eq!(fm.force_modify_type(5, FrameState::MMIO), Err(FrameError::IndexOutOfRange));
}
