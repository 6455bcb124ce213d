//! The frame ledger: the single source of truth for the ownership state of
//! every physical memory frame.

use vstd::prelude::*;

verus! {

/// The ownership state of one physical frame.
///
/// Transitions are only `Free` ↔ `Locked` and `Free` ↔ `Borrowed(1)` ↔
/// `Borrowed(n ± 1)`; `Reserved` and `MMIO` are set once during hardware
/// discovery and never returned to `Free`.
#[derive(Clone, Copy, PartialEq, Eq, Structural, Debug)]
pub enum FrameState {
    /// The frame is allocatable.
    Free,
    /// The frame has a single exclusive owner.
    Locked,
    /// The frame has `n >= 1` shared references; no single owner may mutate.
    Borrowed(u32),
    /// The frame is firmware- or bootloader-owned and never allocatable.
    Reserved,
    /// The frame is device memory; ownership is untracked.
    MMIO,
}

/// A ledger operation failed: the frame's current state does not match the
/// precondition of the requested transition, or the index is out of range.
#[derive(Clone, Copy, PartialEq, Eq, Structural, Debug)]
pub enum FrameError {
    /// The frame index does not name a frame of this ledger.
    IndexOutOfRange,
    /// `lock` requires the frame to be `Free`.
    AlreadyLocked,
    /// `borrow` requires the frame to be `Free` or already `Borrowed`.
    AlreadyBorrowed,
    /// `free` requires the frame to be `Locked`.
    NotLocked,
    /// `drop` requires the frame to be `Borrowed`.
    NotBorrowed,
    /// `lock_next` found no `Free` frame.
    OutOfMemory,
}

/// How a mapping operation treats the ownership of the frame it touches:
/// not at all, as a shared reference, or as an exclusive acquisition.
#[derive(Clone, Copy, PartialEq, Eq, Structural, Debug)]
pub enum FrameOwnership {
    /// The caller already owns the frame, or no tracking is wanted.
    Untracked,
    /// The mapping holds one shared reference on the frame.
    Borrowed,
    /// The mapping exclusively owns the frame.
    Locked,
}

/// The number of `Free` entries of `s`.
pub open spec fn count_free(s: Seq<FrameState>) -> nat
    decreases s.len(),
{
    if s.len() == 0 {
        0
    } else {
        count_free(s.drop_last()) + if s.last() == FrameState::Free {
            1nat
        } else {
            0nat
        }
    }
}

/// Updating one entry changes `count_free` exactly by the change at that entry.
pub proof fn lemma_count_free_update(s: Seq<FrameState>, i: int, v: FrameState)
    requires
        0 <= i < s.len(),
    ensures
        count_free(s.update(i, v)) == count_free(s) + (if v == FrameState::Free {
            1int
        } else {
            0int
        }) - (if s[i] == FrameState::Free {
            1int
        } else {
            0int
        }),
    decreases s.len(),
{
    let t = s.update(i, v);
    if i == s.len() - 1 {
        assert(t.drop_last() =~= s.drop_last());
    } else {
        assert(t.drop_last() =~= s.drop_last().update(i, v));
        lemma_count_free_update(s.drop_last(), i, v);
    }
}

/// `count_free` is zero exactly when no entry is `Free`.
pub proof fn lemma_count_free_zero(s: Seq<FrameState>)
    ensures
        (count_free(s) == 0) == (forall|i: int| 0 <= i < s.len() ==> s[i] != FrameState::Free),
    decreases s.len(),
{
    if s.len() > 0 {
        lemma_count_free_zero(s.drop_last());
        assert(forall|i: int| 0 <= i < s.len() - 1 ==> s[i] == s.drop_last()[i]);
    }
}

/// The frame ledger: one [`FrameState`] per physical frame, indexed by frame
/// index.  A process-wide singleton in the running kernel, constructed once
/// from the firmware memory map and injected into every consumer.
pub struct FrameManager {
    states: Vec<FrameState>,
}

impl View for FrameManager {
    type V = Seq<FrameState>;

    closed spec fn view(&self) -> Seq<FrameState> {
        self.states@
    }
}

impl FrameManager {
    /// A ledger of `total_frames` frames, all initially `Free`.  Reserved and
    /// MMIO regions of the firmware memory map are marked afterwards through
    /// [`FrameManager::force_modify_type`].
    pub fn new(total_frames: usize) -> (r: Self)
        ensures
            r@.len() == total_frames,
            forall|i: int| 0 <= i < total_frames ==> r@[i] == FrameState::Free,
    {
        let mut states: Vec<FrameState> = Vec::new();
        let mut n: usize = 0;
        while n < total_frames
            invariant
                n <= total_frames,
                states@.len() == n,
                forall|i: int| 0 <= i < n ==> states@[i] == FrameState::Free,
            decreases total_frames - n,
        {
            states.push(FrameState::Free);
            n = n + 1;
        }
        FrameManager { states }
    }

    /// The number of frames the ledger tracks.
    pub fn total_frames(&self) -> (r: usize)
        ensures
            r == self@.len(),
    {
        self.states.len()
    }

    /// The current state of frame `index`.
    pub fn get_state(&self, index: usize) -> (r: Result<FrameState, FrameError>)
        ensures
            index < self@.len() ==> r == Result::<FrameState, FrameError>::Ok(self@[index as int]),
            index >= self@.len() ==> r == Result::<FrameState, FrameError>::Err(
                FrameError::IndexOutOfRange,
            ),
    {
        if index < self.states.len() {
            Ok(self.states[index])
        } else {
            Err(FrameError::IndexOutOfRange)
        }
    }

    /// The number of `Free` frames.
    pub fn free_count(&self) -> (r: usize)
        ensures
            r == count_free(self@),
    {
        let mut n: usize = 0;
        let mut count: usize = 0;
        while n < self.states.len()
            invariant
                n <= self.states.len(),
                self@.len() == self.states.len(),
                count == count_free(self@.take(n as int)),
                count <= n,
            decreases self.states.len() - n,
        {
            proof {
                assert(self@.take(n + 1 as int).drop_last() =~= self@.take(n as int));
            }
            if matches!(self.states[n], FrameState::Free) {
                count = count + 1;
            }
            n = n + 1;
        }
        proof {
            assert(self@.take(self@.len() as int) =~= self@);
        }
        count
    }

    /// Exclusively acquire frame `index`: `Free` → `Locked`.
    ///
    /// Fails with `AlreadyLocked` exactly when the frame is not `Free`, and
    /// with `IndexOutOfRange` when the index is out of range; the ledger is
    /// unchanged on failure.
    pub fn lock(&mut self, index: usize) -> (r: Result<usize, FrameError>)
        ensures
            final(self)@.len() == old(self)@.len(),
            index >= old(self)@.len() ==> r == Result::<usize, FrameError>::Err(
                FrameError::IndexOutOfRange,
            ) && final(self)@ == old(self)@,
            index < old(self)@.len() && old(self)@[index as int] != FrameState::Free ==> r
                == Result::<usize, FrameError>::Err(FrameError::AlreadyLocked) && final(self)@
                == old(self)@,
            index < old(self)@.len() && old(self)@[index as int] == FrameState::Free ==> r
                == Result::<usize, FrameError>::Ok(index) && final(self)@ == old(self)@.update(
                index as int,
                FrameState::Locked,
            ),
    {
        if index >= self.states.len() {
            return Err(FrameError::IndexOutOfRange);
        }
        if matches!(self.states[index], FrameState::Free) {
            self.states[index] = FrameState::Locked;
            Ok(index)
        } else {
            Err(FrameError::AlreadyLocked)
        }
    }

    /// Add a shared reference on frame `index`: `Free` → `Borrowed(1)`,
    /// `Borrowed(n)` → `Borrowed(n + 1)`.
    ///
    /// Fails with `AlreadyBorrowed` exactly when the frame is neither `Free`
    /// nor `Borrowed`; the ledger is unchanged on failure.
    pub fn borrow(&mut self, index: usize) -> (r: Result<usize, FrameError>)
        requires
            index < old(self)@.len() ==> (old(self)@[index as int] matches FrameState::Borrowed(n)
                ==> n < u32::MAX),
        ensures
            final(self)@.len() == old(self)@.len(),
            index >= old(self)@.len() ==> r == Result::<usize, FrameError>::Err(
                FrameError::IndexOutOfRange,
            ) && final(self)@ == old(self)@,
            index < old(self)@.len() ==> match old(self)@[index as int] {
                FrameState::Free => r == Result::<usize, FrameError>::Ok(index) && final(self)@
                    == old(self)@.update(index as int, FrameState::Borrowed(1)),
                FrameState::Borrowed(n) => r == Result::<usize, FrameError>::Ok(index) && final(self)@ == old(self)@.update(index as int, FrameState::Borrowed((n + 1) as u32)),
                _ => r == Result::<usize, FrameError>::Err(FrameError::AlreadyBorrowed) && final(self)@ == old(self)@,
            },
    {
        if index >= self.states.len() {
            return Err(FrameError::IndexOutOfRange);
        }
        match self.states[index] {
            FrameState::Free => {
                self.states[index] = FrameState::Borrowed(1);
                Ok(index)
            },
            FrameState::Borrowed(n) => {
                self.states[index] = FrameState::Borrowed(n + 1);
                Ok(index)
            },
            _ => Err(FrameError::AlreadyBorrowed),
        }
    }

    /// Release one shared reference on frame `index`: `Borrowed(1)` → `Free`,
    /// `Borrowed(n + 1)` → `Borrowed(n)`.
    ///
    /// Fails with `NotBorrowed` exactly when the frame is not `Borrowed`; the
    /// ledger is unchanged on failure.
    pub fn drop(&mut self, index: usize) -> (r: Result<usize, FrameError>)
        ensures
            final(self)@.len() == old(self)@.len(),
            index >= old(self)@.len() ==> r == Result::<usize, FrameError>::Err(
                FrameError::IndexOutOfRange,
            ) && final(self)@ == old(self)@,
            index < old(self)@.len() ==> match old(self)@[index as int] {
                FrameState::Borrowed(n) => r == Result::<usize, FrameError>::Ok(index) && final(self)@ == old(self)@.update(
                    index as int,
                    if n <= 1 {
                        FrameState::Free
                    } else {
                        FrameState::Borrowed((n - 1) as u32)
                    },
                ),
                _ => r == Result::<usize, FrameError>::Err(FrameError::NotBorrowed) && final(self)@
                    == old(self)@,
            },
    {
        if index >= self.states.len() {
            return Err(FrameError::IndexOutOfRange);
        }
        match self.states[index] {
            FrameState::Borrowed(n) => {
                if n <= 1 {
                    self.states[index] = FrameState::Free;
                } else {
                    self.states[index] = FrameState::Borrowed(n - 1);
                }
                Ok(index)
            },
            _ => Err(FrameError::NotBorrowed),
        }
    }

    /// Release exclusive ownership of frame `index`: `Locked` → `Free`.
    ///
    /// Fails with `NotLocked` exactly when the frame is not `Locked`; the
    /// ledger is unchanged on failure.
    pub fn free(&mut self, index: usize) -> (r: Result<usize, FrameError>)
        ensures
            final(self)@.len() == old(self)@.len(),
            index >= old(self)@.len() ==> r == Result::<usize, FrameError>::Err(
                FrameError::IndexOutOfRange,
            ) && final(self)@ == old(self)@,
            index < old(self)@.len() && old(self)@[index as int] != FrameState::Locked ==> r
                == Result::<usize, FrameError>::Err(FrameError::NotLocked) && final(self)@ == old(self)@,
            index < old(self)@.len() && old(self)@[index as int] == FrameState::Locked ==> r
                == Result::<usize, FrameError>::Ok(index) && final(self)@ == old(self)@.update(
                index as int,
                FrameState::Free,
            ),
    {
        if index >= self.states.len() {
            return Err(FrameError::IndexOutOfRange);
        }
        if matches!(self.states[index], FrameState::Locked) {
            self.states[index] = FrameState::Free;
            Ok(index)
        } else {
            Err(FrameError::NotLocked)
        }
    }

    /// Exclusively acquire the first `Free` frame: a linear scan, and
    /// `Free` → `Locked` on the frame found.
    ///
    /// Fails with `OutOfMemory` exactly when no frame is `Free`; the ledger
    /// is unchanged on failure.
    pub fn lock_next(&mut self) -> (r: Result<usize, FrameError>)
        ensures
            final(self)@.len() == old(self)@.len(),
            r matches Result::<usize, FrameError>::Ok(i) ==> i < old(self)@.len()
                && old(self)@[i as int] == FrameState::Free
                && (forall|j: int| 0 <= j < i ==> old(self)@[j] != FrameState::Free)
                && final(self)@ == old(self)@.update(i as int, FrameState::Locked),
            r is Err ==> r == Result::<usize, FrameError>::Err(FrameError::OutOfMemory) && final(self)@ == old(self)@ && (forall|j: int|
                0 <= j < old(self)@.len() ==> old(self)@[j] != FrameState::Free),
            (exists|j: int| 0 <= j < old(self)@.len() && old(self)@[j] == FrameState::Free) <==> r
                is Ok,
    {
        let mut n: usize = 0;
        while n < self.states.len()
            invariant
                n <= self.states.len(),
                self@.len() == self.states.len(),
                self@ == old(self)@,
                forall|j: int| 0 <= j < n ==> self@[j] != FrameState::Free,
            decreases self.states.len() - n,
        {
            if matches!(self.states[n], FrameState::Free) {
                self.states[n] = FrameState::Locked;
                return Ok(n);
            }
            n = n + 1;
        }
        Err(FrameError::OutOfMemory)
    }

    /// Administrative override used during hardware-region discovery: set the
    /// state of frame `index` to `new_state` regardless of the current state,
    /// returning the previous state.
    ///
    /// This bypasses the normal transition checks; it is the only way a frame
    /// becomes `Reserved` or `MMIO`.
    pub fn force_modify_type(&mut self, index: usize, new_state: FrameState) -> (r: Result<
        FrameState,
        FrameError,
    >)
        ensures
            final(self)@.len() == old(self)@.len(),
            index >= old(self)@.len() ==> r == Result::<FrameState, FrameError>::Err(
                FrameError::IndexOutOfRange,
            ) && final(self)@ == old(self)@,
            index < old(self)@.len() ==> r == Result::<FrameState, FrameError>::Ok(
                old(self)@[index as int],
            ) && final(self)@ == old(self)@.update(index as int, new_state),
    {
        if index >= self.states.len() {
            return Err(FrameError::IndexOutOfRange);
        }
        let prev = self.states[index];
        self.states[index] = new_state;
        Ok(prev)
    }
}

} // verus!
