//! Saved processor context of a task: register file and control state.

use vstd::prelude::*;

verus! {

/// The general-purpose register file saved on a context switch, with the
/// flags and segment registers.
#[derive(Clone, Copy, PartialEq, Eq, Structural, Debug)]
pub struct Registers {
    /// Accumulator register.
    pub rax: u64,
    /// Base register.
    pub rbx: u64,
    /// Counter register.
    pub rcx: u64,
    /// Data register.
    pub rdx: u64,
    /// Source index register.
    pub rsi: u64,
    /// Destination index register.
    pub rdi: u64,
    /// Base pointer register.
    pub rbp: u64,
    /// General register 8.
    pub r8: u64,
    /// General register 9.
    pub r9: u64,
    /// General register 10.
    pub r10: u64,
    /// General register 11.
    pub r11: u64,
    /// General register 12.
    pub r12: u64,
    /// General register 13.
    pub r13: u64,
    /// General register 14.
    pub r14: u64,
    /// General register 15.
    pub r15: u64,
    /// Flags register.
    pub rfl: u64,
    /// Code segment selector.
    pub cs: u64,
    /// Stack segment selector.
    pub ss: u64,
}

impl Registers {
    /// A zeroed register file.
    pub fn new_zeroed() -> (r: Self)
        ensures
            r.rax == 0 && r.rbx == 0 && r.rcx == 0 && r.rdx == 0 && r.rsi == 0 && r.rdi == 0
                && r.rbp == 0 && r.r8 == 0 && r.r9 == 0 && r.r10 == 0 && r.r11 == 0 && r.r12 == 0
                && r.r13 == 0 && r.r14 == 0 && r.r15 == 0 && r.rfl == 0 && r.cs == 0 && r.ss == 0,
    {
        Registers {
            rax: 0,
            rbx: 0,
            rcx: 0,
            rdx: 0,
            rsi: 0,
            rdi: 0,
            rbp: 0,
            r8: 0,
            r9: 0,
            r10: 0,
            r11: 0,
            r12: 0,
            r13: 0,
            r14: 0,
            r15: 0,
            rfl: 0,
            cs: 0,
            ss: 0,
        }
    }
}

/// The control state of a task: instruction and stack pointer.
#[derive(Clone, Copy, PartialEq, Eq, Structural, Debug)]
pub struct State {
    /// Instruction pointer.
    pub ip: u64,
    /// Stack pointer.
    pub sp: u64,
}

/// A full saved context: control state plus register file.
#[derive(Clone, Copy, PartialEq, Eq, Structural, Debug)]
pub struct Context(pub State, pub Registers);

impl Context {
    /// A context of the given control state and registers.
    pub fn new(state: State, regs: Registers) -> (r: Self)
        ensures
            r.0 == state,
            r.1 == regs,
    {
        Context(state, regs)
    }

    /// The control state.
    pub fn state(&self) -> (r: &State)
        ensures
            *r == self.0,
    {
        &self.0
    }

    /// The control state, for modification.
    pub fn state_mut(&mut self) -> (r: &mut State)
        ensures
            *r == old(self).0,
            final(self).0 == *final(r),
            final(self).1 == old(self).1,
    {
        &mut self.0
    }

    /// The register file.
    pub fn regs(&self) -> (r: &Registers)
        ensures
            *r == self.1,
    {
        &self.1
    }

    /// The register file, for modification.
    pub fn regs_mut(&mut self) -> (r: &mut Registers)
        ensures
            *r == old(self).1,
            final(self).1 == *final(r),
            final(self).0 == old(self).0,
    {
        &mut self.1
    }
}

} // verus!
