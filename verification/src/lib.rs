//! A verified CHIP-8 interpreter core: instruction decoding, opcode
//! semantics, sprite drawing with collision and clipping, the call-stack
//! discipline, and timer policy. Terminal rendering and input polling live
//! outside the library; the core works one cycle at a time under a
//! caller-owned loop.
use vstd::prelude::*;

pub mod callstack;
pub mod chip8;
pub mod decode;
pub mod keymap;
pub mod laws;
pub mod ram;

verus! {

/// A component that can be put back into its power-on state.
pub trait Restart: Sized {
    /// What `restart` asks of the state it is given.
    spec fn restart_req(pre: Self) -> bool;

    /// How the state after `restart` relates to the state before.
    spec fn restarted(pre: Self, post: Self) -> bool;

    fn restart(&mut self)
        requires
            Self::restart_req(*old(self)),
        ensures
            Self::restarted(*old(self), *final(self)),
    ;
}

} // verus!
