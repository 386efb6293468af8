//! Zeroed heap buffers that the allocators carve blocks from.

use vstd::prelude::*;

verus! {

/// `[s1, s1 + l1)` and `[s2, s2 + l2)` share no address.
pub open spec fn ranges_disjoint(s1: nat, l1: nat, s2: nat, l2: nat) -> bool {
    s1 + l1 <= s2 || s2 + l2 <= s1
}

/// A heap buffer owned by an allocator, with the address of its first byte.
///
/// A buffer is only ever made by `HeapBuffer::claim`, which reads its
/// address, and its bytes are never touched afterwards, so the buffer never
/// moves and `start` stays its address for as long as it lives.
pub struct HeapBuffer {
    memory: Vec<u8>,
    start: usize,
}

impl HeapBuffer {
    /// The address of the buffer's first byte.
    pub closed spec fn start(&self) -> nat {
        self.start as nat
    }

    /// The buffer's length in bytes.
    pub closed spec fn len(&self) -> nat {
        self.memory@.len()
    }

    /// Takes ownership of `memory` and reads where it lies.
    ///
    /// Calls `Vec::<u8>::as_mut_ptr`. Where a buffer lies depends on the
    /// allocator, so the address itself is not stated. What is stated is
    /// what the standard library guarantees of any allocation: the pointer
    /// is never null (a dangling but non-null one for an empty buffer), an
    /// allocation never wraps around the end of the address space, and two
    /// allocations that are live at the same time never overlap, so a
    /// nonempty buffer shares no address with any nonempty buffer in `live`
    /// (which this borrow keeps alive during the call).
    #[verifier::external_body]
    #[allow(unused_variables)]
    pub fn claim(memory: Vec<u8>, live: &Vec<HeapBuffer>) -> (b: HeapBuffer)
        ensures
            b.len() == memory@.len(),
            b.start() > 0,
            b.start() + b.len() <= usize::MAX,
            forall|i: int|
                0 <= i < live@.len() && b.len() > 0 && (#[trigger] live@[i]).len() > 0 ==> ranges_disjoint(
                    b.start(),
                    b.len(),
                    live@[i].start(),
                    live@[i].len(),
                ),
    {
        let mut memory = memory;
        let start = memory.as_mut_ptr() as usize;
        HeapBuffer { memory, start }
    }

    /// The address of the buffer's first byte.
    pub fn start_address(&self) -> (a: usize)
        ensures
            a == self.start(),
    {
        self.start
    }
}

} // verus!
