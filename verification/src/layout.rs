//! Size and alignment of a memory request.

use vstd::prelude::*;

verus! {

/// `n` is a power of two.
pub open spec fn is_pow2(n: nat) -> bool
    decreases n,
{
    if n == 0 {
        false
    } else if n == 1 {
        true
    } else {
        n % 2 == 0 && is_pow2(n / 2)
    }
}

/// The size and alignment of a block of memory.
///
/// As for the standard library's layout, the alignment is a power of two and
/// the size, rounded up to a multiple of the alignment, does not exceed
/// `isize::MAX`. For a power-of-two alignment this is the same as
/// `size + align <= isize::MAX + 1`.
#[derive(Clone, Copy, Debug)]
pub struct Layout {
    size: usize,
    align: usize,
}

/// What a valid layout's two numbers satisfy.
pub open spec fn layout_ok(size: nat, align: nat) -> bool {
    is_pow2(align) && size + align <= isize::MAX + 1
}

impl Layout {
    #[verifier::type_invariant]
    closed spec fn inv(self) -> bool {
        layout_ok(self.size as nat, self.align as nat)
    }

    /// The size in bytes.
    pub closed spec fn size_spec(self) -> nat {
        self.size as nat
    }

    /// The alignment in bytes.
    pub closed spec fn align_spec(self) -> nat {
        self.align as nat
    }

    /// Builds a layout; `None` when `align` is not a power of two or the
    /// size rounded up to `align` would exceed `isize::MAX`.
    pub fn from_size_align(size: usize, align: usize) -> (res: Option<Layout>)
        ensures
            res is Some <==> layout_ok(size as nat, align as nat),
            res matches Some(l) ==> l.size_spec() == size && l.align_spec() == align,
    {
        if !is_power_of_two(align) {
            return None;
        }
        proof {
            lemma_pow2_positive(align as nat);
        }
        if size > (isize::MAX as usize) {
            return None;
        }
        if align - 1 > (isize::MAX as usize) - size {
            return None;
        }
        Some(Layout { size, align })
    }

    /// The size in bytes.
    pub fn size(&self) -> (s: usize)
        ensures
            s == self.size_spec(),
    {
        self.size
    }

    /// The alignment in bytes (a power of two).
    pub fn align(&self) -> (a: usize)
        ensures
            a == self.align_spec(),
            is_pow2(a as nat),
            a >= 1,
            self.size_spec() + a <= isize::MAX + 1,
    {
        proof {
            use_type_invariant(self);
            lemma_pow2_positive(self.align as nat);
        }
        self.align
    }
}

/// A power of two is at least one.
pub proof fn lemma_pow2_positive(n: nat)
    requires
        is_pow2(n),
    ensures
        n >= 1,
{
}

/// Tests whether `n` is a power of two.
pub fn is_power_of_two(n: usize) -> (b: bool)
    ensures
        b == is_pow2(n as nat),
{
    if n == 0 {
        return false;
    }
    let mut a: usize = n;
    while a > 1 && a % 2 == 0
        invariant
            a >= 1,
            is_pow2(a as nat) == is_pow2(n as nat),
        decreases a,
    {
        a = a / 2;
    }
    a == 1
}

} // verus!
