//! The element types an array can hold.
use vstd::prelude::*;

verus! {

/// A primitive type that arrays store by value, ordered by its natural order.
///
/// The order is given as an injective map into the integers, so that two
/// values of the same rank are the same value.
pub trait NativeType: Copy + Sized {
    /// The rank of a value in the natural order.
    spec fn rank(self) -> int;

    /// Different values have different ranks.
    proof fn lemma_rank_injective(a: Self, b: Self)
        requires
            a.rank() == b.rank(),
        ensures
            a == b,
    ;

    /// Whether `self` comes strictly before `other`.
    fn is_less(&self, other: &Self) -> (r: bool)
        ensures
            r == (self.rank() < other.rank()),
    ;

    /// How many values of this type a vector of the reduction holds: a
    /// 512-bit register's worth for types of up to 64 bits, eight for wider ones.
    fn lanes() -> (n: usize)
        ensures
            1 <= n <= 64,
            n == (if vstd::layout::size_of::<Self>() <= 8 {
                64nat / vstd::layout::size_of::<Self>()
            } else {
                8nat
            }),
    ;
}

/// The integer type of the offsets of a variable-width array.
pub trait Offset: Copy + Sized {
}

impl Offset for i32 {
}

impl Offset for i64 {
}

impl NativeType for i8 {
    open spec fn rank(self) -> int {
        self as int
    }

    proof fn lemma_rank_injective(a: Self, b: Self) {
    }

    fn is_less(&self, other: &Self) -> (r: bool) {
        *self < *other
    }

    fn lanes() -> (n: usize) {
        proof {
            broadcast use vstd::layout::layout_of_primitives;

            assert(vstd::layout::size_of::<u8>() == 1);
        }
        64
    }
}

impl NativeType for i16 {
    open spec fn rank(self) -> int {
        self as int
    }

    proof fn lemma_rank_injective(a: Self, b: Self) {
    }

    fn is_less(&self, other: &Self) -> (r: bool) {
        *self < *other
    }

    fn lanes() -> (n: usize) {
        proof {
            broadcast use vstd::layout::layout_of_primitives;

            assert(vstd::layout::size_of::<u8>() == 1);
        }
        32
    }
}

impl NativeType for i32 {
    open spec fn rank(self) -> int {
        self as int
    }

    proof fn lemma_rank_injective(a: Self, b: Self) {
    }

    fn is_less(&self, other: &Self) -> (r: bool) {
        *self < *other
    }

    fn lanes() -> (n: usize) {
        proof {
            broadcast use vstd::layout::layout_of_primitives;

            assert(vstd::layout::size_of::<u8>() == 1);
        }
        16
    }
}

impl NativeType for i64 {
    open spec fn rank(self) -> int {
        self as int
    }

    proof fn lemma_rank_injective(a: Self, b: Self) {
    }

    fn is_less(&self, other: &Self) -> (r: bool) {
        *self < *other
    }

    fn lanes() -> (n: usize) {
        proof {
            broadcast use vstd::layout::layout_of_primitives;

            assert(vstd::layout::size_of::<u8>() == 1);
        }
        8
    }
}

impl NativeType for i128 {
    open spec fn rank(self) -> int {
        self as int
    }

    proof fn lemma_rank_injective(a: Self, b: Self) {
    }

    fn is_less(&self, other: &Self) -> (r: bool) {
        *self < *other
    }

    fn lanes() -> (n: usize) {
        proof {
            broadcast use vstd::layout::layout_of_primitives;

            assert(vstd::layout::size_of::<u8>() == 1);
        }
        8
    }
}

impl NativeType for u8 {
    open spec fn rank(self) -> int {
        self as int
    }

    proof fn lemma_rank_injective(a: Self, b: Self) {
    }

    fn is_less(&self, other: &Self) -> (r: bool) {
        *self < *other
    }

    fn lanes() -> (n: usize) {
        proof {
            broadcast use vstd::layout::layout_of_primitives;

            assert(vstd::layout::size_of::<u8>() == 1);
        }
        64
    }
}

impl NativeType for u16 {
    open spec fn rank(self) -> int {
        self as int
    }

    proof fn lemma_rank_injective(a: Self, b: Self) {
    }

    fn is_less(&self, other: &Self) -> (r: bool) {
        *self < *other
    }

    fn lanes() -> (n: usize) {
        proof {
            broadcast use vstd::layout::layout_of_primitives;

            assert(vstd::layout::size_of::<u8>() == 1);
        }
        32
    }
}

impl NativeType for u32 {
    open spec fn rank(self) -> int {
        self as int
    }

    proof fn lemma_rank_injective(a: Self, b: Self) {
    }

    fn is_less(&self, other: &Self) -> (r: bool) {
        *self < *other
    }

    fn lanes() -> (n: usize) {
        proof {
            broadcast use vstd::layout::layout_of_primitives;

            assert(vstd::layout::size_of::<u8>() == 1);
        }
        16
    }
}

impl NativeType for u64 {
    open spec fn rank(self) -> int {
        self as int
    }

    proof fn lemma_rank_injective(a: Self, b: Self) {
    }

    fn is_less(&self, other: &Self) -> (r: bool) {
        *self < *other
    }

    fn lanes() -> (n: usize) {
        proof {
            broadcast use vstd::layout::layout_of_primitives;

            assert(vstd::layout::size_of::<u8>() == 1);
        }
        8
    }
}

impl NativeType for u128 {
    open spec fn rank(self) -> int {
        self as int
    }

    proof fn lemma_rank_injective(a: Self, b: Self) {
    }

    fn is_less(&self, other: &Self) -> (r: bool) {
        *self < *other
    }

    fn lanes() -> (n: usize) {
        proof {
            broadcast use vstd::layout::layout_of_primitives;

            assert(vstd::layout::size_of::<u8>() == 1);
        }
        8
    }
}

} // verus!
