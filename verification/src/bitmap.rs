//! A validity bitmap: one bit per slot, set when the slot holds a value.
use vstd::prelude::*;

verus! {

/// Number of unset bits in `bits`.
pub open spec fn count_unset(bits: Seq<bool>) -> nat
    decreases bits.len(),
{
    if bits.len() == 0 {
        0
    } else {
        count_unset(bits.drop_last()) + if bits.last() {
            0nat
        } else {
            1nat
        }
    }
}

/// There are never more unset bits than bits, and every bit is unset
/// exactly when the count of unset bits is the length.
pub proof fn lemma_count_unset_full(bits: Seq<bool>)
    ensures
        count_unset(bits) <= bits.len(),
        count_unset(bits) == bits.len() <==> (forall|i: int| 0 <= i < bits.len() ==> !bits[i]),
    decreases bits.len(),
{
    if bits.len() > 0 {
        let init = bits.drop_last();
        lemma_count_unset_full(init);
        if count_unset(bits) == bits.len() {
            assert forall|i: int| 0 <= i < bits.len() implies !bits[i] by {
                if i < bits.len() - 1 {
                    assert(init[i] == bits[i]);
                }
            }
        }
        if forall|i: int| 0 <= i < bits.len() ==> !bits[i] {
            assert forall|i: int| 0 <= i < init.len() implies !init[i] by {
                assert(init[i] == bits[i]);
            }
        }
    }
}

/// A sequence of bits, such as the validity of an array's slots.
pub struct Bitmap {
    bits: Vec<bool>,
}

impl View for Bitmap {
    type V = Seq<bool>;

    closed spec fn view(&self) -> Seq<bool> {
        self.bits@
    }
}

impl Bitmap {
    /// A bitmap holding `bits`, in order.
    pub fn new(bits: Vec<bool>) -> (res: Self)
        ensures
            res@ == bits@,
    {
        Bitmap { bits }
    }

    /// A bitmap holding a copy of `bits`, in order.
    pub fn from_bools(bits: &[bool]) -> (res: Self)
        ensures
            res@ == bits@,
    {
        let mut v: Vec<bool> = Vec::new();
        for i in 0..bits.len()
            invariant
                v@ == bits@.subrange(0, i as int),
        {
            v.push(bits[i]);
        }
        assert(bits@.subrange(0, bits@.len() as int) == bits@);
        Bitmap { bits: v }
    }

    /// The number of bits.
    pub fn len(&self) -> (n: usize)
        ensures
            n == self@.len(),
    {
        self.bits.len()
    }

    /// The bit at `i`.
    pub fn get_bit(&self, i: usize) -> (b: bool)
        requires
            i < self@.len(),
        ensures
            b == self@[i as int],
    {
        self.bits[i]
    }

    /// The number of unset bits.
    pub fn unset_bits(&self) -> (n: usize)
        ensures
            n == count_unset(self@),
    {
        let mut n: usize = 0;
        for i in 0..self.bits.len()
            invariant
                n == count_unset(self.bits@.subrange(0, i as int)),
                n <= i,
        {
            proof {
                let pre = self.bits@.subrange(0, i as int);
                let next = self.bits@.subrange(0, i + 1);
                assert(next.drop_last() == pre);
                lemma_count_unset_full(pre);
            }
            if !self.bits[i] {
                n = n + 1;
            }
        }
        assert(self.bits@.subrange(0, self.bits@.len() as int) == self.bits@);
        n
    }
}

} // verus!
