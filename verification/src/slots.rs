//! The model of an array: a sequence of slots, each null or holding a value.
use vstd::prelude::*;
use crate::bitmap::{count_unset, lemma_count_unset_full};

verus! {

/// Whether slot `i` holds a value under `validity` (no bitmap: every slot does).
pub open spec fn is_valid_at(validity: Option<Seq<bool>>, i: int) -> bool {
    match validity {
        None => true,
        Some(bits) => bits[i],
    }
}

/// The slots of an array made of `values` and an optional validity bitmap.
pub open spec fn slots_of<T>(values: Seq<T>, validity: Option<Seq<bool>>) -> Seq<Option<T>> {
    Seq::new(
        values.len(),
        |i: int|
            if is_valid_at(validity, i) {
                Some(values[i])
            } else {
                None
            },
    )
}

/// Number of null slots.
pub open spec fn null_slots<T>(s: Seq<Option<T>>) -> nat
    decreases s.len(),
{
    if s.len() == 0 {
        0
    } else {
        null_slots(s.drop_last()) + if s.last() is Some {
            0nat
        } else {
            1nat
        }
    }
}

/// Whether some slot holds a value.
pub open spec fn has_value<T>(s: Seq<Option<T>>) -> bool {
    exists|i: int| 0 <= i < s.len() && #[trigger] s[i] is Some
}

/// The null count never exceeds the length, and equals it exactly when no slot holds a value.
pub proof fn lemma_null_slots_full<T>(s: Seq<Option<T>>)
    ensures
        null_slots(s) <= s.len(),
        null_slots(s) == s.len() <==> !has_value(s),
    decreases s.len(),
{
    if s.len() > 0 {
        let init = s.drop_last();
        lemma_null_slots_full(init);
        if null_slots(s) == s.len() {
            assert forall|i: int| 0 <= i < s.len() implies !(#[trigger] s[i] is Some) by {
                if i < s.len() - 1 {
                    assert(init[i] == s[i]);
                }
            }
        }
        if !has_value(s) {
            assert forall|i: int| 0 <= i < init.len() implies !(#[trigger] init[i] is Some) by {
                assert(init[i] == s[i]);
            }
            assert(!(s[s.len() - 1] is Some));
        } else {
            let j = choose|j: int| 0 <= j < s.len() && #[trigger] s[j] is Some;
            if j < s.len() - 1 {
                assert(init[j] == s[j]);
            }
        }
    }
}

/// Slots without a bitmap are never null.
pub proof fn lemma_null_slots_no_bitmap<T>(values: Seq<T>)
    ensures
        null_slots(slots_of(values, None)) == 0,
    decreases values.len(),
{
    if values.len() > 0 {
        lemma_null_slots_no_bitmap(values.drop_last());
        assert(slots_of(values, None).drop_last() == slots_of(values.drop_last(), None));
    }
}

/// With a bitmap, the null slots are the unset bits.
pub proof fn lemma_null_slots_bitmap<T>(values: Seq<T>, bits: Seq<bool>)
    requires
        bits.len() == values.len(),
    ensures
        null_slots(slots_of(values, Some(bits))) == count_unset(bits),
    decreases values.len(),
{
    if values.len() > 0 {
        lemma_null_slots_bitmap(values.drop_last(), bits.drop_last());
        assert(slots_of(values, Some(bits)).drop_last() == slots_of(
            values.drop_last(),
            Some(bits.drop_last()),
        ));
    }
}

/// The null count of slots made of values and an optional bitmap.
pub proof fn lemma_null_slots_of<T>(values: Seq<T>, validity: Option<Seq<bool>>)
    requires
        validity matches Some(bits) ==> bits.len() == values.len(),
    ensures
        null_slots(slots_of(values, validity)) == match validity {
            None => 0,
            Some(bits) => count_unset(bits),
        },
{
    match validity {
        None => lemma_null_slots_no_bitmap(values),
        Some(bits) => {
            lemma_null_slots_bitmap(values, bits);
            lemma_count_unset_full(bits);
        },
    }
}

} // verus!
