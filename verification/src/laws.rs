//! Properties that hold of the aggregates on every array.
use vstd::prelude::*;
use crate::aggregate::{
    Extreme, bool_max, bool_min, is_extreme_slot, is_extreme_value, is_extreme_str, is_max_slot, is_min_slot,
    ranks_first,
};
use crate::order::{lemma_lex_asymmetric, lemma_lex_total, lemma_utf8_injective, lex_lt, str_lt, utf8_bytes};
use vstd::utf8::encode_utf8;
use vstd::string::StringSliceAdditionalSpecFns;
use crate::slots::has_value;
use crate::types::NativeType;

verus! {

/// At most one value is the minimum (or the maximum) of an array's slots,
/// so `min_primitive` and `max_primitive` have exactly one possible answer.
pub proof fn lemma_extreme_slot_unique<T: NativeType>(
    dir: Extreme,
    slots: Seq<Option<T>>,
    a: T,
    b: T,
)
    requires
        is_extreme_slot(dir, slots, a),
        is_extreme_slot(dir, slots, b),
    ensures
        a == b,
{
    let i = choose|i: int| 0 <= i < slots.len() && slots[i] == Some(a);
    let j = choose|j: int| 0 <= j < slots.len() && slots[j] == Some(b);
    assert(ranks_first(dir, a, b)) by {
        assert(slots[j] matches Some(v) && v == b);
    }
    assert(ranks_first(dir, b, a)) by {
        assert(slots[i] matches Some(v) && v == a);
    }
    T::lemma_rank_injective(a, b);
}

/// At most one value is the minimum (or the maximum) of a sequence of values,
/// so a plain fold and a lane-by-lane reduction of the same values agree.
pub proof fn lemma_extreme_value_unique<T: NativeType>(dir: Extreme, values: Seq<T>, a: T, b: T)
    requires
        is_extreme_value(dir, values, a),
        is_extreme_value(dir, values, b),
    ensures
        a == b,
{
    let i = choose|i: int| 0 <= i < values.len() && values[i] == a;
    let j = choose|j: int| 0 <= j < values.len() && values[j] == b;
    assert(ranks_first(dir, a, values[j]));
    assert(ranks_first(dir, b, values[i]));
    T::lemma_rank_injective(a, b);
}

/// The minimum of an array's slots never comes after its maximum.
pub proof fn lemma_min_le_max<T: NativeType>(slots: Seq<Option<T>>, lo: T, hi: T)
    requires
        is_min_slot(slots, lo),
        is_max_slot(slots, hi),
    ensures
        lo.rank() <= hi.rank(),
{
    let j = choose|j: int| 0 <= j < slots.len() && slots[j] == Some(hi);
    assert(slots[j] matches Some(v) && v == hi);
}

/// An array with a minimum or a maximum has a slot that is not null.
pub proof fn lemma_extreme_implies_value<T: NativeType>(slots: Seq<Option<T>>, m: T)
    requires
        is_extreme_slot(Extreme::Min, slots, m) || is_extreme_slot(Extreme::Max, slots, m),
    ensures
        has_value(slots),
{
    let j = choose|j: int| 0 <= j < slots.len() && slots[j] == Some(m);
    assert(slots[j] is Some);
}

/// A null slot added at the end changes neither the minimum nor the maximum,
/// nor whether the array has one.
pub proof fn lemma_trailing_null_ignored<T: NativeType>(dir: Extreme, slots: Seq<Option<T>>, m: T)
    ensures
        is_extreme_slot(dir, slots.push(None), m) <==> is_extreme_slot(dir, slots, m),
        has_value(slots.push(None)) <==> has_value(slots),
{
    let longer = slots.push(None);
    assert(forall|i: int| 0 <= i < slots.len() ==> longer[i] == slots[i]);
    if is_extreme_slot(dir, longer, m) {
        let j = choose|j: int| 0 <= j < longer.len() && longer[j] == Some(m);
        assert(slots[j] == Some(m));
        assert forall|i: int| 0 <= i < slots.len() implies (#[trigger] slots[i] matches Some(v)
            ==> ranks_first(dir, m, v)) by {
            assert(longer[i] == slots[i]);
        }
    }
    if is_extreme_slot(dir, slots, m) {
        let j = choose|j: int| 0 <= j < slots.len() && slots[j] == Some(m);
        assert(longer[j] == Some(m));
        assert forall|i: int| 0 <= i < longer.len() implies (#[trigger] longer[i] matches Some(v)
            ==> ranks_first(dir, m, v)) by {
            if i < slots.len() {
                assert(longer[i] == slots[i]);
            }
        }
    }
    if has_value(longer) {
        let j = choose|j: int| 0 <= j < longer.len() && #[trigger] longer[j] is Some;
        assert(slots[j] is Some);
    }
    if has_value(slots) {
        let j = choose|j: int| 0 <= j < slots.len() && #[trigger] slots[j] is Some;
        assert(longer[j] is Some);
    }
}

/// At most one string is the minimum (or the maximum) of a string array's slots,
/// so `min_string` and `max_string` have exactly one possible answer.
pub proof fn lemma_extreme_str_unique(
    dir: Extreme,
    slots: Seq<Option<Seq<char>>>,
    a: Seq<char>,
    b: Seq<char>,
)
    requires
        is_extreme_str(dir, slots, a),
        is_extreme_str(dir, slots, b),
    ensures
        a == b,
{
    let i = choose|i: int| 0 <= i < slots.len() && slots[i] == Some(a);
    let j = choose|j: int| 0 <= j < slots.len() && slots[j] == Some(b);
    assert(slots[j] matches Some(v) && v == b);
    assert(slots[i] matches Some(v) && v == a);
    lemma_lex_total(utf8_bytes(a), utf8_bytes(b));
    lemma_utf8_injective(a, b);
}

/// The minimum string of an array never comes after its maximum.
pub proof fn lemma_str_min_le_max(slots: Seq<Option<Seq<char>>>, lo: Seq<char>, hi: Seq<char>)
    requires
        is_extreme_str(Extreme::Min, slots, lo),
        is_extreme_str(Extreme::Max, slots, hi),
    ensures
        !str_lt(hi, lo),
{
    let j = choose|j: int| 0 <= j < slots.len() && slots[j] == Some(hi);
    assert(slots[j] matches Some(v) && v == hi);
    lemma_lex_asymmetric(utf8_bytes(lo), utf8_bytes(hi));
}

/// The boolean minimum is held by a non-null slot and no non-null slot is below it.
pub proof fn lemma_bool_min_is_least(slots: Seq<Option<bool>>)
    ensures
        bool_min(slots) matches Some(m) ==> slots.contains(Some(m)) && forall|i: int|
            0 <= i < slots.len() ==> (#[trigger] slots[i] matches Some(v) ==> (m ==> v)),
{
    if bool_min(slots) == Some(true) {
        let j = choose|j: int| 0 <= j < slots.len() && #[trigger] slots[j] is Some;
        if slots[j] == Some(false) {
            assert(slots.contains(Some(false)));
        }
        assert(slots[j] == Some(true));
        assert forall|i: int| 0 <= i < slots.len() implies (#[trigger] slots[i] matches Some(v)
            ==> v) by {
            if slots[i] == Some(false) {
                assert(slots.contains(Some(false)));
            }
        }
    }
}

/// The boolean maximum is held by a non-null slot and no non-null slot is above it.
pub proof fn lemma_bool_max_is_greatest(slots: Seq<Option<bool>>)
    ensures
        bool_max(slots) matches Some(m) ==> slots.contains(Some(m)) && forall|i: int|
            0 <= i < slots.len() ==> (#[trigger] slots[i] matches Some(v) ==> (v ==> m)),
{
    if bool_max(slots) == Some(false) {
        let j = choose|j: int| 0 <= j < slots.len() && #[trigger] slots[j] is Some;
        if slots[j] == Some(true) {
            assert(slots.contains(Some(true)));
        }
        assert(slots[j] == Some(false));
        assert forall|i: int| 0 <= i < slots.len() implies (#[trigger] slots[i] matches Some(v)
            ==> !v) by {
            if slots[i] == Some(true) {
                assert(slots.contains(Some(true)));
            }
        }
    }
}

/// The boolean minimum and maximum exist together, and the minimum is never
/// `true` while the maximum is `false`.
pub proof fn lemma_bool_min_le_max(slots: Seq<Option<bool>>)
    ensures
        bool_min(slots) is Some <==> bool_max(slots) is Some,
        bool_min(slots) == Some(true) ==> bool_max(slots) == Some(true),
        bool_max(slots) == Some(false) ==> bool_min(slots) == Some(false),
{
    if bool_min(slots) == Some(true) {
        let j = choose|j: int| 0 <= j < slots.len() && #[trigger] slots[j] is Some;
        if slots[j] == Some(false) {
            assert(slots.contains(Some(false)));
        }
        assert(slots[j] == Some(true));
    }
    if bool_max(slots) == Some(false) {
        let j = choose|j: int| 0 <= j < slots.len() && #[trigger] slots[j] is Some;
        if slots[j] == Some(true) {
            assert(slots.contains(Some(true)));
        }
        assert(slots[j] == Some(false));
    }
}

// The rank of every integer element type agrees with the integer's own order.

/// The natural order of `i8` values is the integer order: a value ranks before
/// another exactly when it is the smaller integer.
pub proof fn lemma_i8_rank_order(a: i8, b: i8)
    ensures
        (a < b) <==> (a.rank() < b.rank()),
        (a == b) <==> (a.rank() == b.rank()),
{
}

/// The minimum of a `i8` array is no greater than any non-null value, and the
/// maximum no smaller, as integers.
pub proof fn lemma_i8_extremes(slots: Seq<Option<i8>>, m: i8)
    ensures
        is_min_slot(slots, m) ==> forall|i: int|
            0 <= i < slots.len() ==> (#[trigger] slots[i] matches Some(v) ==> m <= v),
        is_max_slot(slots, m) ==> forall|i: int|
            0 <= i < slots.len() ==> (#[trigger] slots[i] matches Some(v) ==> v <= m),
{
}

/// The natural order of `i16` values is the integer order: a value ranks before
/// another exactly when it is the smaller integer.
pub proof fn lemma_i16_rank_order(a: i16, b: i16)
    ensures
        (a < b) <==> (a.rank() < b.rank()),
        (a == b) <==> (a.rank() == b.rank()),
{
}

/// The minimum of a `i16` array is no greater than any non-null value, and the
/// maximum no smaller, as integers.
pub proof fn lemma_i16_extremes(slots: Seq<Option<i16>>, m: i16)
    ensures
        is_min_slot(slots, m) ==> forall|i: int|
            0 <= i < slots.len() ==> (#[trigger] slots[i] matches Some(v) ==> m <= v),
        is_max_slot(slots, m) ==> forall|i: int|
            0 <= i < slots.len() ==> (#[trigger] slots[i] matches Some(v) ==> v <= m),
{
}

/// The natural order of `i32` values is the integer order: a value ranks before
/// another exactly when it is the smaller integer.
pub proof fn lemma_i32_rank_order(a: i32, b: i32)
    ensures
        (a < b) <==> (a.rank() < b.rank()),
        (a == b) <==> (a.rank() == b.rank()),
{
}

/// The minimum of a `i32` array is no greater than any non-null value, and the
/// maximum no smaller, as integers.
pub proof fn lemma_i32_extremes(slots: Seq<Option<i32>>, m: i32)
    ensures
        is_min_slot(slots, m) ==> forall|i: int|
            0 <= i < slots.len() ==> (#[trigger] slots[i] matches Some(v) ==> m <= v),
        is_max_slot(slots, m) ==> forall|i: int|
            0 <= i < slots.len() ==> (#[trigger] slots[i] matches Some(v) ==> v <= m),
{
}

/// The natural order of `i64` values is the integer order: a value ranks before
/// another exactly when it is the smaller integer.
pub proof fn lemma_i64_rank_order(a: i64, b: i64)
    ensures
        (a < b) <==> (a.rank() < b.rank()),
        (a == b) <==> (a.rank() == b.rank()),
{
}

/// The minimum of a `i64` array is no greater than any non-null value, and the
/// maximum no smaller, as integers.
pub proof fn lemma_i64_extremes(slots: Seq<Option<i64>>, m: i64)
    ensures
        is_min_slot(slots, m) ==> forall|i: int|
            0 <= i < slots.len() ==> (#[trigger] slots[i] matches Some(v) ==> m <= v),
        is_max_slot(slots, m) ==> forall|i: int|
            0 <= i < slots.len() ==> (#[trigger] slots[i] matches Some(v) ==> v <= m),
{
}

/// The natural order of `i128` values is the integer order: a value ranks before
/// another exactly when it is the smaller integer.
pub proof fn lemma_i128_rank_order(a: i128, b: i128)
    ensures
        (a < b) <==> (a.rank() < b.rank()),
        (a == b) <==> (a.rank() == b.rank()),
{
}

/// The minimum of a `i128` array is no greater than any non-null value, and the
/// maximum no smaller, as integers.
pub proof fn lemma_i128_extremes(slots: Seq<Option<i128>>, m: i128)
    ensures
        is_min_slot(slots, m) ==> forall|i: int|
            0 <= i < slots.len() ==> (#[trigger] slots[i] matches Some(v) ==> m <= v),
        is_max_slot(slots, m) ==> forall|i: int|
            0 <= i < slots.len() ==> (#[trigger] slots[i] matches Some(v) ==> v <= m),
{
}

/// The natural order of `u8` values is the integer order: a value ranks before
/// another exactly when it is the smaller integer.
pub proof fn lemma_u8_rank_order(a: u8, b: u8)
    ensures
        (a < b) <==> (a.rank() < b.rank()),
        (a == b) <==> (a.rank() == b.rank()),
{
}

/// The minimum of a `u8` array is no greater than any non-null value, and the
/// maximum no smaller, as integers.
pub proof fn lemma_u8_extremes(slots: Seq<Option<u8>>, m: u8)
    ensures
        is_min_slot(slots, m) ==> forall|i: int|
            0 <= i < slots.len() ==> (#[trigger] slots[i] matches Some(v) ==> m <= v),
        is_max_slot(slots, m) ==> forall|i: int|
            0 <= i < slots.len() ==> (#[trigger] slots[i] matches Some(v) ==> v <= m),
{
}

/// The natural order of `u16` values is the integer order: a value ranks before
/// another exactly when it is the smaller integer.
pub proof fn lemma_u16_rank_order(a: u16, b: u16)
    ensures
        (a < b) <==> (a.rank() < b.rank()),
        (a == b) <==> (a.rank() == b.rank()),
{
}

/// The minimum of a `u16` array is no greater than any non-null value, and the
/// maximum no smaller, as integers.
pub proof fn lemma_u16_extremes(slots: Seq<Option<u16>>, m: u16)
    ensures
        is_min_slot(slots, m) ==> forall|i: int|
            0 <= i < slots.len() ==> (#[trigger] slots[i] matches Some(v) ==> m <= v),
        is_max_slot(slots, m) ==> forall|i: int|
            0 <= i < slots.len() ==> (#[trigger] slots[i] matches Some(v) ==> v <= m),
{
}

/// The natural order of `u32` values is the integer order: a value ranks before
/// another exactly when it is the smaller integer.
pub proof fn lemma_u32_rank_order(a: u32, b: u32)
    ensures
        (a < b) <==> (a.rank() < b.rank()),
        (a == b) <==> (a.rank() == b.rank()),
{
}

/// The minimum of a `u32` array is no greater than any non-null value, and the
/// maximum no smaller, as integers.
pub proof fn lemma_u32_extremes(slots: Seq<Option<u32>>, m: u32)
    ensures
        is_min_slot(slots, m) ==> forall|i: int|
            0 <= i < slots.len() ==> (#[trigger] slots[i] matches Some(v) ==> m <= v),
        is_max_slot(slots, m) ==> forall|i: int|
            0 <= i < slots.len() ==> (#[trigger] slots[i] matches Some(v) ==> v <= m),
{
}

/// The natural order of `u64` values is the integer order: a value ranks before
/// another exactly when it is the smaller integer.
pub proof fn lemma_u64_rank_order(a: u64, b: u64)
    ensures
        (a < b) <==> (a.rank() < b.rank()),
        (a == b) <==> (a.rank() == b.rank()),
{
}

/// The minimum of a `u64` array is no greater than any non-null value, and the
/// maximum no smaller, as integers.
pub proof fn lemma_u64_extremes(slots: Seq<Option<u64>>, m: u64)
    ensures
        is_min_slot(slots, m) ==> forall|i: int|
            0 <= i < slots.len() ==> (#[trigger] slots[i] matches Some(v) ==> m <= v),
        is_max_slot(slots, m) ==> forall|i: int|
            0 <= i < slots.len() ==> (#[trigger] slots[i] matches Some(v) ==> v <= m),
{
}

/// The natural order of `u128` values is the integer order: a value ranks before
/// another exactly when it is the smaller integer.
pub proof fn lemma_u128_rank_order(a: u128, b: u128)
    ensures
        (a < b) <==> (a.rank() < b.rank()),
        (a == b) <==> (a.rank() == b.rank()),
{
}

/// The minimum of a `u128` array is no greater than any non-null value, and the
/// maximum no smaller, as integers.
pub proof fn lemma_u128_extremes(slots: Seq<Option<u128>>, m: u128)
    ensures
        is_min_slot(slots, m) ==> forall|i: int|
            0 <= i < slots.len() ==> (#[trigger] slots[i] matches Some(v) ==> m <= v),
        is_max_slot(slots, m) ==> forall|i: int|
            0 <= i < slots.len() ==> (#[trigger] slots[i] matches Some(v) ==> v <= m),
{
}

/// The order of strings is the order of their UTF-8 encodings, as `str::as_bytes` gives them.
pub proof fn lemma_str_order_is_utf8(a: &str, b: &str)
    ensures
        utf8_bytes(a@) == a.spec_bytes(),
        str_lt(a@, b@) == lex_lt(a.spec_bytes(), b.spec_bytes()),
{
}

/// Byte sequences that agree up to position `k` and differ there are ordered
/// by their bytes at `k`, as unsigned numbers.
pub proof fn lemma_lex_first_difference(a: Seq<u8>, b: Seq<u8>, k: int)
    requires
        0 <= k < a.len(),
        k < b.len(),
        a.subrange(0, k) == b.subrange(0, k),
        a[k] != b[k],
    ensures
        lex_lt(a, b) <==> a[k] < b[k],
    decreases k,
{
    if k > 0 {
        assert(a[0] == a.subrange(0, k)[0]);
        assert(b[0] == b.subrange(0, k)[0]);
        assert(a.drop_first().subrange(0, k - 1) == a.subrange(0, k).drop_first());
        assert(b.drop_first().subrange(0, k - 1) == b.subrange(0, k).drop_first());
        lemma_lex_first_difference(a.drop_first(), b.drop_first(), k - 1);
    }
}

/// A proper prefix comes strictly before the longer sequence.
pub proof fn lemma_lex_proper_prefix(a: Seq<u8>, b: Seq<u8>)
    requires
        a.len() < b.len(),
        a == b.subrange(0, a.len() as int),
    ensures
        lex_lt(a, b),
        !lex_lt(b, a),
    decreases a.len(),
{
    if a.len() > 0 {
        assert(a[0] == b[0]);
        assert(a.drop_first() == b.drop_first().subrange(0, a.len() - 1));
        lemma_lex_proper_prefix(a.drop_first(), b.drop_first());
    }
}

/// Strings whose UTF-8 encodings first differ at byte `k` are ordered by that byte;
/// a string whose encoding is a proper prefix of another's comes first.
pub proof fn lemma_str_order_bytes(a: Seq<char>, b: Seq<char>, k: int)
    ensures
        (0 <= k < encode_utf8(a).len() && k < encode_utf8(b).len() && encode_utf8(a).subrange(0, k)
            == encode_utf8(b).subrange(0, k) && encode_utf8(a)[k] < encode_utf8(b)[k]) ==> str_lt(
            a,
            b,
        ),
        (encode_utf8(a).len() < encode_utf8(b).len() && encode_utf8(a) == encode_utf8(b).subrange(
            0,
            encode_utf8(a).len() as int,
        )) ==> str_lt(a, b),
{
    let x = encode_utf8(a);
    let y = encode_utf8(b);
    if 0 <= k < x.len() && k < y.len() && x.subrange(0, k) == y.subrange(0, k) && x[k] < y[k] {
        lemma_lex_first_difference(x, y, k);
    }
    if x.len() < y.len() && x == y.subrange(0, x.len() as int) {
        lemma_lex_proper_prefix(x, y);
    }
}

/// The minimum string of an array comes after no non-null string, and no non-null
/// string comes after the maximum.
pub proof fn lemma_str_extremes(slots: Seq<Option<Seq<char>>>, m: Seq<char>)
    ensures
        is_extreme_str(Extreme::Min, slots, m) ==> forall|i: int|
            0 <= i < slots.len() ==> (#[trigger] slots[i] matches Some(v) ==> !str_lt(v, m)),
        is_extreme_str(Extreme::Max, slots, m) ==> forall|i: int|
            0 <= i < slots.len() ==> (#[trigger] slots[i] matches Some(v) ==> !str_lt(m, v)),
{
}

/// The boolean minimum exists exactly when some slot is non-null; it is `false`
/// exactly when some non-null slot holds `false`, and `true` exactly when some
/// slot is non-null and every non-null slot holds `true`.
pub proof fn lemma_bool_min_values(slots: Seq<Option<bool>>)
    ensures
        bool_min(slots) is Some <==> exists|i: int| 0 <= i < slots.len() && #[trigger] slots[i] is Some,
        bool_min(slots) == Some(false) <==> exists|i: int|
            0 <= i < slots.len() && #[trigger] slots[i] == Some(false),
        bool_min(slots) == Some(true) <==> (exists|i: int|
            0 <= i < slots.len() && #[trigger] slots[i] is Some) && forall|i: int|
            0 <= i < slots.len() ==> #[trigger] slots[i] != Some(false),
{
    if exists|i: int| 0 <= i < slots.len() && #[trigger] slots[i] == Some(false) {
        let i = choose|i: int| 0 <= i < slots.len() && #[trigger] slots[i] == Some(false);
        assert(slots.contains(Some(false)));
        assert(slots[i] is Some);
    }
    if slots.contains(Some(false)) {
        let i = choose|i: int| 0 <= i < slots.len() && slots[i] == Some(false);
        assert(slots[i] == Some(false));
    }
}

/// The boolean maximum exists exactly when some slot is non-null; it is `true`
/// exactly when some non-null slot holds `true`, and `false` exactly when some
/// slot is non-null and every non-null slot holds `false`.
pub proof fn lemma_bool_max_values(slots: Seq<Option<bool>>)
    ensures
        bool_max(slots) is Some <==> exists|i: int| 0 <= i < slots.len() && #[trigger] slots[i] is Some,
        bool_max(slots) == Some(true) <==> exists|i: int|
            0 <= i < slots.len() && #[trigger] slots[i] == Some(true),
        bool_max(slots) == Some(false) <==> (exists|i: int|
            0 <= i < slots.len() && #[trigger] slots[i] is Some) && forall|i: int|
            0 <= i < slots.len() ==> #[trigger] slots[i] != Some(true),
{
    if exists|i: int| 0 <= i < slots.len() && #[trigger] slots[i] == Some(true) {
        let i = choose|i: int| 0 <= i < slots.len() && #[trigger] slots[i] == Some(true);
        assert(slots.contains(Some(true)));
        assert(slots[i] is Some);
    }
    if slots.contains(Some(true)) {
        let i = choose|i: int| 0 <= i < slots.len() && slots[i] == Some(true);
        assert(slots[i] == Some(true));
    }
}

} // verus!
