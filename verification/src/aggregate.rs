//! Minimum and maximum of the non-null slots of an array.
use vstd::prelude::*;
use crate::array::{BooleanArray, PrimitiveArray, Utf8Array};
use crate::order::{str_lt, str_less, lemma_lex_irreflexive, lemma_lex_transitive, utf8_bytes};
use crate::slots::{has_value, lemma_null_slots_full, slots_of};
use crate::types::{NativeType, Offset};

verus! {

/// Which end of the order an aggregate looks for.
#[derive(Clone, Copy, PartialEq, Eq, Structural)]
pub enum Extreme {
    Min,
    Max,
}

/// Whether `a` is at least as far towards `dir` as `b`.
pub open spec fn ranks_first<T: NativeType>(dir: Extreme, a: T, b: T) -> bool {
    match dir {
        Extreme::Min => a.rank() <= b.rank(),
        Extreme::Max => a.rank() >= b.rank(),
    }
}

/// Whether `m` is one of `values` and at least as far towards `dir` as each of them.
pub open spec fn is_extreme_value<T: NativeType>(dir: Extreme, values: Seq<T>, m: T) -> bool {
    &&& values.contains(m)
    &&& forall|i: int| 0 <= i < values.len() ==> ranks_first(dir, m, #[trigger] values[i])
}

/// Whether `m` is held by some slot and is at least as far towards `dir`
/// as the value of every non-null slot.
pub open spec fn is_extreme_slot<T: NativeType>(dir: Extreme, slots: Seq<Option<T>>, m: T) -> bool {
    &&& slots.contains(Some(m))
    &&& forall|i: int|
        0 <= i < slots.len() ==> (#[trigger] slots[i] matches Some(v) ==> ranks_first(dir, m, v))
}

/// Whether `m` is the smallest value held by a non-null slot.
pub open spec fn is_min_slot<T: NativeType>(slots: Seq<Option<T>>, m: T) -> bool {
    is_extreme_slot(Extreme::Min, slots, m)
}

/// Whether `m` is the largest value held by a non-null slot.
pub open spec fn is_max_slot<T: NativeType>(slots: Seq<Option<T>>, m: T) -> bool {
    is_extreme_slot(Extreme::Max, slots, m)
}

/// Whether `a` is at least as far towards `dir` as `b`.
fn ranks_first_exec<T: NativeType>(dir: Extreme, a: &T, b: &T) -> (r: bool)
    ensures
        r == ranks_first(dir, *a, *b),
{
    match dir {
        Extreme::Min => !b.is_less(a),
        Extreme::Max => !a.is_less(b),
    }
}

/// Folds `values` into `initial`, keeping the value furthest towards `dir`;
/// a later value replaces the kept one only when it is strictly further.
fn reduce_slice<T: NativeType>(initial: T, values: &[T], dir: Extreme) -> (r: T)
    ensures
        is_extreme_value(dir, seq![initial] + values@, r),
{
    let mut acc = initial;
    for i in 0..values.len()
        invariant
            acc == initial || exists|j: int| 0 <= j < i && values@[j] == acc,
            ranks_first(dir, acc, initial),
            forall|j: int| 0 <= j < i ==> ranks_first(dir, acc, #[trigger] values@[j]),
    {
        let item = values[i];
        if !ranks_first_exec(dir, &acc, &item) {
            acc = item;
        }
    }
    let ghost all = seq![initial] + values@;
    assert(forall|i: int| 0 <= i < values@.len() ==> all[i + 1] == values@[i]);
    assert forall|i: int| 0 <= i < all.len() implies ranks_first(dir, acc, #[trigger] all[i]) by {
        if i > 0 {
            assert(all[i] == values@[i - 1]);
        }
    }
    proof {
        if acc == initial {
            assert(all[0] == acc);
        } else {
            let j = choose|j: int| 0 <= j < values@.len() && values@[j] == acc;
            assert(all[j + 1] == acc);
        }
    }
    acc
}

/// The value at lane `l` of chunk `k` when `values` is cut into chunks of `lanes` values.
pub open spec fn lane_value<T>(values: Seq<T>, lanes: int, k: int, l: int) -> T {
    values[k * lanes + l]
}

proof fn lemma_lane_bound(k: int, l: int, lanes: int, chunks: int)
    by (nonlinear_arith)
    requires
        0 <= k < chunks,
        0 <= l < lanes,
    ensures
        0 <= k * lanes + l < chunks * lanes,
        k * lanes + lanes <= chunks * lanes,
{
}

proof fn lemma_lane_split(j: int, lanes: int, chunks: int)
    requires
        0 <= j < chunks * lanes,
        lanes >= 1,
    ensures
        0 <= j / lanes < chunks,
        0 <= j % lanes < lanes,
        (j / lanes) * lanes + j % lanes == j,
{
    vstd::arithmetic::div_mod::lemma_fundamental_div_mod(j, lanes);
    vstd::arithmetic::mul::lemma_mul_is_commutative(lanes, j / lanes);
    vstd::arithmetic::div_mod::lemma_div_pos_is_pos(j, lanes);
    vstd::arithmetic::div_mod::lemma_mod_pos_bound(j, lanes);
    if j / lanes >= chunks {
        vstd::arithmetic::mul::lemma_mul_inequality(chunks, j / lanes, lanes);
    }
}

proof fn lemma_chunk_count(len: int, lanes: int)
    requires
        lanes >= 1,
        len >= lanes,
    ensures
        len / lanes >= 1,
        (len / lanes) * lanes <= len,
{
    vstd::arithmetic::div_mod::lemma_fundamental_div_mod(len, lanes);
    vstd::arithmetic::mul::lemma_mul_is_commutative(lanes, len / lanes);
    vstd::arithmetic::div_mod::lemma_mod_pos_bound(len, lanes);
    vstd::arithmetic::div_mod::lemma_div_is_ordered(lanes, len, lanes);
    vstd::arithmetic::div_mod::lemma_div_by_self(lanes);
}

/// The value furthest towards `dir` among `values`, none of which is null.
/// Slices of at least one register's worth of values are reduced lane by lane
/// over whole chunks first, then across lanes, then over the remainder.
fn nonnull_min_max_primitive<T: NativeType>(values: &[T], dir: Extreme) -> (r: T)
    requires
        values@.len() > 0,
    ensures
        is_extreme_value(dir, values@, r),
{
    let lanes = T::lanes();
    let len = values.len();
    if len < lanes {
        let rest = &values[1..len];
        let r = reduce_slice(values[0], rest, dir);
        assert(seq![values@[0]] + rest@ == values@);
        return r;
    }
    proof {
        lemma_chunk_count(len as int, lanes as int);
    }
    let chunks = len / lanes;
    let ghost vs = values@;
    let ghost ln = lanes as int;

    // The first chunk seeds one accumulator per lane.
    let mut acc: Vec<T> = Vec::new();
    for l in 0..lanes
        invariant
            lanes <= len,
            len == vs.len(),
            vs == values@,
            ln == lanes,
            acc@.len() == l,
            forall|l2: int| 0 <= l2 < l ==> #[trigger] acc@[l2] == lane_value(vs, ln, 0, l2),
    {
        acc.push(values[l]);
    }

    // `src[l]` is the chunk whose value the accumulator of lane `l` holds.
    let ghost mut src: Seq<int> = Seq::new(lanes as nat, |l: int| 0);
    let mut c: usize = 1;
    while c < chunks
        invariant
            1 <= c <= chunks,
            chunks == len / lanes,
            chunks * lanes <= len,
            len == vs.len(),
            vs == values@,
            ln == lanes,
            lanes >= 1,
            acc@.len() == lanes,
            src.len() == lanes,
            forall|l: int|
                0 <= l < lanes ==> 0 <= #[trigger] src[l] < c && acc@[l] == lane_value(
                    vs,
                    ln,
                    src[l],
                    l,
                ),
            forall|l: int, k: int|
                0 <= l < lanes && 0 <= k < c ==> ranks_first(
                    dir,
                    #[trigger] acc@[l],
                    #[trigger] lane_value(vs, ln, k, l),
                ),
        decreases chunks - c,
    {
        proof {
            lemma_lane_bound(c as int, 0, ln, chunks as int);
        }
        let base = c * lanes;
        for l in 0..lanes
            invariant
                1 <= c < chunks,
                chunks * lanes <= len,
                base == c * lanes,
                base + lanes <= len,
                len == vs.len(),
                vs == values@,
                ln == lanes,
                acc@.len() == lanes,
                src.len() == lanes,
                forall|l2: int|
                    0 <= l2 < lanes ==> 0 <= #[trigger] src[l2] < (if l2 < l {
                        c + 1
                    } else {
                        c as int
                    }) && acc@[l2] == lane_value(vs, ln, src[l2], l2),
                forall|l2: int, k: int|
                    0 <= l2 < lanes && 0 <= k < (if l2 < l {
                        c + 1
                    } else {
                        c as int
                    }) ==> ranks_first(
                        dir,
                        #[trigger] acc@[l2],
                        #[trigger] lane_value(vs, ln, k, l2),
                    ),
        {
            let item = values[base + l];
            assert(item == lane_value(vs, ln, c as int, l as int));
            if !ranks_first_exec(dir, &acc[l], &item) {
                acc.set(l, item);
                proof {
                    src = src.update(l as int, c as int);
                }
            }
        }
        c = c + 1;
    }

    // Reduce across lanes.
    let mut reduced = acc[0];
    let ghost mut at: int = 0;
    for l in 1..lanes
        invariant
            acc@.len() == lanes,
            0 <= at < l,
            acc@[at] == reduced,
            forall|l2: int| 0 <= l2 < l ==> ranks_first(dir, reduced, #[trigger] acc@[l2]),
    {
        if !ranks_first_exec(dir, &reduced, &acc[l]) {
            reduced = acc[l];
            proof {
                at = l as int;
            }
        }
    }

    // Then the values that do not fill a whole chunk.
    proof {
        lemma_lane_bound(chunks - 1, 0, ln, chunks as int);
    }
    let full = chunks * lanes;
    let rest = &values[full..len];
    let r = reduce_slice(reduced, rest, dir);

    proof {
        let all = seq![reduced] + rest@;
        assert(all[0] == reduced);
        assert forall|j: int| 0 <= j < vs.len() implies ranks_first(dir, r, #[trigger] vs[j]) by {
            if j < full {
                lemma_lane_split(j, ln, chunks as int);
                let k = j / ln;
                let l = j % ln;
                assert(lane_value(vs, ln, k, l) == vs[j]);
                assert(ranks_first(dir, acc@[l], lane_value(vs, ln, k, l)));
                assert(ranks_first(dir, reduced, acc@[l]));
            } else {
                assert(all[j - full + 1] == rest@[j - full]);
                assert(rest@[j - full] == vs[j]);
            }
        }
        let t = choose|t: int| 0 <= t < all.len() && all[t] == r;
        if t == 0 {
            let k = src[at];
            lemma_lane_bound(k, at, ln, chunks as int);
            assert(vs[k * ln + at] == r);
        } else {
            assert(all[t] == rest@[t - 1]);
            assert(vs[full + t - 1] == r);
        }
    }
    r
}

/// In an array without nulls, the value furthest towards `dir` over its slots
/// is the one furthest towards `dir` over its values.
pub proof fn lemma_no_nulls_extreme<T: NativeType>(dir: Extreme, values: Seq<T>, m: T)
    ensures
        is_extreme_slot(dir, slots_of(values, None), m) <==> is_extreme_value(dir, values, m),
{
    let slots = slots_of(values, None);
    assert forall|i: int| 0 <= i < values.len() implies #[trigger] slots[i] == Some(values[i]) by {
    }
    if is_extreme_value(dir, values, m) {
        let j = choose|j: int| 0 <= j < values.len() && values[j] == m;
        assert(slots[j] == Some(m));
    }
    if is_extreme_slot(dir, slots, m) {
        let j = choose|j: int| 0 <= j < slots.len() && slots[j] == Some(m);
        assert(values[j] == m);
        assert forall|i: int| 0 <= i < values.len() implies ranks_first(dir, m, #[trigger] values[i]) by {
            assert(slots[i] == Some(values[i]));
        }
    }
}

/// The value furthest towards `dir` among the non-null slots of `array`,
/// or `None` when every slot is null (an empty array included).
fn min_max_helper<T: NativeType>(array: &PrimitiveArray<T>, dir: Extreme) -> (r: Option<T>)
    ensures
        r is None <==> !has_value(array@),
        r matches Some(m) ==> is_extreme_slot(dir, array@, m),
{
    let null_count = array.null_count();
    let len = array.len();
    proof {
        lemma_null_slots_full(array@);
    }
    if null_count == len {
        return None;
    }
    let values = array.values();
    match array.validity() {
        Some(validity) => {
            let ghost bits = validity@;
            let ghost slots = array@;
            assert(slots == slots_of(values@, Some(bits)));
            let mut n = values[0];
            let mut has_value = false;
            let ghost mut at: int = 0;
            for i in 0..values.len()
                invariant
                    bits == validity@,
                    bits.len() == values@.len(),
                    slots == slots_of(values@, Some(bits)),
                    has_value <==> exists|j: int| 0 <= j < i && #[trigger] bits[j],
                    has_value ==> 0 <= at < i && bits[at] && values@[at] == n,
                    forall|j: int|
                        0 <= j < i && #[trigger] bits[j] ==> ranks_first(dir, n, values@[j]),
            {
                let is_valid = validity.get_bit(i);
                if is_valid && (!has_value || !ranks_first_exec(dir, &n, &values[i])) {
                    has_value = true;
                    n = values[i];
                    proof {
                        at = i as int;
                    }
                }
            }
            proof {
                let w = choose|w: int| 0 <= w < slots.len() && #[trigger] slots[w] is Some;
                assert(bits[w]);
                assert(slots[at] == Some(n));
                assert forall|j: int| 0 <= j < slots.len() implies (#[trigger] slots[j] matches Some(
                    v,
                ) ==> ranks_first(dir, n, v)) by {
                    if slots[j] is Some {
                        assert(bits[j]);
                    }
                }
            }
            Some(n)
        },
        None => {
            let m = nonnull_min_max_primitive(values, dir);
            proof {
                lemma_no_nulls_extreme(dir, values@, m);
            }
            Some(m)
        },
    }
}

/// Returns the minimum value in the array, according to the natural order,
/// ignoring null slots; `None` when every slot is null or the array is empty.
pub fn min_primitive<T: NativeType>(array: &PrimitiveArray<T>) -> (r: Option<T>)
    ensures
        r is None <==> !has_value(array@),
        r matches Some(m) ==> is_min_slot(array@, m),
{
    min_max_helper(array, Extreme::Min)
}

/// Returns the maximum value in the array, according to the natural order,
/// ignoring null slots; `None` when every slot is null or the array is empty.
pub fn max_primitive<T: NativeType>(array: &PrimitiveArray<T>) -> (r: Option<T>)
    ensures
        r is None <==> !has_value(array@),
        r matches Some(m) ==> is_max_slot(array@, m),
{
    min_max_helper(array, Extreme::Max)
}

/// Whether string `a` is at least as far towards `dir` as string `b`.
pub open spec fn str_ranks_first(dir: Extreme, a: Seq<char>, b: Seq<char>) -> bool {
    match dir {
        Extreme::Min => !str_lt(b, a),
        Extreme::Max => !str_lt(a, b),
    }
}

/// Whether string `m` is held by some slot and is at least as far towards `dir`
/// as the string of every non-null slot.
pub open spec fn is_extreme_str(dir: Extreme, slots: Seq<Option<Seq<char>>>, m: Seq<char>) -> bool {
    &&& slots.contains(Some(m))
    &&& forall|i: int|
        0 <= i < slots.len() ==> (#[trigger] slots[i] matches Some(v) ==> str_ranks_first(
            dir,
            m,
            v,
        ))
}

/// Every string ranks at least as far as itself.
proof fn lemma_str_ranks_reflexive(dir: Extreme, a: Seq<char>)
    ensures
        str_ranks_first(dir, a, a),
{
    lemma_lex_irreflexive(utf8_bytes(a));
}

/// A string strictly further towards `dir` than `n` is at least as far as
/// everything `n` is at least as far as.
proof fn lemma_str_ranks_step(dir: Extreme, n: Seq<char>, item: Seq<char>, v: Seq<char>)
    requires
        !str_ranks_first(dir, n, item),
        str_ranks_first(dir, n, v),
    ensures
        str_ranks_first(dir, item, v),
{
    match dir {
        Extreme::Min => {
            if str_lt(v, item) {
                lemma_lex_transitive(utf8_bytes(v), utf8_bytes(item), utf8_bytes(n));
            }
        },
        Extreme::Max => {
            if str_lt(item, v) {
                lemma_lex_transitive(utf8_bytes(n), utf8_bytes(item), utf8_bytes(v));
            }
        },
    }
}

/// Whether string `a` is at least as far towards `dir` as string `b`.
fn str_ranks_first_exec(dir: Extreme, a: &str, b: &str) -> (r: bool)
    ensures
        r == str_ranks_first(dir, a@, b@),
{
    match dir {
        Extreme::Min => !str_less(b, a),
        Extreme::Max => !str_less(a, b),
    }
}

/// The string furthest towards `dir` among the non-null slots of `array`,
/// or `None` when every slot is null (an empty array included).
fn min_max_string<'a, O: Offset>(array: &'a Utf8Array<O>, dir: Extreme) -> (r: Option<&'a str>)
    ensures
        r is None <==> !has_value(array@),
        r matches Some(s) ==> is_extreme_str(dir, array@, s@),
{
    let null_count = array.null_count();
    let len = array.len();
    proof {
        lemma_null_slots_full(array@);
    }
    if null_count == len || len == 0 {
        return None;
    }
    let ghost slots = array@;
    match array.validity() {
        Some(validity) => {
            let ghost bits = validity@;
            assert(slots == slots_of(array.values_view(), Some(bits)));
            let mut n: &str = "";
            let mut has_value = false;
            let ghost mut at: int = 0;
            for i in 0..len
                invariant
                    len == slots.len(),
                    slots == array@,
                    bits == validity@,
                    bits.len() == len,
                    slots == slots_of(array.values_view(), Some(bits)),
                    has_value <==> exists|j: int| 0 <= j < i && #[trigger] bits[j],
                    has_value ==> 0 <= at < i && slots[at] == Some(n@),
                    forall|j: int|
                        0 <= j < i && #[trigger] bits[j] ==> str_ranks_first(
                            dir,
                            n@,
                            array.values_view()[j],
                        ),
            {
                let item = array.value(i);
                if validity.get_bit(i) && (!has_value || !str_ranks_first_exec(dir, n, item)) {
                    proof {
                        lemma_str_ranks_reflexive(dir, item@);
                        assert forall|j: int|
                            0 <= j < i && #[trigger] bits[j] implies str_ranks_first(
                            dir,
                            item@,
                            array.values_view()[j],
                        ) by {
                            lemma_str_ranks_step(dir, n@, item@, array.values_view()[j]);
                        }
                        at = i as int;
                    }
                    has_value = true;
                    n = item;
                }
            }
            proof {
                let w = choose|w: int| 0 <= w < slots.len() && #[trigger] slots[w] is Some;
                assert(bits[w]);
                assert forall|j: int| 0 <= j < slots.len() implies (#[trigger] slots[j] matches Some(
                    v,
                ) ==> str_ranks_first(dir, n@, v)) by {
                    if slots[j] is Some {
                        assert(bits[j]);
                    }
                }
            }
            Some(n)
        },
        None => {
            let mut n = array.value(0);
            proof {
                lemma_str_ranks_reflexive(dir, n@);
            }
            let ghost mut at: int = 0;
            for i in 1..len
                invariant
                    len == slots.len(),
                    slots == array@,
                    array.validity_view() is None,
                    0 <= at < i,
                    slots[at] == Some(n@),
                    forall|j: int|
                        0 <= j < i ==> str_ranks_first(dir, n@, #[trigger] array.values_view()[j]),
            {
                let item = array.value(i);
                if !str_ranks_first_exec(dir, n, item) {
                    proof {
                        lemma_str_ranks_reflexive(dir, item@);
                        assert forall|j: int| 0 <= j < i implies str_ranks_first(
                            dir,
                            item@,
                            #[trigger] array.values_view()[j],
                        ) by {
                            lemma_str_ranks_step(dir, n@, item@, array.values_view()[j]);
                        }
                        at = i as int;
                    }
                    n = item;
                }
            }
            proof {
                assert forall|j: int| 0 <= j < slots.len() implies (#[trigger] slots[j] matches Some(
                    v,
                ) ==> str_ranks_first(dir, n@, v)) by {
                    assert(slots[j] == Some(array.values_view()[j]));
                }
            }
            Some(n)
        },
    }
}

/// Returns the maximum value in the string array, according to the natural order
/// (lexicographic order of the UTF-8 bytes), ignoring null slots; `None` when
/// every slot is null or the array is empty.
pub fn max_string<O: Offset>(array: &Utf8Array<O>) -> (r: Option<&str>)
    ensures
        r is None <==> !has_value(array@),
        r matches Some(s) ==> is_extreme_str(Extreme::Max, array@, s@),
{
    min_max_string(array, Extreme::Max)
}

/// Returns the minimum value in the string array, according to the natural order
/// (lexicographic order of the UTF-8 bytes), ignoring null slots; `None` when
/// every slot is null or the array is empty.
pub fn min_string<O: Offset>(array: &Utf8Array<O>) -> (r: Option<&str>)
    ensures
        r is None <==> !has_value(array@),
        r matches Some(s) ==> is_extreme_str(Extreme::Min, array@, s@),
{
    min_max_string(array, Extreme::Min)
}

/// The minimum of the non-null booleans, `false` before `true`.
pub open spec fn bool_min(slots: Seq<Option<bool>>) -> Option<bool> {
    if !has_value(slots) {
        None
    } else if slots.contains(Some(false)) {
        Some(false)
    } else {
        Some(true)
    }
}

/// The maximum of the non-null booleans, `false` before `true`.
pub open spec fn bool_max(slots: Seq<Option<bool>>) -> Option<bool> {
    if !has_value(slots) {
        None
    } else if slots.contains(Some(true)) {
        Some(true)
    } else {
        Some(false)
    }
}

/// The non-null boolean equal to `target` if some slot holds one, else the
/// other boolean; `None` when every slot is null.
fn find_boolean(array: &BooleanArray, target: bool) -> (r: Option<bool>)
    ensures
        r == (if !has_value(array@) {
            None
        } else if array@.contains(Some(target)) {
            Some(target)
        } else {
            Some(!target)
        }),
{
    // Short-circuit if all nulls / zero length array.
    proof {
        lemma_null_slots_full(array@);
    }
    let len = array.len();
    if array.null_count() == len {
        return None;
    }
    for i in 0..len
        invariant
            len == array@.len(),
            forall|j: int| 0 <= j < i ==> array@[j] != Some(target),
            has_value(array@),
    {
        match array.get(i) {
            Some(b) => {
                if b == target {
                    return Some(target);
                }
            },
            None => {},
        }
    }
    proof {
        if array@.contains(Some(target)) {
            let j = choose|j: int| 0 <= j < array@.len() && array@[j] == Some(target);
        }
    }
    Some(!target)
}

/// Returns the minimum value in the boolean array: `false` if some non-null slot
/// holds `false`, else `true`; `None` when every slot is null or the array is empty.
pub fn min_boolean(array: &BooleanArray) -> (r: Option<bool>)
    ensures
        r == bool_min(array@),
{
    // The min bool is false, so stop as soon as it is seen.
    find_boolean(array, false)
}

/// Returns the maximum value in the boolean array: `true` if some non-null slot
/// holds `true`, else `false`; `None` when every slot is null or the array is empty.
pub fn max_boolean(array: &BooleanArray) -> (r: Option<bool>)
    ensures
        r == bool_max(array@),
{
    // The max bool is true, so stop as soon as it is seen.
    find_boolean(array, true)
}

} // verus!
