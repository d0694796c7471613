//! Arrays of primitive values, booleans and strings, each slot of which may be null.
use vstd::prelude::*;
use crate::bitmap::{Bitmap, count_unset};
use crate::slots::{slots_of, null_slots, lemma_null_slots_of};
use crate::types::Offset;

verus! {

/// Why an array could not be built from its parts.
#[derive(Debug, Clone, Copy, PartialEq, Eq, Structural)]
pub enum ArrayError {
    /// The validity bitmap does not have one bit per value.
    ValidityLengthMismatch,
}

/// The validity bitmap's bits, if there is a bitmap.
pub open spec fn bits_of(validity: Option<Bitmap>) -> Option<Seq<bool>> {
    match validity {
        None => None,
        Some(b) => Some(b@),
    }
}

/// Whether a bitmap, if there is one, has `n` bits.
pub open spec fn fits(validity: Option<Seq<bool>>, n: nat) -> bool {
    validity matches Some(bits) ==> bits.len() == n
}

/// The bits of `slots` that say which slots hold a value.
pub open spec fn validity_bits<T>(slots: Seq<Option<T>>) -> Seq<bool> {
    Seq::new(slots.len(), |i: int| slots[i] is Some)
}

/// Copies a slice of optional values into a value vector and a validity vector.
fn split_options<T: Copy + Default>(items: &[Option<T>]) -> (res: (Vec<T>, Vec<bool>, bool))
    ensures
        res.0@.len() == items@.len(),
        res.1@ == validity_bits(items@),
        slots_of(res.0@, Some(res.1@)) == items@,
        res.2 <==> items@.contains(None),
{
    let mut values: Vec<T> = Vec::new();
    let mut bits: Vec<bool> = Vec::new();
    let mut any_null = false;
    for i in 0..items.len()
        invariant
            values@.len() == i,
            bits@ == validity_bits(items@.subrange(0, i as int)),
            forall|j: int| 0 <= j < i ==> (#[trigger] items@[j] matches Some(v) ==> values@[j] == v),
            any_null <==> exists|j: int| 0 <= j < i && #[trigger] items@[j] is None,
    {
        match items[i] {
            Some(v) => {
                values.push(v);
                bits.push(true);
            },
            None => {
                values.push(T::default());
                bits.push(false);
                any_null = true;
            },
        }
        assert(validity_bits(items@.subrange(0, i + 1)) == validity_bits(
            items@.subrange(0, i as int),
        ).push(items@[i as int] is Some));
    }
    assert(items@.subrange(0, items@.len() as int) == items@);
    assert(slots_of(values@, Some(bits@)) == items@);
    proof {
        if items@.contains(None) {
            let j = choose|j: int| 0 <= j < items@.len() && items@[j] == None::<T>;
            assert(items@[j] is None);
        }
        if any_null {
            let j = choose|j: int| 0 <= j < items@.len() && #[trigger] items@[j] is None;
            assert(items@[j] == None::<T>);
        }
    }
    (values, bits, any_null)
}

/// An array of primitive values, each slot of which may be null.
pub struct PrimitiveArray<T> {
    values: Vec<T>,
    validity: Option<Bitmap>,
}

impl<T> PrimitiveArray<T> {
    #[verifier::type_invariant]
    spec fn inv(self) -> bool {
        fits(bits_of(self.validity), self.values@.len())
    }

    /// The stored values, null slots included.
    pub closed spec fn values_view(&self) -> Seq<T> {
        self.values@
    }

    /// The validity bits, if the array has a bitmap.
    pub closed spec fn validity_view(&self) -> Option<Seq<bool>> {
        bits_of(self.validity)
    }
}

impl<T> View for PrimitiveArray<T> {
    type V = Seq<Option<T>>;

    open spec fn view(&self) -> Seq<Option<T>> {
        slots_of(self.values_view(), self.validity_view())
    }
}

impl<T: Copy> PrimitiveArray<T> {
    /// An array of `values` with the given validity, which must have one bit per value.
    pub fn try_new(values: Vec<T>, validity: Option<Bitmap>) -> (res: Result<Self, ArrayError>)
        ensures
            res is Ok <==> fits(bits_of(validity), values@.len()),
            res matches Ok(a) ==> a.values_view() == values@ && a.validity_view() == bits_of(
                validity,
            ),
            res matches Err(e) ==> e == ArrayError::ValidityLengthMismatch,
    {
        match &validity {
            Some(b) => {
                if b.len() != values.len() {
                    return Err(ArrayError::ValidityLengthMismatch);
                }
            },
            None => {},
        }
        Ok(PrimitiveArray { values, validity })
    }

    /// An array without nulls holding a copy of `values`.
    pub fn from_slice(values: &[T]) -> (res: Self)
        ensures
            res.values_view() == values@,
            res.validity_view() is None,
            res@ == slots_of(values@, None),
    {
        let mut v: Vec<T> = Vec::new();
        for i in 0..values.len()
            invariant
                v@ == values@.subrange(0, i as int),
        {
            v.push(values[i]);
        }
        assert(values@.subrange(0, values@.len() as int) == values@);
        PrimitiveArray { values: v, validity: None }
    }

    /// The number of slots.
    pub fn len(&self) -> (n: usize)
        ensures
            n == self@.len(),
            n == self.values_view().len(),
    {
        self.values.len()
    }

    /// The stored values, null slots included.
    pub fn values(&self) -> (r: &[T])
        ensures
            r@ == self.values_view(),
    {
        self.values.as_slice()
    }

    /// The validity bitmap, if the array has one; it has one bit per slot.
    pub fn validity(&self) -> (r: Option<&Bitmap>)
        ensures
            r is None <==> self.validity_view() is None,
            r matches Some(b) ==> self.validity_view() == Some(b@),
            fits(self.validity_view(), self.values_view().len()),
    {
        proof {
            use_type_invariant(self);
        }
        match &self.validity {
            Some(b) => Some(b),
            None => None,
        }
    }

    /// The number of null slots.
    pub fn null_count(&self) -> (n: usize)
        ensures
            n == null_slots(self@),
            n == match self.validity_view() {
                None => 0,
                Some(bits) => count_unset(bits),
            },
    {
        proof {
            use_type_invariant(self);
            lemma_null_slots_of(self.values@, bits_of(self.validity));
        }
        match &self.validity {
            Some(b) => b.unset_bits(),
            None => 0,
        }
    }

    /// Whether slot `i` holds a value.
    pub fn is_valid(&self, i: usize) -> (r: bool)
        requires
            i < self@.len(),
        ensures
            r == self@[i as int] is Some,
    {
        proof {
            use_type_invariant(self);
        }
        match &self.validity {
            Some(b) => b.get_bit(i),
            None => true,
        }
    }

    /// The value stored in slot `i`, whether or not the slot is null.
    pub fn value(&self, i: usize) -> (r: T)
        requires
            i < self@.len(),
        ensures
            r == self.values_view()[i as int],
            self@[i as int] is Some ==> self@[i as int] == Some(r),
    {
        self.values[i]
    }
}

impl<T: Copy + Default> PrimitiveArray<T> {
    /// An array holding `items`, in order; it has a validity bitmap exactly when some item is null.
    pub fn from(items: &[Option<T>]) -> (res: Self)
        ensures
            res@ == items@,
            res.validity_view() is None <==> !items@.contains(None),
            res.validity_view() matches Some(bits) ==> bits == validity_bits(items@),
    {
        let (values, bits, any_null) = split_options(items);
        if any_null {
            PrimitiveArray { values, validity: Some(Bitmap::new(bits)) }
        } else {
            assert(slots_of(values@, None) == items@) by {
                assert forall|i: int| 0 <= i < items@.len() implies bits@[i] by {
                    if !bits@[i] {
                        assert(items@[i] is None);
                        assert(items@.contains(None));
                    }
                }
                assert(slots_of(values@, None) == slots_of(values@, Some(bits@)));
            }
            PrimitiveArray { values, validity: None }
        }
    }
}

/// An array of booleans, each slot of which may be null.
pub struct BooleanArray {
    values: Bitmap,
    validity: Option<Bitmap>,
}

impl BooleanArray {
    #[verifier::type_invariant]
    spec fn inv(self) -> bool {
        fits(bits_of(self.validity), self.values@.len())
    }

    /// The stored booleans, null slots included.
    pub closed spec fn values_view(&self) -> Seq<bool> {
        self.values@
    }

    /// The validity bits, if the array has a bitmap.
    pub closed spec fn validity_view(&self) -> Option<Seq<bool>> {
        bits_of(self.validity)
    }
}

impl View for BooleanArray {
    type V = Seq<Option<bool>>;

    open spec fn view(&self) -> Seq<Option<bool>> {
        slots_of(self.values_view(), self.validity_view())
    }
}

impl BooleanArray {
    /// An array of `values` with the given validity, which must have one bit per value.
    pub fn try_new(values: Bitmap, validity: Option<Bitmap>) -> (res: Result<Self, ArrayError>)
        ensures
            res is Ok <==> fits(bits_of(validity), values@.len()),
            res matches Ok(a) ==> a.values_view() == values@ && a.validity_view() == bits_of(
                validity,
            ),
            res matches Err(e) ==> e == ArrayError::ValidityLengthMismatch,
    {
        match &validity {
            Some(b) => {
                if b.len() != values.len() {
                    return Err(ArrayError::ValidityLengthMismatch);
                }
            },
            None => {},
        }
        Ok(BooleanArray { values, validity })
    }

    /// An array without nulls holding a copy of `values`.
    pub fn from_slice(values: &[bool]) -> (res: Self)
        ensures
            res.values_view() == values@,
            res.validity_view() is None,
            res@ == slots_of(values@, None),
    {
        BooleanArray { values: Bitmap::from_bools(values), validity: None }
    }

    /// An array holding `items`, in order; it has a validity bitmap exactly when some item is null.
    pub fn from(items: &[Option<bool>]) -> (res: Self)
        ensures
            res@ == items@,
            res.validity_view() is None <==> !items@.contains(None),
            res.validity_view() matches Some(bits) ==> bits == validity_bits(items@),
    {
        let (values, bits, any_null) = split_options(items);
        if any_null {
            BooleanArray { values: Bitmap::new(values), validity: Some(Bitmap::new(bits)) }
        } else {
            assert(slots_of(values@, None) == items@) by {
                assert forall|i: int| 0 <= i < items@.len() implies bits@[i] by {
                    if !bits@[i] {
                        assert(items@[i] is None);
                        assert(items@.contains(None));
                    }
                }
                assert(slots_of(values@, None) == slots_of(values@, Some(bits@)));
            }
            BooleanArray { values: Bitmap::new(values), validity: None }
        }
    }

    /// The number of slots.
    pub fn len(&self) -> (n: usize)
        ensures
            n == self@.len(),
            n == self.values_view().len(),
    {
        self.values.len()
    }

    /// The validity bitmap, if the array has one; it has one bit per slot.
    pub fn validity(&self) -> (r: Option<&Bitmap>)
        ensures
            r is None <==> self.validity_view() is None,
            r matches Some(b) ==> self.validity_view() == Some(b@),
            fits(self.validity_view(), self.values_view().len()),
    {
        proof {
            use_type_invariant(self);
        }
        match &self.validity {
            Some(b) => Some(b),
            None => None,
        }
    }

    /// The number of null slots.
    pub fn null_count(&self) -> (n: usize)
        ensures
            n == null_slots(self@),
            n == match self.validity_view() {
                None => 0,
                Some(bits) => count_unset(bits),
            },
    {
        proof {
            use_type_invariant(self);
            lemma_null_slots_of(self.values@, bits_of(self.validity));
        }
        match &self.validity {
            Some(b) => b.unset_bits(),
            None => 0,
        }
    }

    /// Slot `i`: its boolean, or `None` when it is null.
    pub fn get(&self, i: usize) -> (r: Option<bool>)
        requires
            i < self@.len(),
        ensures
            r == self@[i as int],
    {
        proof {
            use_type_invariant(self);
        }
        let valid = match &self.validity {
            Some(b) => b.get_bit(i),
            None => true,
        };
        if valid {
            Some(self.values.get_bit(i))
        } else {
            None
        }
    }
}

/// The character sequences of a vector of strings.
pub open spec fn strings_view(values: Seq<String>) -> Seq<Seq<char>> {
    values.map_values(|s: String| s@)
}

/// An array of strings, each slot of which may be null; `O` is the type of its offsets.
pub struct Utf8Array<O: Offset> {
    values: Vec<String>,
    validity: Option<Bitmap>,
    offsets: core::marker::PhantomData<O>,
}

impl<O: Offset> Utf8Array<O> {
    #[verifier::type_invariant]
    spec fn inv(self) -> bool {
        fits(bits_of(self.validity), self.values@.len())
    }

    /// The stored strings, null slots included.
    pub closed spec fn values_view(&self) -> Seq<Seq<char>> {
        strings_view(self.values@)
    }

    /// The validity bits, if the array has a bitmap.
    pub closed spec fn validity_view(&self) -> Option<Seq<bool>> {
        bits_of(self.validity)
    }
}

impl<O: Offset> View for Utf8Array<O> {
    type V = Seq<Option<Seq<char>>>;

    open spec fn view(&self) -> Seq<Option<Seq<char>>> {
        slots_of(self.values_view(), self.validity_view())
    }
}

/// Copies a slice of strings into a vector of owned strings.
fn owned_strings(items: &[&str]) -> (res: Vec<String>)
    ensures
        strings_view(res@) == Seq::new(items@.len(), |i: int| items@[i]@),
{
    let mut v: Vec<String> = Vec::new();
    for i in 0..items.len()
        invariant
            v@.len() == i,
            forall|j: int| 0 <= j < i ==> #[trigger] v@[j]@ == items@[j]@,
    {
        v.push(items[i].to_owned());
    }
    assert(strings_view(v@) == Seq::new(items@.len(), |i: int| items@[i]@));
    v
}

impl<O: Offset> Utf8Array<O> {
    /// An array of `values` with the given validity, which must have one bit per value.
    pub fn try_new(values: Vec<String>, validity: Option<Bitmap>) -> (res: Result<
        Self,
        ArrayError,
    >)
        ensures
            res is Ok <==> fits(bits_of(validity), values@.len()),
            res matches Ok(a) ==> a.values_view() == strings_view(values@) && a.validity_view()
                == bits_of(validity),
            res matches Err(e) ==> e == ArrayError::ValidityLengthMismatch,
    {
        match &validity {
            Some(b) => {
                if b.len() != values.len() {
                    return Err(ArrayError::ValidityLengthMismatch);
                }
            },
            None => {},
        }
        Ok(Utf8Array { values, validity, offsets: core::marker::PhantomData })
    }

    /// An array without nulls holding a copy of `items`.
    pub fn from_slice(items: &[&str]) -> (res: Self)
        ensures
            res.values_view() == Seq::new(items@.len(), |i: int| items@[i]@),
            res.validity_view() is None,
            res@ == slots_of(Seq::new(items@.len(), |i: int| items@[i]@), None),
    {
        let values = owned_strings(items);
        Utf8Array { values, validity: None, offsets: core::marker::PhantomData }
    }

    /// An array holding `items`, in order; it has a validity bitmap exactly when some item is null.
    pub fn from(items: &[Option<&str>]) -> (res: Self)
        ensures
            res@ == Seq::new(
                items@.len(),
                |i: int|
                    match items@[i] {
                        Some(s) => Some(s@),
                        None => None::<Seq<char>>,
                    },
            ),
            res.validity_view() is None <==> !items@.contains(None),
    {
        let ghost target = Seq::new(
            items@.len(),
            |i: int|
                match items@[i] {
                    Some(s) => Some(s@),
                    None => None::<Seq<char>>,
                },
        );
        let mut values: Vec<String> = Vec::new();
        let mut bits: Vec<bool> = Vec::new();
        let mut any_null = false;
        for i in 0..items.len()
            invariant
                values@.len() == i,
                bits@.len() == i,
                forall|j: int|
                    0 <= j < i ==> (bits@[j] <==> #[trigger] items@[j] is Some),
                forall|j: int|
                    0 <= j < i ==> (#[trigger] items@[j] matches Some(s) ==> values@[j]@ == s@),
                any_null <==> exists|j: int| 0 <= j < i && #[trigger] items@[j] is None,
        {
            match items[i] {
                Some(s) => {
                    values.push(s.to_owned());
                    bits.push(true);
                },
                None => {
                    values.push(String::new());
                    bits.push(false);
                    any_null = true;
                },
            }
        }
        proof {
            if items@.contains(None) {
                let j = choose|j: int| 0 <= j < items@.len() && items@[j] == None::<&str>;
                assert(items@[j] is None);
            }
            if any_null {
                let j = choose|j: int| 0 <= j < items@.len() && #[trigger] items@[j] is None;
                assert(items@[j] == None::<&str>);
            }
        }
        if any_null {
            let res = Utf8Array {
                values,
                validity: Some(Bitmap::new(bits)),
                offsets: core::marker::PhantomData,
            };
            assert(res@ == target);
            res
        } else {
            let res = Utf8Array { values, validity: None, offsets: core::marker::PhantomData };
            assert forall|i: int| 0 <= i < items@.len() implies #[trigger] items@[i] is Some by {
                if items@[i] is None {
                    assert(items@.contains(None));
                }
            }
            assert(res@ == target);
            res
        }
    }

    /// The number of slots.
    pub fn len(&self) -> (n: usize)
        ensures
            n == self@.len(),
            n == self.values_view().len(),
    {
        self.values.len()
    }

    /// The validity bitmap, if the array has one; it has one bit per slot.
    pub fn validity(&self) -> (r: Option<&Bitmap>)
        ensures
            r is None <==> self.validity_view() is None,
            r matches Some(b) ==> self.validity_view() == Some(b@),
            fits(self.validity_view(), self.values_view().len()),
    {
        proof {
            use_type_invariant(self);
        }
        match &self.validity {
            Some(b) => Some(b),
            None => None,
        }
    }

    /// The number of null slots.
    pub fn null_count(&self) -> (n: usize)
        ensures
            n == null_slots(self@),
            n == match self.validity_view() {
                None => 0,
                Some(bits) => count_unset(bits),
            },
    {
        proof {
            use_type_invariant(self);
            lemma_null_slots_of(strings_view(self.values@), bits_of(self.validity));
        }
        match &self.validity {
            Some(b) => b.unset_bits(),
            None => 0,
        }
    }

    /// The string stored in slot `i`, whether or not the slot is null.
    pub fn value(&self, i: usize) -> (r: &str)
        requires
            i < self@.len(),
        ensures
            r@ == self.values_view()[i as int],
            self@[i as int] is Some ==> self@[i as int] == Some(r@),
    {
        self.values[i].as_str()
    }
}

} // verus!
