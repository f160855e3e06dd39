//! Dictionary-encoded arrays, and the aggregations that accept either a plain
//! primitive array or a dictionary-encoded one.
use crate::array::PrimitiveArray;
use crate::minmax::{max, min, min_max_helper, ArrayAccessor};
use crate::model::{
    all_null, count_none, is_max, is_min, lemma_count_none_bounds, sum_of, sum_overflows,
    wrapping_sum,
};
use crate::native::{lemma_wrap_add, NativeInt};
use crate::sum::{lemma_sum_step, sum, sum_checked, AggregateError};
use vstd::prelude::*;

verus! {

/// An array whose slots are keys into a second array of values: a null key is
/// a null slot, and a valid key stands for the slot of `values` it selects
/// (itself null when that slot is null).
#[derive(Clone, Debug)]
pub struct DictionaryArray<K, T> {
    pub keys: PrimitiveArray<K>,
    pub values: PrimitiveArray<T>,
}

/// Every valid key selects a slot of `values`.
pub open spec fn keys_in_range<K: NativeInt, T: NativeInt>(
    keys: PrimitiveArray<K>,
    values: PrimitiveArray<T>,
) -> bool {
    forall|i: int|
        0 <= i < keys@.len() && #[trigger] keys@[i] is Some ==> 0 <= keys@[i]->0.val()
            < values@.len()
}

impl<K: NativeInt, T: NativeInt> DictionaryArray<K, T> {
    pub open spec fn wf(&self) -> bool {
        &&& self.keys.wf()
        &&& self.values.wf()
        &&& keys_in_range(self.keys, self.values)
    }

    /// The dictionary array of `keys` over `values`; every valid key must
    /// select a slot of `values`.
    pub fn new(keys: PrimitiveArray<K>, values: PrimitiveArray<T>) -> (r: Self)
        requires
            keys.wf(),
            values.wf(),
            keys_in_range(keys, values),
        ensures
            r.wf(),
            r.keys == keys,
            r.values == values,
    {
        DictionaryArray { keys, values }
    }

    /// The dictionary array of `keys` over `values`, or `None` where a valid
    /// key selects no slot of `values`.
    pub fn try_new(keys: PrimitiveArray<K>, values: PrimitiveArray<T>) -> (r: Option<Self>)
        requires
            keys.wf(),
            values.wf(),
        ensures
            r is Some <==> keys_in_range(keys, values),
            r matches Some(d) ==> d.wf() && d.keys == keys && d.values == values,
    {
        let n = values.len();
        let len = keys.len();
        let mut i: usize = 0;
        while i < len
            invariant
                keys.wf(),
                values.wf(),
                n == values@.len(),
                len == keys@.len(),
                i <= len,
                forall|j: int|
                    0 <= j < i && #[trigger] keys@[j] is Some ==> 0 <= keys@[j]->0.val() < n,
            decreases len - i,
        {
            if keys.is_valid(i) && !keys.value(i).index_below(n) {
                return None;
            }
            i = i + 1;
        }
        Some(DictionaryArray { keys, values })
    }

    /// The logical value of slot `i`: the selected value, or null.
    pub fn resolve(&self, i: usize) -> (r: Option<T>)
        requires
            self.wf(),
            i < self@.len(),
        ensures
            r == self@[i as int],
    {
        if self.keys.is_valid(i) {
            let n = self.values.len();
            let key = self.keys.value(i);
            assert(0 <= key.val() < n);
            let k = key.to_index();
            if self.values.is_valid(k) {
                Some(self.values.value(k))
            } else {
                None
            }
        } else {
            None
        }
    }
}

impl<K: NativeInt, T: NativeInt> View for DictionaryArray<K, T> {
    type V = Seq<Option<T>>;

    open spec fn view(&self) -> Seq<Option<T>> {
        Seq::new(
            self.keys@.len(),
            |i: int|
                match self.keys@[i] {
                    None => None,
                    Some(k) => self.values@[k.val()],
                },
        )
    }
}

impl<K: NativeInt, T: NativeInt> ArrayAccessor for DictionaryArray<K, T> {
    type Item = T;

    open spec fn logical(&self) -> Seq<Option<T>> {
        self@
    }

    open spec fn well_formed(&self) -> bool {
        self.wf()
    }

    open spec fn less(a: T, b: T) -> bool {
        a.val() < b.val()
    }

    proof fn lemma_less_irreflexive(a: T) {
    }

    proof fn lemma_less_transitive(a: T, b: T, c: T) {
    }

    fn slot_count(&self) -> (r: usize) {
        self.keys.len()
    }

    fn nulls_in(&self) -> (r: usize) {
        let len = self.keys.len();
        let mut count: usize = 0;
        let mut i: usize = 0;
        while i < len
            invariant
                self.wf(),
                len == self@.len(),
                i <= len,
                count == count_none(self@.subrange(0, i as int)),
                count <= i,
            decreases len - i,
        {
            proof {
                assert(self@.subrange(0, i + 1).drop_last() =~= self@.subrange(0, i as int));
            }
            if self.resolve(i).is_none() {
                count = count + 1;
            }
            i = i + 1;
        }
        proof {
            assert(self@.subrange(0, len as int) =~= self@);
        }
        count
    }

    fn valid_at(&self, i: usize) -> (r: bool) {
        self.resolve(i).is_some()
    }

    fn less_at(&self, i: usize, j: usize) -> (r: bool) {
        let a = self.resolve(i).unwrap();
        let b = self.resolve(j).unwrap();
        a.is_less(&b)
    }
}

/// An array of integers, plain or dictionary-encoded, that the
/// dictionary-aware aggregations accept.
pub trait TypedArray<T: NativeInt>: ArrayAccessor<Item = T> {
    proof fn lemma_less_is_value_order(a: T, b: T)
        ensures
            Self::less(a, b) == (a.val() < b.val()),
    ;

    /// The value of a valid slot.
    fn value_at(&self, i: usize) -> (r: T)
        requires
            self.well_formed(),
            i < self.logical().len(),
            self.logical()[i as int] is Some,
        ensures
            self.logical()[i as int] == Some(r),
    ;

    /// The array itself where it is a plain primitive array, `None` where it
    /// is dictionary-encoded.
    fn as_primitive(&self) -> (r: Option<&PrimitiveArray<T>>)
        requires
            self.well_formed(),
        ensures
            r matches Some(p) ==> p.wf() && p@ == self.logical(),
    ;
}

impl<T: NativeInt> TypedArray<T> for PrimitiveArray<T> {
    proof fn lemma_less_is_value_order(a: T, b: T) {
    }

    fn value_at(&self, i: usize) -> (r: T) {
        self.value(i)
    }

    fn as_primitive(&self) -> (r: Option<&PrimitiveArray<T>>) {
        Some(self)
    }
}

impl<K: NativeInt, T: NativeInt> TypedArray<T> for DictionaryArray<K, T> {
    proof fn lemma_less_is_value_order(a: T, b: T) {
    }

    fn value_at(&self, i: usize) -> (r: T) {
        self.resolve(i).unwrap()
    }

    fn as_primitive(&self) -> (r: Option<&PrimitiveArray<T>>) {
        None
    }
}

/// Wrapping sum of the logical slots of a plain or dictionary-encoded array;
/// `None` when it is empty or every slot is null. A dictionary is summed slot
/// by slot through its keys, without expanding it.
pub fn sum_array<T: NativeInt, A: TypedArray<T>>(array: &A) -> (r: Option<T>)
    requires
        array.well_formed(),
    ensures
        r is None <==> all_null(array.logical()),
        r matches Some(v) ==> v.val() == wrapping_sum(array.logical()),
{
    match array.as_primitive() {
        Some(p) => sum(p),
        None => {
            let len = array.slot_count();
            let null_count = array.nulls_in();
            let ghost s = array.logical();
            proof {
                lemma_count_none_bounds(s);
                T::lemma_lo_hi();
                assert(s.subrange(0, 0) =~= Seq::<Option<T>>::empty());
                crate::native::lemma_wrap_in_range(T::lo(), T::hi(), 0);
            }
            if null_count == len {
                return None;
            }
            let mut acc = T::zero();
            let mut i: usize = 0;
            while i < len
                invariant
                    array.well_formed(),
                    s == array.logical(),
                    len == s.len(),
                    i <= len,
                    T::lo() < T::hi(),
                    acc.val() == crate::sum::wr::<T>(sum_of(s.subrange(0, i as int))),
                decreases len - i,
            {
                proof {
                    lemma_sum_step(s, i as int);
                }
                if array.valid_at(i) {
                    let v = array.value_at(i);
                    proof {
                        lemma_wrap_add(T::lo(), T::hi(), sum_of(s.subrange(0, i as int)), v.val());
                    }
                    acc = acc.add_wrapping(v);
                }
                i = i + 1;
            }
            proof {
                assert(s.subrange(0, len as int) =~= s);
            }
            Some(acc)
        },
    }
}

/// Overflow-checked sum of the logical slots of a plain or dictionary-encoded
/// array, in slot order; `Ok(None)` when it is empty or every slot is null.
pub fn sum_array_checked<T: NativeInt, A: TypedArray<T>>(array: &A) -> (r: Result<
    Option<T>,
    AggregateError,
>)
    requires
        array.well_formed(),
    ensures
        all_null(array.logical()) <==> r == Ok::<Option<T>, AggregateError>(None),
        r is Err <==> !all_null(array.logical()) && sum_overflows(array.logical()),
        r matches Ok(Some(v)) ==> v.val() == sum_of(array.logical()),
        r matches Err(e) ==> e == AggregateError::ArithmeticOverflow,
{
    match array.as_primitive() {
        Some(p) => sum_checked(p),
        None => {
            let len = array.slot_count();
            let null_count = array.nulls_in();
            let ghost s = array.logical();
            proof {
                lemma_count_none_bounds(s);
                T::lemma_lo_hi();
                assert(s.subrange(0, 0) =~= Seq::<Option<T>>::empty());
                assert(s.subrange(0, len as int) =~= s);
            }
            if null_count == len {
                proof {
                    assert forall|k: int| 0 <= k <= len implies #[trigger] sum_of(s.subrange(0, k))
                        == 0 by {
                        crate::sum::lemma_sum_flat(s, 0, len as int);
                    }
                }
                return Ok(None);
            }
            let mut acc = T::zero();
            let mut i: usize = 0;
            while i < len
                invariant
                    array.well_formed(),
                    s == array.logical(),
                    len == s.len(),
                    i <= len,
                    acc.val() == sum_of(s.subrange(0, i as int)),
                    forall|k: int|
                        0 <= k <= i ==> T::lo() <= #[trigger] sum_of(s.subrange(0, k)) <= T::hi(),
                decreases len - i,
            {
                proof {
                    lemma_sum_step(s, i as int);
                }
                if array.valid_at(i) {
                    let v = array.value_at(i);
                    match acc.add_checked(v) {
                        None => {
                            assert(!(T::lo() <= sum_of(s.subrange(0, i + 1)) <= T::hi()));
                            return Err(AggregateError::ArithmeticOverflow);
                        },
                        Some(n) => {
                            acc = n;
                        },
                    }
                }
                i = i + 1;
            }
            Ok(Some(acc))
        },
    }
}

/// Smallest logical value of a plain or dictionary-encoded array; `None` when
/// it is empty or every slot is null.
pub fn min_array<T: NativeInt, A: TypedArray<T>>(array: &A) -> (r: Option<T>)
    requires
        array.well_formed(),
    ensures
        r is None <==> all_null(array.logical()),
        r matches Some(v) ==> is_min(array.logical(), v),
{
    match array.as_primitive() {
        Some(p) => min(p),
        None => match min_max_helper(array, false) {
            None => None,
            Some(i) => {
                let v = array.value_at(i);
                proof {
                    let s = array.logical();
                    assert(s[i as int] == Some(v));
                    assert forall|j: int| 0 <= j < s.len() && #[trigger] s[j] is Some implies v.val()
                        <= s[j]->0.val() by {
                        A::lemma_less_is_value_order(s[j]->0, v);
                    }
                }
                Some(v)
            },
        },
    }
}

/// Largest logical value of a plain or dictionary-encoded array; `None` when
/// it is empty or every slot is null.
pub fn max_array<T: NativeInt, A: TypedArray<T>>(array: &A) -> (r: Option<T>)
    requires
        array.well_formed(),
    ensures
        r is None <==> all_null(array.logical()),
        r matches Some(v) ==> is_max(array.logical(), v),
{
    match array.as_primitive() {
        Some(p) => max(p),
        None => match min_max_helper(array, true) {
            None => None,
            Some(i) => {
                let v = array.value_at(i);
                proof {
                    let s = array.logical();
                    assert(s[i as int] == Some(v));
                    assert forall|j: int| 0 <= j < s.len() && #[trigger] s[j] is Some implies s[j]->0.val()
                        <= v.val() by {
                        A::lemma_less_is_value_order(v, s[j]->0);
                    }
                }
                Some(v)
            },
        },
    }
}

} // verus!
