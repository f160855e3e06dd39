//! Primitive arrays: a buffer of fixed-width values with an optional validity
//! bitmap.
use crate::model::count_none;
use crate::model::lemma_count_none_bounds;
use crate::model::lemma_count_unset_matches;
use crate::native::NativeInt;
use crate::nulls::{
    nulls_from_bools, nulls_is_valid, nulls_null_count, nulls_slice, validity,
};
use arrow_buffer::NullBuffer;
use vstd::prelude::*;

verus! {

/// An array of nullable integers: the values of every slot, and a bitmap that
/// marks which slots are valid (`None`: all of them).
#[derive(Clone, Debug, PartialEq)]
pub struct PrimitiveArray<T> {
    pub values: Vec<T>,
    pub nulls: Option<NullBuffer>,
}

impl<T: NativeInt> PrimitiveArray<T> {
    /// The bitmap, where there is one, has a bit for every value.
    pub open spec fn wf(&self) -> bool {
        self.nulls matches Some(n) ==> validity(n).len() == self.values@.len()
    }

    pub open spec fn valid_at(&self, i: int) -> bool {
        match self.nulls {
            None => true,
            Some(n) => validity(n)[i],
        }
    }

    /// The array from its buffer and bitmap; the bitmap must be as long as the
    /// buffer.
    pub fn new(values: Vec<T>, nulls: Option<NullBuffer>) -> (r: Self)
        requires
            nulls matches Some(n) ==> validity(n).len() == values@.len(),
        ensures
            r.wf(),
            r.values@ == values@,
            r.nulls == nulls,
    {
        PrimitiveArray { values, nulls }
    }

    /// An array without nulls.
    pub fn from_values(values: Vec<T>) -> (r: Self)
        ensures
            r.wf(),
            r@ == values@.map_values(|v: T| Some(v)),
    {
        let r = PrimitiveArray { values, nulls: None };
        assert(r@ =~= r.values@.map_values(|v: T| Some(v)));
        r
    }

    /// An array holding the given slots; it has a bitmap only where some slot
    /// is null.
    pub fn from_options(slots: Vec<Option<T>>) -> (r: Self)
        ensures
            r.wf(),
            r@ == slots@,
    {
        let mut values: Vec<T> = Vec::new();
        let mut bits: Vec<bool> = Vec::new();
        let mut any_null = false;
        let mut i: usize = 0;
        while i < slots.len()
            invariant
                i <= slots@.len(),
                values@.len() == i,
                bits@.len() == i,
                !any_null ==> forall|j: int| 0 <= j < i ==> #[trigger] bits@[j],
                forall|j: int|
                    0 <= j < i ==> (#[trigger] bits@[j] <==> slots@[j] is Some),
                forall|j: int|
                    0 <= j < i && slots@[j] is Some ==> slots@[j] == Some(#[trigger] values@[j]),
            decreases slots@.len() - i,
        {
            match slots[i] {
                Some(v) => {
                    values.push(v);
                    bits.push(true);
                },
                None => {
                    values.push(T::zero());
                    bits.push(false);
                    any_null = true;
                },
            }
            i = i + 1;
        }
        let nulls = if any_null {
            Some(nulls_from_bools(bits))
        } else {
            None
        };
        let r = PrimitiveArray { values, nulls };
        assert forall|j: int| 0 <= j < slots@.len() implies r@[j] == slots@[j] by {
            assert(bits@[j] <==> slots@[j] is Some);
        }
        assert(r@ =~= slots@);
        r
    }

    /// Number of slots.
    pub fn len(&self) -> (r: usize)
        requires
            self.wf(),
        ensures
            r == self@.len(),
    {
        self.values.len()
    }

    /// Number of null slots.
    pub fn null_count(&self) -> (r: usize)
        requires
            self.wf(),
        ensures
            r == count_none(self@),
    {
        proof {
            lemma_count_none_bounds(self@);
        }
        match &self.nulls {
            None => {
                assert(count_none(self@) == 0);
                0
            },
            Some(n) => {
                proof {
                    lemma_count_unset_matches(validity(*n), self@);
                }
                nulls_null_count(n)
            },
        }
    }

    /// Whether slot `i` holds a value.
    pub fn is_valid(&self, i: usize) -> (r: bool)
        requires
            self.wf(),
            i < self@.len(),
        ensures
            r == self@[i as int] is Some,
    {
        match &self.nulls {
            None => true,
            Some(n) => nulls_is_valid(n, i),
        }
    }

    /// The value stored in slot `i`; for a null slot it is whatever the buffer
    /// holds there.
    pub fn value(&self, i: usize) -> (r: T)
        requires
            self.wf(),
            i < self@.len(),
        ensures
            r == self.values@[i as int],
            self@[i as int] matches Some(v) ==> r == v,
    {
        self.values[i]
    }

    /// The `length` slots starting at `offset`; the window must lie within the
    /// array.
    pub fn slice(&self, offset: usize, length: usize) -> (r: Self)
        requires
            self.wf(),
            offset + length <= self@.len(),
        ensures
            r.wf(),
            r@ == self@.subrange(offset as int, offset + length),
    {
        let mut values: Vec<T> = Vec::new();
        let n = self.values.len();
        assert(offset + length <= n);
        let end = offset + length;
        let mut i: usize = offset;
        while i < end
            invariant
                offset <= i <= end,
                end == offset + length,
                end <= self.values@.len(),
                values@ == self.values@.subrange(offset as int, i as int),
            decreases end - i,
        {
            values.push(self.values[i]);
            i = i + 1;
            assert(values@ =~= self.values@.subrange(offset as int, i as int));
        }
        let nulls = match &self.nulls {
            None => None,
            Some(n) => Some(nulls_slice(n, offset, length)),
        };
        let r = PrimitiveArray { values, nulls };
        assert(r@ =~= self@.subrange(offset as int, offset + length));
        r
    }
}

impl<T: NativeInt> View for PrimitiveArray<T> {
    type V = Seq<Option<T>>;

    open spec fn view(&self) -> Seq<Option<T>> {
        Seq::new(
            self.values@.len(),
            |i: int|
                if self.valid_at(i) {
                    Some(self.values@[i])
                } else {
                    None
                },
        )
    }
}

} // verus!
