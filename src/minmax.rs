//! Minimum and maximum of the valid slots of an array, by a strict order on
//! its values.
use crate::array::PrimitiveArray;
use crate::model::{all_null, count_none, is_max, is_min, lemma_count_none_bounds};
use crate::native::NativeInt;
use vstd::prelude::*;

verus! {

/// Read access to an array whose values are ordered: the shape the min/max
/// reducer walks.
pub trait ArrayAccessor {
    type Item;

    /// The slots of the array, `None` for a null slot.
    spec fn logical(&self) -> Seq<Option<Self::Item>>;

    spec fn well_formed(&self) -> bool;

    /// The strict order on values.
    spec fn less(a: Self::Item, b: Self::Item) -> bool;

    proof fn lemma_less_irreflexive(a: Self::Item)
        ensures
            !Self::less(a, a),
    ;

    proof fn lemma_less_transitive(a: Self::Item, b: Self::Item, c: Self::Item)
        requires
            Self::less(a, b),
            Self::less(b, c),
        ensures
            Self::less(a, c),
    ;

    fn slot_count(&self) -> (r: usize)
        requires
            self.well_formed(),
        ensures
            r == self.logical().len(),
    ;

    fn nulls_in(&self) -> (r: usize)
        requires
            self.well_formed(),
        ensures
            r == count_none(self.logical()),
    ;

    fn valid_at(&self, i: usize) -> (r: bool)
        requires
            self.well_formed(),
            i < self.logical().len(),
        ensures
            r == self.logical()[i as int] is Some,
    ;

    /// Whether the value in slot `i` is less than the value in slot `j`.
    fn less_at(&self, i: usize, j: usize) -> (r: bool)
        requires
            self.well_formed(),
            i < self.logical().len(),
            j < self.logical().len(),
            self.logical()[i as int] is Some,
            self.logical()[j as int] is Some,
        ensures
            r == Self::less(self.logical()[i as int]->0, self.logical()[j as int]->0),
    ;
}

/// Slot `i` holds a value that no valid slot beats: none is greater when
/// `want_max`, none is less otherwise.
pub open spec fn is_extreme_at<A: ArrayAccessor>(
    s: Seq<Option<A::Item>>,
    i: int,
    want_max: bool,
) -> bool {
    &&& 0 <= i < s.len()
    &&& s[i] is Some
    &&& forall|j: int|
        0 <= j < s.len() && #[trigger] s[j] is Some ==> if want_max {
            !A::less(s[i]->0, s[j]->0)
        } else {
            !A::less(s[j]->0, s[i]->0)
        }
}

/// Position of the largest (`want_max`) or smallest value among the valid
/// slots, `None` when there is none. Slots are read in order and a later value
/// is taken only when strictly better, so among equals the first is kept.
pub fn min_max_helper<A: ArrayAccessor>(array: &A, want_max: bool) -> (r: Option<usize>)
    requires
        array.well_formed(),
    ensures
        r is None <==> all_null(array.logical()),
        r matches Some(i) ==> is_extreme_at::<A>(array.logical(), i as int, want_max),
{
    let len = array.slot_count();
    let null_count = array.nulls_in();
    let ghost s = array.logical();
    proof {
        lemma_count_none_bounds(s);
    }
    if null_count == len {
        return None;
    }
    let mut best: Option<usize> = None;
    let mut i: usize = 0;
    while i < len
        invariant
            array.well_formed(),
            s == array.logical(),
            len == s.len(),
            i <= len,
            null_count == count_none(s),
            null_count == 0 ==> forall|j: int| 0 <= j < s.len() ==> #[trigger] s[j] is Some,
            best is None ==> forall|j: int| 0 <= j < i ==> #[trigger] s[j] is None,
            best matches Some(b) ==> b < i && s[b as int] is Some && forall|j: int|
                0 <= j < i && #[trigger] s[j] is Some ==> if want_max {
                    !A::less(s[b as int]->0, s[j]->0)
                } else {
                    !A::less(s[j]->0, s[b as int]->0)
                },
        decreases len - i,
    {
        // without nulls every slot is known valid and its bit is not read
        if null_count == 0 || array.valid_at(i) {
            match best {
                None => {
                    proof {
                        A::lemma_less_irreflexive(s[i as int]->0);
                    }
                    best = Some(i);
                },
                Some(b) => {
                    let better = if want_max {
                        array.less_at(b, i)
                    } else {
                        array.less_at(i, b)
                    };
                    if better {
                        proof {
                            A::lemma_less_irreflexive(s[i as int]->0);
                            assert forall|j: int| 0 <= j <= i && #[trigger] s[j] is Some implies if want_max {
                                !A::less(s[i as int]->0, s[j]->0)
                            } else {
                                !A::less(s[j]->0, s[i as int]->0)
                            } by {
                                if j < i {
                                    if want_max && A::less(s[i as int]->0, s[j]->0) {
                                        A::lemma_less_transitive(s[b as int]->0, s[i as int]->0, s[j]->0);
                                    }
                                    if !want_max && A::less(s[j]->0, s[i as int]->0) {
                                        A::lemma_less_transitive(s[j]->0, s[i as int]->0, s[b as int]->0);
                                    }
                                }
                            }
                        }
                        best = Some(i);
                    }
                },
            }
        }
        i = i + 1;
    }
    proof {
        if best is None {
            assert(all_null(s));
        }
    }
    best
}

impl<T: NativeInt> ArrayAccessor for PrimitiveArray<T> {
    type Item = T;

    open spec fn logical(&self) -> Seq<Option<T>> {
        self@
    }

    open spec fn well_formed(&self) -> bool {
        self.wf()
    }

    open spec fn less(a: T, b: T) -> bool {
        a.val() < b.val()
    }

    proof fn lemma_less_irreflexive(a: T) {
    }

    proof fn lemma_less_transitive(a: T, b: T, c: T) {
    }

    fn slot_count(&self) -> (r: usize) {
        self.len()
    }

    fn nulls_in(&self) -> (r: usize) {
        self.null_count()
    }

    fn valid_at(&self, i: usize) -> (r: bool) {
        self.is_valid(i)
    }

    fn less_at(&self, i: usize, j: usize) -> (r: bool) {
        self.values[i].is_less(&self.values[j])
    }
}

/// Smallest value among the valid slots; `None` when the array is empty or
/// every slot is null.
pub fn min<T: NativeInt>(array: &PrimitiveArray<T>) -> (r: Option<T>)
    requires
        array.wf(),
    ensures
        r is None <==> all_null(array@),
        r matches Some(v) ==> is_min(array@, v),
{
    match min_max_helper(array, false) {
        None => None,
        Some(i) => {
            let v = array.values[i];
            assert(array@[i as int] == Some(v));
            Some(v)
        },
    }
}

/// Largest value among the valid slots; `None` when the array is empty or
/// every slot is null.
pub fn max<T: NativeInt>(array: &PrimitiveArray<T>) -> (r: Option<T>)
    requires
        array.wf(),
    ensures
        r is None <==> all_null(array@),
        r matches Some(v) ==> is_max(array@, v),
{
    match min_max_helper(array, true) {
        None => None,
        Some(i) => {
            let v = array.values[i];
            assert(array@[i as int] == Some(v));
            Some(v)
        },
    }
}

} // verus!
