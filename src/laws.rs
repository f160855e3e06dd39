//! Properties that relate several aggregations or several arrays.
use crate::array::PrimitiveArray;
use crate::dictionary::DictionaryArray;
use crate::model::{all_null, bit_fold, is_max, is_min, sum_of, sum_overflows, wrapping_sum};
use crate::native::{lemma_wrap_in_range, BitOp, NativeInt};
use vstd::prelude::*;

verus! {

/// The minimum of an array is unique, and so is its maximum: the contracts of
/// `min` and `max` each admit exactly one value.
pub proof fn lemma_extremes_unique<T: NativeInt>(s: Seq<Option<T>>, a: T, b: T)
    ensures
        is_min(s, a) && is_min(s, b) ==> a == b,
        is_max(s, a) && is_max(s, b) ==> a == b,
{
    if is_min(s, a) && is_min(s, b) {
        let i = choose|i: int| 0 <= i < s.len() && s[i] == Some(a);
        let j = choose|j: int| 0 <= j < s.len() && s[j] == Some(b);
        assert(s[i] is Some && s[j] is Some);
        T::lemma_val_injective(a, b);
    }
    if is_max(s, a) && is_max(s, b) {
        let i = choose|i: int| 0 <= i < s.len() && s[i] == Some(a);
        let j = choose|j: int| 0 <= j < s.len() && s[j] == Some(b);
        assert(s[i] is Some && s[j] is Some);
        T::lemma_val_injective(a, b);
    }
}

/// Where no running sum overflows, the checked sum and the wrapping sum agree.
pub proof fn lemma_checked_sum_agrees<T: NativeInt>(s: Seq<Option<T>>)
    requires
        !sum_overflows(s),
    ensures
        wrapping_sum(s) == sum_of(s),
{
    T::lemma_lo_hi();
    assert(s.subrange(0, s.len() as int) =~= s);
    assert(T::lo() <= sum_of(s.subrange(0, s.len() as int)) <= T::hi());
    lemma_wrap_in_range(T::lo(), T::hi(), sum_of(s));
}

/// A window of an array aggregates as an array built afresh from the same
/// slots: emptiness, the wrapping and checked sums, the bitwise folds, the
/// minimum and the maximum agree.
pub proof fn lemma_slice_matches_fresh<T: NativeInt>(
    array: PrimitiveArray<T>,
    offset: int,
    len: int,
    sliced: PrimitiveArray<T>,
    fresh: PrimitiveArray<T>,
)
    requires
        array.wf(),
        sliced.wf(),
        fresh.wf(),
        0 <= offset,
        0 <= len,
        offset + len <= array@.len(),
        sliced@ == array@.subrange(offset, offset + len),
        fresh@.len() == len,
        forall|i: int| 0 <= i < len ==> #[trigger] fresh@[i] == array@[offset + i],
    ensures
        all_null(sliced@) == all_null(fresh@),
        wrapping_sum(sliced@) == wrapping_sum(fresh@),
        sum_of(sliced@) == sum_of(fresh@),
        sum_overflows(sliced@) == sum_overflows(fresh@),
        forall|op: BitOp| bit_fold(op, sliced@) == bit_fold(op, fresh@),
        forall|v: T| is_min(sliced@, v) == is_min(fresh@, v),
        forall|v: T| is_max(sliced@, v) == is_max(fresh@, v),
{
    assert(sliced@ =~= fresh@);
}

/// A dictionary-encoded array aggregates as the plain array of the values its
/// keys select, null where the key or the selected value is null.
pub proof fn lemma_dictionary_matches_expanded<K: NativeInt, T: NativeInt>(
    dict: DictionaryArray<K, T>,
    expanded: PrimitiveArray<T>,
)
    requires
        dict.wf(),
        expanded.wf(),
        expanded@.len() == dict.keys@.len(),
        forall|i: int|
            0 <= i < expanded@.len() ==> #[trigger] expanded@[i] == match dict.keys@[i] {
                None => None,
                Some(k) => dict.values@[k.val()],
            },
    ensures
        all_null(dict@) == all_null(expanded@),
        wrapping_sum(dict@) == wrapping_sum(expanded@),
        sum_of(dict@) == sum_of(expanded@),
        sum_overflows(dict@) == sum_overflows(expanded@),
        forall|v: T| is_min(dict@, v) == is_min(expanded@, v),
        forall|v: T| is_max(dict@, v) == is_max(expanded@, v),
{
    assert(dict@ =~= expanded@);
}

/// Two reducers that both meet the minimum contract (`None` exactly on an
/// array without valid slots, else the smallest value) return the same
/// result; so do two that meet the maximum contract. This is how the
/// lane-parallel `simd::min` and `simd::max` agree with `min` and `max`.
pub proof fn lemma_min_max_results_agree<T: NativeInt>(
    s: Seq<Option<T>>,
    want_max: bool,
    a: Option<T>,
    b: Option<T>,
)
    requires
        a is None <==> all_null(s),
        b is None <==> all_null(s),
        a matches Some(v) ==> if want_max {
            is_max(s, v)
        } else {
            is_min(s, v)
        },
        b matches Some(v) ==> if want_max {
            is_max(s, v)
        } else {
            is_min(s, v)
        },
    ensures
        a == b,
{
    if a is Some && b is Some {
        lemma_extremes_unique(s, a->0, b->0);
    }
}

} // verus!
