//! The mathematical meaning of the aggregations, over the logical contents of
//! an array: a sequence of slots, each either null or holding a value.
use crate::native::{BitOp, NativeInt};
use crate::nulls::count_unset;
use vstd::prelude::*;

verus! {

/// Number of null slots.
pub open spec fn count_none<T>(s: Seq<Option<T>>) -> nat
    decreases s.len(),
{
    if s.len() == 0 {
        0
    } else {
        count_none(s.drop_last()) + if s.last() is None {
            1nat
        } else {
            0nat
        }
    }
}

/// Exact (unbounded) sum of the values of the valid slots.
pub open spec fn sum_of<T: NativeInt>(s: Seq<Option<T>>) -> int
    decreases s.len(),
{
    if s.len() == 0 {
        0
    } else {
        sum_of(s.drop_last()) + match s.last() {
            Some(v) => v.val(),
            None => 0,
        }
    }
}

/// Sum of the valid slots as the element type's wrapping addition gives it.
pub open spec fn wrapping_sum<T: NativeInt>(s: Seq<Option<T>>) -> int {
    crate::native::wrap(T::lo(), T::hi(), sum_of(s))
}

/// Whether some running sum of the valid slots, taken in slot order, leaves
/// the range of the element type.
pub open spec fn sum_overflows<T: NativeInt>(s: Seq<Option<T>>) -> bool {
    exists|k: int|
        0 <= k <= s.len() && !(T::lo() <= #[trigger] sum_of(s.subrange(0, k)) <= T::hi())
}

/// Left fold of a bitwise operation over the valid slots, starting from the
/// operation's identity.
pub open spec fn bit_fold<T: NativeInt>(op: BitOp, s: Seq<Option<T>>) -> T
    decreases s.len(),
{
    if s.len() == 0 {
        T::spec_identity(op)
    } else {
        match s.last() {
            Some(v) => T::spec_bit(op, bit_fold(op, s.drop_last()), v),
            None => bit_fold(op, s.drop_last()),
        }
    }
}

/// Whether every slot is null (in particular, when there are none).
pub open spec fn all_null<T>(s: Seq<Option<T>>) -> bool {
    forall|i: int| 0 <= i < s.len() ==> #[trigger] s[i] is None
}

/// A count of null slots equal to the length means every slot is null, and a
/// count of zero means none is.
pub proof fn lemma_count_none_bounds<T>(s: Seq<Option<T>>)
    ensures
        count_none(s) <= s.len(),
        count_none(s) == s.len() <==> all_null(s),
        count_none(s) == 0 <==> forall|i: int| 0 <= i < s.len() ==> #[trigger] s[i] is Some,
    decreases s.len(),
{
    if s.len() > 0 {
        lemma_count_none_bounds(s.drop_last());
        let p = s.drop_last();
        assert forall|i: int| 0 <= i < p.len() implies p[i] == s[i] by {}
        if count_none(s) == s.len() {
            assert forall|i: int| 0 <= i < s.len() implies #[trigger] s[i] is None by {
                if i < p.len() {
                    assert(p[i] is None);
                }
            }
        }
        if all_null(s) {
            assert(all_null(p)) by {
                assert forall|i: int| 0 <= i < p.len() implies #[trigger] p[i] is None by {
                    assert(s[i] is None);
                }
            }
        }
        if count_none(s) == 0 {
            assert forall|i: int| 0 <= i < s.len() implies #[trigger] s[i] is Some by {
                if i < p.len() {
                    assert(p[i] is Some);
                }
            }
        }
        if forall|i: int| 0 <= i < s.len() ==> #[trigger] s[i] is Some {
            assert forall|i: int| 0 <= i < p.len() implies #[trigger] p[i] is Some by {
                assert(s[i] is Some);
            }
        }
    }
}

/// Counting unset bits of a bitmap counts the null slots it describes.
pub proof fn lemma_count_unset_matches<T>(bits: Seq<bool>, s: Seq<Option<T>>)
    requires
        bits.len() == s.len(),
        forall|i: int| 0 <= i < s.len() ==> (#[trigger] s[i] is Some <==> bits[i]),
    ensures
        count_unset(bits) == count_none(s),
    decreases s.len(),
{
    if s.len() > 0 {
        let (b, p) = (bits.drop_last(), s.drop_last());
        assert forall|i: int| 0 <= i < p.len() implies (#[trigger] p[i] is Some <==> b[i]) by {
            assert(s[i] is Some <==> bits[i]);
        }
        lemma_count_unset_matches(b, p);
        assert(s[s.len() - 1] is Some <==> bits[s.len() - 1]);
    }
}

/// `v` is the smallest value among the valid slots.
pub open spec fn is_min<T: NativeInt>(s: Seq<Option<T>>, v: T) -> bool {
    &&& s.contains(Some(v))
    &&& forall|j: int| 0 <= j < s.len() && #[trigger] s[j] is Some ==> v.val() <= s[j]->0.val()
}

/// `v` is the largest value among the valid slots.
pub open spec fn is_max<T: NativeInt>(s: Seq<Option<T>>, v: T) -> bool {
    &&& s.contains(Some(v))
    &&& forall|j: int| 0 <= j < s.len() && #[trigger] s[j] is Some ==> s[j]->0.val() <= v.val()
}

} // verus!
