//! Aggregations over arrow's boolean arrays: minimum, maximum, and the
//! logical AND and OR of the valid slots.
use crate::model::{all_null, count_none, lemma_count_none_bounds};
use arrow_array::{Array, BooleanArray};
use vstd::prelude::*;

verus! {

#[verifier::external_type_specification]
#[verifier::external_body]
pub struct ExBooleanArray(BooleanArray);

/// The slots of a boolean array, `None` for a null slot.
pub uninterp spec fn bool_slots(a: BooleanArray) -> Seq<Option<bool>>;

/// Number of valid slots holding `v`.
pub open spec fn count_value(s: Seq<Option<bool>>, v: bool) -> nat
    decreases s.len(),
{
    if s.len() == 0 {
        0
    } else {
        count_value(s.drop_last(), v) + if s.last() == Some(v) {
            1nat
        } else {
            0nat
        }
    }
}

pub proof fn lemma_count_value_zero(s: Seq<Option<bool>>, v: bool)
    ensures
        count_value(s, v) == 0 <==> !s.contains(Some(v)),
    decreases s.len(),
{
    if s.len() > 0 {
        let p = s.drop_last();
        lemma_count_value_zero(p, v);
        if p.contains(Some(v)) {
            let j = choose|j: int| 0 <= j < p.len() && p[j] == Some(v);
            assert(s[j] == Some(v));
        }
        if s.contains(Some(v)) && s.last() != Some(v) {
            let j = choose|j: int| 0 <= j < s.len() && s[j] == Some(v);
            assert(p[j] == Some(v));
        }
        if s.last() == Some(v) {
            assert(s[s.len() - 1] == Some(v));
        }
    }
}

/// Relies on `BooleanArray::len`: the number of slots.
#[verifier::external_body]
fn bool_len(a: &BooleanArray) -> (r: usize)
    ensures
        r == bool_slots(*a).len(),
{
    a.len()
}

/// Relies on `Array::null_count` of a boolean array: the null count of its
/// null buffer, zero without one.
#[verifier::external_body]
fn bool_null_count(a: &BooleanArray) -> (r: usize)
    ensures
        r == count_none(bool_slots(*a)),
{
    a.null_count()
}

/// Relies on `Array::is_valid` of a boolean array: whether slot `i` is
/// valid; it panics past the end.
#[verifier::external_body]
fn bool_is_valid(a: &BooleanArray, i: usize) -> (r: bool)
    requires
        i < bool_slots(*a).len(),
    ensures
        r == bool_slots(*a)[i as int] is Some,
{
    a.is_valid(i)
}

/// Relies on `BooleanArray::value`: the bit stored in slot `i`, which for a
/// valid slot is its value; it panics past the end.
#[verifier::external_body]
fn bool_value(a: &BooleanArray, i: usize) -> (r: bool)
    requires
        i < bool_slots(*a).len(),
    ensures
        bool_slots(*a)[i as int] matches Some(b) ==> r == b,
{
    a.value(i)
}

/// Relies on `BooleanArray::true_count`: the number of valid `true` slots.
#[verifier::external_body]
fn bool_true_count(a: &BooleanArray) -> (r: usize)
    ensures
        r == count_value(bool_slots(*a), true),
{
    a.true_count()
}

/// Relies on `BooleanArray::false_count`: the number of valid `false` slots.
#[verifier::external_body]
fn bool_false_count(a: &BooleanArray) -> (r: usize)
    ensures
        r == count_value(bool_slots(*a), false),
{
    a.false_count()
}

/// Position of the first valid slot holding `v`, if any.
fn find_first(array: &BooleanArray, v: bool) -> (r: Option<usize>)
    ensures
        r is None <==> !bool_slots(*array).contains(Some(v)),
        r matches Some(i) ==> i < bool_slots(*array).len() && bool_slots(*array)[i as int] == Some(v),
{
    let len = bool_len(array);
    let ghost s = bool_slots(*array);
    let mut i: usize = 0;
    while i < len
        invariant
            s == bool_slots(*array),
            len == s.len(),
            i <= len,
            forall|j: int| 0 <= j < i ==> #[trigger] s[j] != Some(v),
        decreases len - i,
    {
        if bool_is_valid(array, i) && bool_value(array, i) == v {
            return Some(i);
        }
        i = i + 1;
    }
    None
}

/// The smallest valid value, `false` sorting before `true`; `None` when the
/// array is empty or every slot is null. The scan stops at the first valid
/// `false`.
pub fn min_boolean(array: &BooleanArray) -> (r: Option<bool>)
    ensures
        all_null(bool_slots(*array)) ==> r is None,
        !all_null(bool_slots(*array)) ==> r == Some(!bool_slots(*array).contains(Some(false))),
{
    proof {
        lemma_count_none_bounds(bool_slots(*array));
    }
    if bool_null_count(array) == bool_len(array) {
        return None;
    }
    match find_first(array, false) {
        Some(_) => Some(false),
        None => Some(true),
    }
}

/// The largest valid value, `true` sorting after `false`; `None` when the
/// array is empty or every slot is null. The scan stops at the first valid
/// `true`.
pub fn max_boolean(array: &BooleanArray) -> (r: Option<bool>)
    ensures
        all_null(bool_slots(*array)) ==> r is None,
        !all_null(bool_slots(*array)) ==> r == Some(bool_slots(*array).contains(Some(true))),
{
    proof {
        lemma_count_none_bounds(bool_slots(*array));
    }
    if bool_null_count(array) == bool_len(array) {
        return None;
    }
    match find_first(array, true) {
        Some(_) => Some(true),
        None => Some(false),
    }
}

/// Whether every valid slot is `true`; `None` when the array is empty or
/// every slot is null.
pub fn bool_and(array: &BooleanArray) -> (r: Option<bool>)
    ensures
        all_null(bool_slots(*array)) ==> r is None,
        !all_null(bool_slots(*array)) ==> r == Some(!bool_slots(*array).contains(Some(false))),
{
    proof {
        lemma_count_none_bounds(bool_slots(*array));
        lemma_count_value_zero(bool_slots(*array), false);
    }
    if bool_null_count(array) == bool_len(array) {
        return None;
    }
    Some(bool_false_count(array) == 0)
}

/// Whether some valid slot is `true`; `None` when the array is empty or every
/// slot is null.
pub fn bool_or(array: &BooleanArray) -> (r: Option<bool>)
    ensures
        all_null(bool_slots(*array)) ==> r is None,
        !all_null(bool_slots(*array)) ==> r == Some(bool_slots(*array).contains(Some(true))),
{
    proof {
        lemma_count_none_bounds(bool_slots(*array));
        lemma_count_value_zero(bool_slots(*array), true);
    }
    if bool_null_count(array) == bool_len(array) {
        return None;
    }
    Some(bool_true_count(array) != 0)
}

} // verus!
