//! Sums of the valid slots of a primitive array: wrapping, in parallel lanes
//! over 64-slot blocks, and overflow-checked, in slot order.
use crate::array::PrimitiveArray;
use crate::model::{all_null, count_none, lemma_count_none_bounds, sum_of, sum_overflows, wrapping_sum};
use crate::native::{lemma_wrap_congruent, lemma_wrap_idempotent, wrap, NativeInt};
use crate::nulls::{nulls_bit_chunks, nulls_valid_indices, validity, word_bit};
use vstd::prelude::*;

verus! {

/// Number of slots read together with one word of the validity bitmap.
pub const BLOCK: usize = 64;

/// Number of partial sums kept side by side; element `k` of a block goes to
/// lane `k % LANES`.
pub const LANES: usize = 16;

/// Failure of an overflow-checked aggregation.
#[derive(Clone, Copy, Debug, PartialEq, Eq, Structural)]
pub enum AggregateError {
    /// A running sum left the range of the element type.
    ArithmeticOverflow,
}

pub open spec fn wr<T: NativeInt>(x: int) -> int {
    wrap(T::lo(), T::hi(), x)
}

/// What one slot adds to a sum.
pub open spec fn contribution<T: NativeInt>(o: Option<T>) -> int {
    match o {
        Some(v) => v.val(),
        None => 0,
    }
}

/// Exact sum of the lane accumulators.
pub open spec fn lanes_total<T: NativeInt>(l: Seq<T>) -> int
    decreases l.len(),
{
    if l.len() == 0 {
        0
    } else {
        lanes_total(l.drop_last()) + l.last().val()
    }
}

proof fn lemma_lanes_total_update<T: NativeInt>(l: Seq<T>, i: int, x: T)
    requires
        0 <= i < l.len(),
    ensures
        lanes_total(l.update(i, x)) == lanes_total(l) - l[i].val() + x.val(),
    decreases l.len(),
{
    if i == l.len() - 1 {
        assert(l.update(i, x).drop_last() =~= l.drop_last());
    } else {
        assert(l.update(i, x).drop_last() =~= l.drop_last().update(i, x));
        lemma_lanes_total_update(l.drop_last(), i, x);
    }
}

proof fn lemma_lanes_total_zero<T: NativeInt>(l: Seq<T>)
    requires
        forall|i: int| 0 <= i < l.len() ==> (#[trigger] l[i]).val() == 0,
    ensures
        lanes_total(l) == 0,
    decreases l.len(),
{
    if l.len() > 0 {
        assert(l.last().val() == 0);
        lemma_lanes_total_zero(l.drop_last());
    }
}

/// The sum of the first `k + 1` slots adds slot `k` to that of the first `k`.
pub proof fn lemma_sum_step<T: NativeInt>(s: Seq<Option<T>>, k: int)
    requires
        0 <= k < s.len(),
    ensures
        sum_of(s.subrange(0, k + 1)) == sum_of(s.subrange(0, k)) + contribution(s[k]),
{
    assert(s.subrange(0, k + 1).drop_last() =~= s.subrange(0, k));
}

/// Across a run of null slots the running sum stays put.
pub proof fn lemma_sum_flat<T: NativeInt>(s: Seq<Option<T>>, a: int, b: int)
    requires
        0 <= a <= b <= s.len(),
        forall|i: int| a <= i < b ==> #[trigger] s[i] is None,
    ensures
        forall|k: int| a <= k <= b ==> #[trigger] sum_of(s.subrange(0, k)) == sum_of(s.subrange(0, a)),
    decreases b - a,
{
    if a < b {
        lemma_sum_flat(s, a, b - 1);
        lemma_sum_step(s, b - 1);
    }
}

/// Adding one more slot to a running sum kept modulo the type's range.
proof fn lemma_wr_step<T: NativeInt>(acc_before: int, acc_after: int, v: int, s: Seq<Option<T>>, k: int)
    requires
        0 <= k < s.len(),
        wr::<T>(acc_before) == wr::<T>(sum_of(s.subrange(0, k))),
        wr::<T>(acc_after) == wr::<T>(acc_before + v),
        v == contribution(s[k]),
    ensures
        wr::<T>(acc_after) == wr::<T>(sum_of(s.subrange(0, k + 1))),
{
    T::lemma_lo_hi();
    lemma_sum_step(s, k);
    lemma_wrap_congruent(T::lo(), T::hi(), acc_before, v, sum_of(s.subrange(0, k)), v);
}

/// Returns the sum of the valid slots of `array`, wrapping on overflow as the
/// element type's arithmetic does; `None` when the array is empty or every
/// slot is null.
///
/// Slots are read in blocks of `BLOCK`, each together with one word of the
/// validity bitmap, and added into `LANES` independent accumulators; a null
/// slot adds zero. The lanes are folded together at the end, then the slots
/// past the last whole block.
pub fn sum<T: NativeInt>(array: &PrimitiveArray<T>) -> (r: Option<T>)
    requires
        array.wf(),
    ensures
        r is None <==> all_null(array@),
        r matches Some(v) ==> v.val() == wrapping_sum(array@),
{
    let len = array.len();
    let null_count = array.null_count();
    proof {
        lemma_count_none_bounds(array@);
        T::lemma_lo_hi();
    }
    if null_count == len {
        return None;
    }
    let ghost s = array@;
    let masks: Option<(Vec<u64>, u64)> = match &array.nulls {
        None => None,
        Some(n) => Some(nulls_bit_chunks(n)),
    };
    let mut lanes: Vec<T> = Vec::new();
    while lanes.len() < LANES
        invariant
            lanes@.len() <= LANES,
            forall|i: int| 0 <= i < lanes@.len() ==> (#[trigger] lanes@[i]).val() == 0,
        decreases LANES - lanes@.len(),
    {
        lanes.push(T::zero());
    }
    proof {
        lemma_lanes_total_zero(lanes@);
        crate::native::lemma_wrap_in_range(T::lo(), T::hi(), 0);
        assert(s.subrange(0, 0) =~= Seq::<Option<T>>::empty());
    }
    let mut base: usize = 0;
    let mut c: usize = 0;
    while len - base >= BLOCK
        invariant
            len == s.len(),
            array.wf(),
            s == array@,
            lanes@.len() == LANES,
            base == BLOCK * c,
            base <= len,
            masks matches Some(m) ==> array.nulls matches Some(n) && m.0@.len() == len / 64
                && (forall|k: int, i: int|
                0 <= k < m.0@.len() && 0 <= i < 64 ==> #[trigger] word_bit(m.0@[k], i) == validity(
                    n,
                )[64 * k + i]),
            masks is None <==> array.nulls is None,
            wr::<T>(lanes_total(lanes@)) == wr::<T>(sum_of(s.subrange(0, base as int))),
        decreases len - base,
    {
        assert(c < len / 64) by (nonlinear_arith)
            requires
                base == 64 * c,
                base + 64 <= len,
        ;
        let mut k: usize = 0;
        while k < BLOCK
            invariant
                len == s.len(),
                array.wf(),
                s == array@,
                lanes@.len() == LANES,
                base == BLOCK * c,
                base + BLOCK <= len,
                c < len / 64,
                k <= BLOCK,
                masks matches Some(m) ==> array.nulls matches Some(n) && m.0@.len() == len / 64
                    && (forall|kk: int, i: int|
                    0 <= kk < m.0@.len() && 0 <= i < 64 ==> #[trigger] word_bit(m.0@[kk], i)
                        == validity(n)[64 * kk + i]),
                masks is None <==> array.nulls is None,
                wr::<T>(lanes_total(lanes@)) == wr::<T>(sum_of(s.subrange(0, base + k))),
            decreases BLOCK - k,
        {
            let idx = base + k;
            let v = match &masks {
                None => array.values[idx],
                Some(m) => {
                    if (m.0[c] >> (k as u64)) & 1u64 == 1u64 {
                        array.values[idx]
                    } else {
                        T::zero()
                    }
                },
            };
            let lane = k % LANES;
            let old_acc = lanes[lane];
            let acc = old_acc.add_wrapping(v);
            proof {
                T::lemma_lo_hi();
                assert(contribution(s[idx as int]) == v.val()) by {
                    if masks is Some {
                        assert(word_bit((masks->0).0@[c as int], k as int) == validity(
                            array.nulls->0,
                        )[64 * c + k]);
                    }
                }
                lemma_lanes_total_update(lanes@, lane as int, acc);
                let before = lanes_total(lanes@);
                let after = before - old_acc.val() + acc.val();
                // after == (before - old) + wrap(old + v)
                lemma_wrap_idempotent(T::lo(), T::hi(), old_acc.val() + v.val());
                lemma_wrap_congruent(
                    T::lo(),
                    T::hi(),
                    before - old_acc.val(),
                    acc.val(),
                    before - old_acc.val(),
                    old_acc.val() + v.val(),
                );
                assert(before - old_acc.val() + (old_acc.val() + v.val()) == before + v.val());
                lemma_wr_step::<T>(before, after, v.val(), s, idx as int);
            }
            lanes.set(lane, acc);
            k = k + 1;
        }
        base = base + BLOCK;
        c = c + 1;
    }
    assert(c == len / 64 && base == 64 * (len / 64)) by (nonlinear_arith)
        requires
            base == 64 * c,
            base <= len,
            base + 64 > len,
    ;
    // slots past the last whole block
    let mut rem_acc = T::zero();
    let mut i: usize = base;
    while i < len
        invariant
            len == s.len(),
            array.wf(),
            s == array@,
            base <= i <= len,
            base == 64 * (len / 64),
            masks matches Some(m) ==> array.nulls matches Some(n) && (forall|j: int|
                0 <= j < len % 64 ==> #[trigger] word_bit(m.1, j) == validity(n)[base + j]),
            masks is None <==> array.nulls is None,
            wr::<T>(lanes_total(lanes@)) == wr::<T>(sum_of(s.subrange(0, base as int))),
            wr::<T>(sum_of(s.subrange(0, base as int)) + rem_acc.val()) == wr::<T>(
                sum_of(s.subrange(0, i as int)),
            ),
        decreases len - i,
    {
        let add = match &masks {
            None => true,
            Some(m) => (m.1 >> ((i - base) as u64)) & 1u64 == 1u64,
        };
        let ghost before = rem_acc.val();
        if add {
            rem_acc = rem_acc.add_wrapping(array.values[i]);
        }
        proof {
            T::lemma_lo_hi();
            let sb = sum_of(s.subrange(0, base as int));
            assert(len % 64 == len - base);
            if masks is Some {
                assert(word_bit((masks->0).1, i - base) == validity(array.nulls->0)[base + (i
                    - base)]);
            }
            let v = contribution(s[i as int]);
            assert(add ==> v == array.values@[i as int].val());
            assert(!add ==> v == 0);
            lemma_wrap_idempotent(T::lo(), T::hi(), before + v);
            lemma_wrap_congruent(T::lo(), T::hi(), sb, rem_acc.val(), sb, before + v);
            assert(sb + (before + v) == (sb + before) + v);
            lemma_wr_step::<T>(sb + before, sb + rem_acc.val(), v, s, i as int);
        }
        i = i + 1;
    }
    // fold the lanes together
    let mut reduced = T::zero();
    proof {
        assert(lanes@.subrange(0, 0) =~= Seq::<T>::empty());
        crate::native::lemma_wrap_in_range(T::lo(), T::hi(), 0);
    }
    let mut l: usize = 0;
    while l < LANES
        invariant
            lanes@.len() == LANES,
            l <= LANES,
            reduced.val() == wr::<T>(lanes_total(lanes@.subrange(0, l as int))),
        decreases LANES - l,
    {
        proof {
            assert(lanes@.subrange(0, l + 1).drop_last() =~= lanes@.subrange(0, l as int));
            assert(lanes@.subrange(0, 0) =~= Seq::<T>::empty());
        }
        let ghost prev = reduced.val();
        reduced = reduced.add_wrapping(lanes[l]);
        proof {
            T::lemma_lo_hi();
            let t = lanes_total(lanes@.subrange(0, l as int));
            lemma_wrap_idempotent(T::lo(), T::hi(), t);
            lemma_wrap_congruent(T::lo(), T::hi(), prev, lanes@[l as int].val(), t, lanes@[l as int].val());
        }
        l = l + 1;
    }
    let total = reduced.add_wrapping(rem_acc);
    proof {
        assert(lanes@.subrange(0, LANES as int) =~= lanes@);
        assert(s.subrange(0, len as int) =~= s);
        let lt = lanes_total(lanes@);
        let sb = sum_of(s.subrange(0, base as int));
        lemma_wrap_idempotent(T::lo(), T::hi(), lt);
        lemma_wrap_congruent(T::lo(), T::hi(), reduced.val(), rem_acc.val(), sb, rem_acc.val());
    }
    Some(total)
}

/// Sum of the valid slots, failing with `ArithmeticOverflow` as soon as a
/// running sum, taken in slot order, leaves the range of the element type;
/// `Ok(None)` when the array is empty or every slot is null.
pub fn sum_checked<T: NativeInt>(array: &PrimitiveArray<T>) -> (r: Result<Option<T>, AggregateError>)
    requires
        array.wf(),
    ensures
        all_null(array@) <==> r == Ok::<Option<T>, AggregateError>(None),
        r is Err <==> !all_null(array@) && sum_overflows(array@),
        r matches Ok(Some(v)) ==> v.val() == sum_of(array@),
        r matches Err(e) ==> e == AggregateError::ArithmeticOverflow,
{
    let len = array.len();
    let null_count = array.null_count();
    proof {
        lemma_count_none_bounds(array@);
    }
    if null_count == len {
        proof {
            assert forall|k: int| 0 <= k <= len implies #[trigger] sum_of(array@.subrange(0, k))
                == 0 by {
                lemma_sum_flat(array@, 0, len as int);
                assert(array@.subrange(0, 0) =~= Seq::<Option<T>>::empty());
            }
        }
        return Ok(None);
    }
    let ghost s = array@;
    proof {
        T::lemma_lo_hi();
        assert(s.subrange(0, 0) =~= Seq::<Option<T>>::empty());
        assert(s.subrange(0, len as int) =~= s);
    }
    let mut acc = T::zero();
    match &array.nulls {
        None => {
            let mut i: usize = 0;
            while i < len
                invariant
                    len == s.len(),
                    array.wf(),
                    s == array@,
                    array.nulls is None,
                    i <= len,
                    acc.val() == sum_of(s.subrange(0, i as int)),
                    forall|k: int|
                        0 <= k <= i ==> T::lo() <= #[trigger] sum_of(s.subrange(0, k)) <= T::hi(),
                decreases len - i,
            {
                proof {
                    lemma_sum_step(s, i as int);
                    assert(s[i as int] == Some(array.values@[i as int]));
                }
                match acc.add_checked(array.values[i]) {
                    None => {
                        assert(!(T::lo() <= sum_of(s.subrange(0, i + 1)) <= T::hi()));
                        return Err(AggregateError::ArithmeticOverflow);
                    },
                    Some(v) => {
                        acc = v;
                    },
                }
                i = i + 1;
            }
        },
        Some(n) => {
            let idx = nulls_valid_indices(n);
            let mut t: usize = 0;
            let ghost mut pos: int = 0;
            while t < idx.len()
                invariant
                    len == s.len(),
                    array.wf(),
                    s == array@,
                    array.nulls == Some(*n),
                    t <= idx@.len(),
                    pos == if t == 0 {
                        0
                    } else {
                        idx@[t - 1] + 1
                    },
                    0 <= pos <= len,
                    forall|j: int, k: int| 0 <= j < k < idx@.len() ==> idx@[j] < idx@[k],
                    forall|j: int|
                        0 <= j < idx@.len() ==> #[trigger] idx@[j] < validity(*n).len()
                            && validity(*n)[idx@[j] as int],
                    forall|i: int|
                        0 <= i < validity(*n).len() && #[trigger] validity(*n)[i] ==> exists|j: int|
                            0 <= j < idx@.len() && idx@[j] == i,
                    acc.val() == sum_of(s.subrange(0, pos)),
                    forall|k: int|
                        0 <= k <= pos ==> T::lo() <= #[trigger] sum_of(s.subrange(0, k)) <= T::hi(),
                decreases idx@.len() - t,
            {
                let q = idx[t];
                proof {
                    assert(q >= pos) by {
                        if t > 0 {
                            assert(idx@[t - 1] < idx@[t as int]);
                        }
                    }
                    assert forall|i: int| pos <= i < q implies #[trigger] s[i] is None by {
                        if s[i] is Some {
                            assert(validity(*n)[i]);
                            let j = choose|j: int| 0 <= j < idx@.len() && idx@[j] == i;
                            if j < t {
                                if j < t - 1 {
                                    assert(idx@[j] < idx@[t - 1]);
                                }
                            } else if j > t {
                                assert(idx@[t as int] < idx@[j]);
                            }
                        }
                    }
                    lemma_sum_flat(s, pos, q as int);
                    lemma_sum_step(s, q as int);
                    assert(s[q as int] == Some(array.values@[q as int]));
                }
                match acc.add_checked(array.values[q]) {
                    None => {
                        assert(!(T::lo() <= sum_of(s.subrange(0, q + 1)) <= T::hi()));
                        return Err(AggregateError::ArithmeticOverflow);
                    },
                    Some(v) => {
                        acc = v;
                    },
                }
                proof {
                    pos = q + 1;
                }
                t = t + 1;
            }
            proof {
                assert forall|i: int| pos <= i < len implies #[trigger] s[i] is None by {
                    if s[i] is Some {
                        assert(validity(*n)[i]);
                        let j = choose|j: int| 0 <= j < idx@.len() && idx@[j] == i;
                        if j < t - 1 {
                            assert(idx@[j] < idx@[t - 1]);
                        }
                    }
                }
                lemma_sum_flat(s, pos, len as int);
            }
        },
    }
    Ok(Some(acc))
}

} // verus!
