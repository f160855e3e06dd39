//! Lane-parallel minimum and maximum: the array is read in blocks of `BLOCK`
//! slots, each lane keeping its own best value and whether it has seen a
//! valid slot yet, and the lanes are folded together at the end. The result
//! is the one the scalar reducer gives.
use crate::array::PrimitiveArray;
use crate::model::{all_null, is_max, is_min, lemma_count_none_bounds};
use crate::native::NativeInt;
use crate::nulls::{nulls_bit_chunks, validity, word_bit};
use crate::sum::{BLOCK, LANES};
use vstd::prelude::*;

verus! {

/// `a` strictly beats `b`: greater when `want_max`, smaller otherwise.
pub open spec fn beats<T: NativeInt>(want_max: bool, a: T, b: T) -> bool {
    if want_max {
        a.val() > b.val()
    } else {
        a.val() < b.val()
    }
}

/// `a` is at least as good as `b`.
pub open spec fn beats_or_ties<T: NativeInt>(want_max: bool, a: T, b: T) -> bool {
    !beats(want_max, b, a)
}

/// The running best of one accumulator after offering it `value`: the value
/// is taken when the accumulator has seen nothing yet or when it is strictly
/// better.
fn accumulate_scalar<T: NativeInt>(want_max: bool, best: T, seen: bool, value: T) -> (r: T)
    ensures
        r == if !seen || beats(want_max, value, best) {
            value
        } else {
            best
        },
{
    if !seen {
        value
    } else if want_max {
        if best.is_less(&value) {
            value
        } else {
            best
        }
    } else {
        if value.is_less(&best) {
            value
        } else {
            best
        }
    }
}

/// Every lane that has seen a valid slot below `p` holds the value of one of
/// them, and is at least as good as every valid slot of its lane below `p`.
pub open spec fn lanes_ok<T: NativeInt>(
    want_max: bool,
    s: Seq<Option<T>>,
    best: Seq<T>,
    seen: Seq<bool>,
    p: int,
) -> bool {
    &&& best.len() == LANES
    &&& seen.len() == LANES
    &&& forall|l: int|
        0 <= l < LANES && #[trigger] seen[l] ==> exists|j: int|
            0 <= j < p && j % 16 == l && s[j] == Some(best[l])
    &&& forall|j: int|
        0 <= j < p && #[trigger] s[j] is Some ==> seen[j % 16] && beats_or_ties(
            want_max,
            best[j % 16],
            s[j]->0,
        )
}

/// Largest (`want_max`) or smallest value among the valid slots, computed
/// lane by lane; `None` when the array is empty or every slot is null.
pub fn lane_min_max<T: NativeInt>(array: &PrimitiveArray<T>, want_max: bool) -> (r: Option<T>)
    requires
        array.wf(),
    ensures
        r is None <==> all_null(array@),
        r matches Some(v) ==> if want_max {
            is_max(array@, v)
        } else {
            is_min(array@, v)
        },
{
    let len = array.len();
    let null_count = array.null_count();
    let ghost s = array@;
    proof {
        lemma_count_none_bounds(s);
    }
    if null_count == len {
        return None;
    }
    let masks: Option<(Vec<u64>, u64)> = match &array.nulls {
        None => None,
        Some(n) => Some(nulls_bit_chunks(n)),
    };
    let mut best: Vec<T> = Vec::new();
    let mut seen: Vec<bool> = Vec::new();
    while best.len() < LANES
        invariant
            best@.len() <= LANES,
            seen@.len() == best@.len(),
            forall|l: int| 0 <= l < seen@.len() ==> !(#[trigger] seen@[l]),
        decreases LANES - best@.len(),
    {
        best.push(T::zero());
        seen.push(false);
    }
    let mut base: usize = 0;
    let mut c: usize = 0;
    while len - base >= BLOCK
        invariant
            len == s.len(),
            array.wf(),
            s == array@,
            base == BLOCK * c,
            base <= len,
            masks matches Some(m) ==> array.nulls matches Some(n) && m.0@.len() == len / 64
                && (forall|k: int, i: int|
                0 <= k < m.0@.len() && 0 <= i < 64 ==> #[trigger] word_bit(m.0@[k], i) == validity(
                    n,
                )[64 * k + i]),
            masks is None <==> array.nulls is None,
            lanes_ok(want_max, s, best@, seen@, base as int),
        decreases len - base,
    {
        assert(c < len / 64) by (nonlinear_arith)
            requires
                base == 64 * c,
                base + 64 <= len,
        ;
        let mut k: usize = 0;
        while k < BLOCK
            invariant
                len == s.len(),
                array.wf(),
                s == array@,
                base == BLOCK * c,
                base + BLOCK <= len,
                c < len / 64,
                k <= BLOCK,
                masks matches Some(m) ==> array.nulls matches Some(n) && m.0@.len() == len / 64
                    && (forall|kk: int, i: int|
                    0 <= kk < m.0@.len() && 0 <= i < 64 ==> #[trigger] word_bit(m.0@[kk], i)
                        == validity(n)[64 * kk + i]),
                masks is None <==> array.nulls is None,
                lanes_ok(want_max, s, best@, seen@, base + k),
            decreases BLOCK - k,
        {
            let idx = base + k;
            let valid = match &masks {
                None => true,
                Some(m) => (m.0[c] >> (k as u64)) & 1u64 == 1u64,
            };
            let lane = k % LANES;
            let v = array.values[idx];
            let old_best = best[lane];
            let old_seen = seen[lane];
            proof {
                assert(idx % 16 == lane) by (nonlinear_arith)
                    requires
                        idx == 64 * c + k,
                        lane == k % 16,
                ;
                if masks is Some {
                    assert(word_bit((masks->0).0@[c as int], k as int) == validity(
                        array.nulls->0,
                    )[64 * c + k]);
                }
                assert(valid <==> s[idx as int] is Some);
                assert(valid ==> s[idx as int] == Some(v));
            }
            // a lane that has seen nothing takes the slot whether or not it is
            // valid; only a valid slot marks the lane as seen
            if !old_seen || (valid && beats_exec(want_max, v, old_best)) {
                best.set(lane, v);
            }
            seen.set(lane, old_seen || valid);
            proof {
                let p = idx as int;
                assert forall|l: int| 0 <= l < LANES && #[trigger] seen@[l] implies exists|j: int|
                    0 <= j < p + 1 && j % 16 == l && s[j] == Some(best@[l]) by {
                    if l == lane as int {
                        if valid && best@[l] == v {
                            assert(s[p] == Some(best@[l]));
                        } else {
                            assert(old_seen && best@[l] == old_best);
                        }
                    }
                }
                assert forall|j: int| 0 <= j < p + 1 && #[trigger] s[j] is Some implies seen@[j % 16]
                    && beats_or_ties(want_max, best@[j % 16], s[j]->0) by {
                    if j < p && j % 16 == lane as int {
                        assert(old_seen);
                    }
                }
            }
            k = k + 1;
        }
        base = base + BLOCK;
        c = c + 1;
    }
    assert(base == 64 * (len / 64)) by (nonlinear_arith)
        requires
            base == 64 * c,
            base <= len,
            base + 64 > len,
    ;
    // slots past the last whole block go through one scalar accumulator
    let mut rem_best = T::zero();
    let mut rem_seen = false;
    let mut i: usize = base;
    while i < len
        invariant
            len == s.len(),
            array.wf(),
            s == array@,
            base <= i <= len,
            base == 64 * (len / 64),
            masks matches Some(m) ==> array.nulls matches Some(n) && (forall|j: int|
                0 <= j < len % 64 ==> #[trigger] word_bit(m.1, j) == validity(n)[base + j]),
            masks is None <==> array.nulls is None,
            lanes_ok(want_max, s, best@, seen@, base as int),
            rem_seen ==> exists|j: int| base <= j < i && s[j] == Some(rem_best),
            forall|j: int|
                base <= j < i && #[trigger] s[j] is Some ==> rem_seen && beats_or_ties(
                    want_max,
                    rem_best,
                    s[j]->0,
                ),
        decreases len - i,
    {
        let valid = match &masks {
            None => true,
            Some(m) => (m.1 >> ((i - base) as u64)) & 1u64 == 1u64,
        };
        proof {
            assert(len % 64 == len - base);
            if masks is Some {
                assert(word_bit((masks->0).1, i - base) == validity(array.nulls->0)[base + (i
                    - base)]);
            }
            assert(valid <==> s[i as int] is Some);
        }
        if valid {
            let v = array.values[i];
            proof {
                assert(s[i as int] == Some(v));
            }
            rem_best = accumulate_scalar(want_max, rem_best, rem_seen, v);
            rem_seen = true;
        }
        i = i + 1;
    }
    // fold the lanes, then the scalar accumulator
    let mut red = T::zero();
    let mut red_seen = false;
    let mut l: usize = 0;
    while l < LANES
        invariant
            best@.len() == LANES,
            seen@.len() == LANES,
            l <= LANES,
            red_seen <==> exists|m: int| 0 <= m < l && #[trigger] seen@[m],
            red_seen ==> exists|m: int| 0 <= m < l && seen@[m] && best@[m] == red,
            forall|m: int|
                0 <= m < l && #[trigger] seen@[m] ==> beats_or_ties(want_max, red, best@[m]),
        decreases LANES - l,
    {
        if seen[l] {
            red = accumulate_scalar(want_max, red, red_seen, best[l]);
            red_seen = true;
        }
        l = l + 1;
    }
    if rem_seen {
        red = accumulate_scalar(want_max, red, red_seen, rem_best);
        red_seen = true;
    }
    proof {
        assert forall|j: int| 0 <= j < s.len() && #[trigger] s[j] is Some implies beats_or_ties(
            want_max,
            red,
            s[j]->0,
        ) by {
            if j < base {
                assert(seen@[j % 16]);
            }
        }
        if red_seen {
            if exists|m: int| 0 <= m < LANES && seen@[m] && best@[m] == red {
                let m = choose|m: int| 0 <= m < LANES && seen@[m] && best@[m] == red;
                let j = choose|j: int| 0 <= j < base && j % 16 == m && s[j] == Some(best@[m]);
                assert(s[j] == Some(red));
            } else {
                let j = choose|j: int| base <= j < len && s[j] == Some(rem_best);
                assert(s[j] == Some(red));
            }
        } else {
            assert(all_null(s)) by {
                assert forall|j: int| 0 <= j < s.len() implies #[trigger] s[j] is None by {
                    if s[j] is Some && j < base {
                        assert(seen@[j % 16]);
                    }
                }
            }
        }
    }
    if red_seen {
        Some(red)
    } else {
        None
    }
}

/// Whether `a` strictly beats `b`.
fn beats_exec<T: NativeInt>(want_max: bool, a: T, b: T) -> (r: bool)
    ensures
        r == beats(want_max, a, b),
{
    if want_max {
        b.is_less(&a)
    } else {
        a.is_less(&b)
    }
}

/// Smallest value among the valid slots, computed lane by lane; `None` when
/// the array is empty or every slot is null.
pub fn min<T: NativeInt>(array: &PrimitiveArray<T>) -> (r: Option<T>)
    requires
        array.wf(),
    ensures
        r is None <==> all_null(array@),
        r matches Some(v) ==> is_min(array@, v),
{
    lane_min_max(array, false)
}

/// Largest value among the valid slots, computed lane by lane; `None` when
/// the array is empty or every slot is null.
pub fn max<T: NativeInt>(array: &PrimitiveArray<T>) -> (r: Option<T>)
    requires
        array.wf(),
    ensures
        r is None <==> all_null(array@),
        r matches Some(v) ==> is_max(array@, v),
{
    lane_min_max(array, true)
}

} // verus!
