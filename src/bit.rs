//! Bitwise AND, OR and XOR of the valid slots of a primitive array.
use crate::array::PrimitiveArray;
use crate::model::{all_null, bit_fold, lemma_count_none_bounds};
use crate::native::{BitOp, NativeInt};
use crate::nulls::{nulls_bit_chunks, validity, word_bit};
use crate::sum::BLOCK;
use vstd::prelude::*;

verus! {

/// Folding one more slot into a bitwise fold.
pub proof fn lemma_bit_fold_step<T: NativeInt>(op: BitOp, s: Seq<Option<T>>, k: int)
    requires
        0 <= k < s.len(),
    ensures
        bit_fold(op, s.subrange(0, k + 1)) == match s[k] {
            Some(v) => T::spec_bit(op, bit_fold(op, s.subrange(0, k)), v),
            None => bit_fold(op, s.subrange(0, k)),
        },
{
    assert(s.subrange(0, k + 1).drop_last() =~= s.subrange(0, k));
}

/// Folds `op` over the valid slots of `array` in slot order, starting from
/// the operation's identity; `None` when the array is empty or every slot is
/// null.
///
/// With a bitmap, slots are read in blocks of `BLOCK` against one bitmap word
/// each, then the slots past the last whole block against the remainder bits.
pub fn bit_operation<T: NativeInt>(array: &PrimitiveArray<T>, op: BitOp) -> (r: Option<T>)
    requires
        array.wf(),
    ensures
        r is None <==> all_null(array@),
        r matches Some(v) ==> v == bit_fold(op, array@),
{
    let len = array.len();
    let null_count = array.null_count();
    proof {
        lemma_count_none_bounds(array@);
    }
    if null_count == len {
        return None;
    }
    let ghost s = array@;
    proof {
        assert(s.subrange(0, 0) =~= Seq::<Option<T>>::empty());
        assert(s.subrange(0, len as int) =~= s);
    }
    let mut result = T::identity(op);
    match &array.nulls {
        None => {
            let mut i: usize = 0;
            while i < len
                invariant
                    len == s.len(),
                    array.wf(),
                    s == array@,
                    array.nulls is None,
                    i <= len,
                    result == bit_fold(op, s.subrange(0, i as int)),
                decreases len - i,
            {
                proof {
                    lemma_bit_fold_step(op, s, i as int);
                    assert(s[i as int] == Some(array.values@[i as int]));
                }
                result = T::bit(op, result, array.values[i]);
                i = i + 1;
            }
        },
        Some(n) => {
            let (words, remainder_bits) = nulls_bit_chunks(n);
            let mut base: usize = 0;
            let mut c: usize = 0;
            while c < words.len()
                invariant
                    len == s.len(),
                    array.wf(),
                    s == array@,
                    array.nulls == Some(*n),
                    words@.len() == len / 64,
                    forall|k: int, i: int|
                        0 <= k < words@.len() && 0 <= i < 64 ==> #[trigger] word_bit(words@[k], i)
                            == validity(*n)[64 * k + i],
                    c <= words@.len(),
                    base == BLOCK * c,
                    result == bit_fold(op, s.subrange(0, base as int)),
                decreases words@.len() - c,
            {
                assert(base + 64 <= len) by (nonlinear_arith)
                    requires
                        base == 64 * c,
                        c < len / 64,
                ;
                let mask = words[c];
                let mut k: usize = 0;
                while k < BLOCK
                    invariant
                        len == s.len(),
                        array.wf(),
                        s == array@,
                        array.nulls == Some(*n),
                        c < words@.len(),
                        mask == words@[c as int],
                        forall|i: int| 0 <= i < 64 ==> #[trigger] word_bit(mask, i) == validity(*n)[64 * c + i],
                        base == BLOCK * c,
                        base + BLOCK <= len,
                        k <= BLOCK,
                        result == bit_fold(op, s.subrange(0, base + k)),
                    decreases BLOCK - k,
                {
                    proof {
                        assert(word_bit(mask, k as int) == validity(*n)[64 * c + k]);
                        lemma_bit_fold_step(op, s, base + k);
                    }
                    if (mask >> (k as u64)) & 1u64 == 1u64 {
                        result = T::bit(op, result, array.values[base + k]);
                    }
                    k = k + 1;
                }
                base = base + BLOCK;
                c = c + 1;
            }
            assert(base == 64 * (len / 64)) by (nonlinear_arith)
                requires
                    base == 64 * c,
                    c == len / 64,
            ;
            let mut i: usize = base;
            while i < len
                invariant
                    len == s.len(),
                    array.wf(),
                    s == array@,
                    array.nulls == Some(*n),
                    base == 64 * (len / 64),
                    base <= i <= len,
                    forall|j: int|
                        0 <= j < len % 64 ==> #[trigger] word_bit(remainder_bits, j) == validity(
                            *n,
                        )[base + j],
                    result == bit_fold(op, s.subrange(0, i as int)),
                decreases len - i,
            {
                proof {
                    assert(len % 64 == len - base);
                    assert(word_bit(remainder_bits, i - base) == validity(*n)[base + (i - base)]);
                    lemma_bit_fold_step(op, s, i as int);
                }
                if (remainder_bits >> ((i - base) as u64)) & 1u64 == 1u64 {
                    result = T::bit(op, result, array.values[i]);
                }
                i = i + 1;
            }
        },
    }
    Some(result)
}

/// Bitwise AND of the valid slots; `None` when the array is empty or every
/// slot is null.
pub fn bit_and<T: NativeInt>(array: &PrimitiveArray<T>) -> (r: Option<T>)
    requires
        array.wf(),
    ensures
        r is None <==> all_null(array@),
        r matches Some(v) ==> v == bit_fold(BitOp::And, array@),
{
    bit_operation(array, BitOp::And)
}

/// Bitwise OR of the valid slots; `None` when the array is empty or every slot
/// is null.
pub fn bit_or<T: NativeInt>(array: &PrimitiveArray<T>) -> (r: Option<T>)
    requires
        array.wf(),
    ensures
        r is None <==> all_null(array@),
        r matches Some(v) ==> v == bit_fold(BitOp::Or, array@),
{
    bit_operation(array, BitOp::Or)
}

/// Bitwise XOR of the valid slots; `None` when the array is empty or every
/// slot is null.
pub fn bit_xor<T: NativeInt>(array: &PrimitiveArray<T>) -> (r: Option<T>)
    requires
        array.wf(),
    ensures
        r is None <==> all_null(array@),
        r matches Some(v) ==> v == bit_fold(BitOp::Xor, array@),
{
    bit_operation(array, BitOp::Xor)
}

} // verus!
