//! Validity bitmaps: arrow's `NullBuffer`, one bit per slot, set for a valid
//! (non-null) slot.
use arrow_buffer::NullBuffer;
use vstd::prelude::*;

verus! {

#[verifier::external_type_specification]
#[verifier::external_body]
pub struct ExNullBuffer(NullBuffer);

/// The bits of a validity bitmap within its window, `true` for a valid slot.
pub uninterp spec fn validity(n: NullBuffer) -> Seq<bool>;

/// Number of unset (null) bits.
pub open spec fn count_unset(bits: Seq<bool>) -> nat
    decreases bits.len(),
{
    if bits.len() == 0 {
        0
    } else {
        count_unset(bits.drop_last()) + if bits.last() {
            0nat
        } else {
            1nat
        }
    }
}

/// Bit `i` of a word, counting from the least significant.
pub open spec fn word_bit(w: u64, i: int) -> bool {
    (w >> (i as u64)) & 1u64 == 1u64
}

/// Relies on `NullBuffer::null_count`: the number of unset bits, counted when
/// the buffer was made.
#[verifier::external_body]
pub(crate) fn nulls_null_count(n: &NullBuffer) -> (r: usize)
    ensures
        r == count_unset(validity(*n)),
{
    n.null_count()
}

/// Relies on `NullBuffer::is_valid`: bit `i` of the window; it panics past the
/// end.
#[verifier::external_body]
pub(crate) fn nulls_is_valid(n: &NullBuffer, i: usize) -> (r: bool)
    requires
        i < validity(*n).len(),
    ensures
        r == validity(*n)[i as int],
{
    n.is_valid(i)
}

/// Relies on `BooleanBuffer::bit_chunks` under the null buffer: the window as
/// whole 64-bit words, least significant bit first, and the remaining
/// `len % 64` bits in the low bits of one more word, the rest of it zero.
#[verifier::external_body]
pub(crate) fn nulls_bit_chunks(n: &NullBuffer) -> (r: (Vec<u64>, u64))
    ensures
        r.0@.len() == validity(*n).len() / 64,
        forall|k: int, i: int|
            0 <= k < r.0@.len() && 0 <= i < 64 ==> #[trigger] word_bit(r.0@[k], i) == validity(
                *n,
            )[64 * k + i],
        forall|i: int|
            0 <= i < validity(*n).len() % 64 ==> #[trigger] word_bit(r.1, i) == validity(*n)[64 * (
            validity(*n).len() / 64) + i],
{
    let chunks = n.inner().bit_chunks();
    (chunks.iter().collect(), chunks.remainder_bits())
}

/// Relies on `NullBuffer::valid_indices`: the positions of the set bits, in
/// increasing order.
#[verifier::external_body]
pub(crate) fn nulls_valid_indices(n: &NullBuffer) -> (r: Vec<usize>)
    ensures
        forall|j: int, k: int| 0 <= j < k < r@.len() ==> r@[j] < r@[k],
        forall|j: int|
            0 <= j < r@.len() ==> #[trigger] r@[j] < validity(*n).len() && validity(*n)[r@[j] as int],
        forall|i: int|
            0 <= i < validity(*n).len() && #[trigger] validity(*n)[i] ==> exists|j: int|
                0 <= j < r@.len() && r@[j] == i,
{
    n.valid_indices().collect()
}

/// Relies on `NullBuffer::from(Vec<bool>)`: one bit per element, in order.
#[verifier::external_body]
pub(crate) fn nulls_from_bools(bits: Vec<bool>) -> (r: NullBuffer)
    ensures
        validity(r) == bits@,
{
    NullBuffer::from(bits)
}

/// Relies on `NullBuffer::slice`: a window of `len` bits starting at `offset`;
/// it panics past the end.
#[verifier::external_body]
pub(crate) fn nulls_slice(n: &NullBuffer, offset: usize, len: usize) -> (r: NullBuffer)
    requires
        offset + len <= validity(*n).len(),
    ensures
        validity(r) == validity(*n).subrange(offset as int, offset + len),
{
    n.slice(offset, len)
}

} // verus!
