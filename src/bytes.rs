//! Binary and string arrays, and their minimum and maximum in lexicographic
//! byte order.
use crate::minmax::{min_max_helper, ArrayAccessor, is_extreme_at};
use crate::model::{all_null, count_none, lemma_count_none_bounds, lemma_count_unset_matches};
use crate::nulls::{
    nulls_from_bools, nulls_is_valid, nulls_null_count, nulls_slice, validity,
};
use arrow_buffer::NullBuffer;
use vstd::prelude::*;
use vstd::utf8::encode_utf8;

verus! {

/// `a` sorts before `b` when compared from byte `i` on: at the first byte
/// where they differ the smaller byte wins, and a proper prefix comes first.
pub open spec fn lex_less_from(a: Seq<u8>, b: Seq<u8>, i: int) -> bool
    decreases a.len() - i,
{
    if i >= a.len() {
        i < b.len()
    } else if i >= b.len() {
        false
    } else if a[i] != b[i] {
        a[i] < b[i]
    } else {
        lex_less_from(a, b, i + 1)
    }
}

/// Lexicographic order on byte strings, as `[u8]` and `str` compare.
pub open spec fn lex_less(a: Seq<u8>, b: Seq<u8>) -> bool {
    lex_less_from(a, b, 0)
}

pub proof fn lemma_lex_irreflexive(a: Seq<u8>, i: int)
    requires
        0 <= i,
    ensures
        !lex_less_from(a, a, i),
    decreases a.len() - i,
{
    if i < a.len() {
        lemma_lex_irreflexive(a, i + 1);
    }
}

pub proof fn lemma_lex_transitive(a: Seq<u8>, b: Seq<u8>, c: Seq<u8>, i: int)
    requires
        0 <= i,
        lex_less_from(a, b, i),
        lex_less_from(b, c, i),
    ensures
        lex_less_from(a, c, i),
    decreases a.len() - i,
{
    if i < a.len() && i < b.len() && i < c.len() && a[i] == b[i] && b[i] == c[i] {
        lemma_lex_transitive(a, b, c, i + 1);
    }
}

/// Whether `a` sorts before `b`, byte by byte.
pub fn bytes_less(a: &[u8], b: &[u8]) -> (r: bool)
    ensures
        r == lex_less(a@, b@),
{
    let mut i: usize = 0;
    while i < a.len() && i < b.len()
        invariant
            i <= a@.len(),
            i <= b@.len(),
            lex_less(a@, b@) == lex_less_from(a@, b@, i as int),
        decreases a@.len() - i,
    {
        if a[i] != b[i] {
            return a[i] < b[i];
        }
        i = i + 1;
    }
    a.len() < b.len()
}

/// An array of nullable byte strings.
#[derive(Clone, Debug, PartialEq)]
pub struct BinaryArray {
    pub values: Vec<Vec<u8>>,
    pub nulls: Option<NullBuffer>,
}

impl View for BinaryArray {
    type V = Seq<Option<Seq<u8>>>;

    open spec fn view(&self) -> Seq<Option<Seq<u8>>> {
        Seq::new(
            self.values@.len(),
            |i: int|
                if self.nulls matches Some(n) && !validity(n)[i] {
                    None
                } else {
                    Some(self.values@[i]@)
                },
        )
    }
}

impl BinaryArray {
    pub open spec fn wf(&self) -> bool {
        self.nulls matches Some(n) ==> validity(n).len() == self.values@.len()
    }

    /// The array from its values and bitmap; the bitmap must be as long as the
    /// values.
    pub fn new(values: Vec<Vec<u8>>, nulls: Option<NullBuffer>) -> (r: Self)
        requires
            nulls matches Some(n) ==> validity(n).len() == values@.len(),
        ensures
            r.wf(),
            r.values@ == values@,
            r.nulls == nulls,
    {
        BinaryArray { values, nulls }
    }

    /// An array holding the given slots.
    pub fn from_options(slots: Vec<Option<Vec<u8>>>) -> (r: Self)
        ensures
            r.wf(),
            r@.len() == slots@.len(),
            forall|i: int|
                0 <= i < slots@.len() ==> #[trigger] r@[i] == match slots@[i] {
                    Some(v) => Some(v@),
                    None => None,
                },
    {
        let mut values: Vec<Vec<u8>> = Vec::new();
        let mut bits: Vec<bool> = Vec::new();
        let mut i: usize = 0;
        while i < slots.len()
            invariant
                i <= slots@.len(),
                values@.len() == i,
                bits@.len() == i,
                forall|j: int| 0 <= j < i ==> (#[trigger] bits@[j] <==> slots@[j] is Some),
                forall|j: int|
                    0 <= j < i && slots@[j] is Some ==> slots@[j]->0@ == (#[trigger] values@[j])@,
            decreases slots@.len() - i,
        {
            match &slots[i] {
                Some(v) => {
                    values.push(v.clone());
                    bits.push(true);
                },
                None => {
                    values.push(Vec::new());
                    bits.push(false);
                },
            }
            i = i + 1;
        }
        let r = BinaryArray { values, nulls: Some(nulls_from_bools(bits)) };
        assert forall|j: int| 0 <= j < slots@.len() implies #[trigger] r@[j] == match slots@[j] {
            Some(v) => Some(v@),
            None => None,
        } by {
            assert(bits@[j] <==> slots@[j] is Some);
        }
        r
    }

    pub fn len(&self) -> (r: usize)
        requires
            self.wf(),
        ensures
            r == self@.len(),
    {
        self.values.len()
    }

    pub fn null_count(&self) -> (r: usize)
        requires
            self.wf(),
        ensures
            r == count_none(self@),
    {
        proof {
            lemma_count_none_bounds(self@);
        }
        match &self.nulls {
            None => 0,
            Some(n) => {
                proof {
                    lemma_count_unset_matches(validity(*n), self@);
                }
                nulls_null_count(n)
            },
        }
    }

    pub fn is_valid(&self, i: usize) -> (r: bool)
        requires
            self.wf(),
            i < self@.len(),
        ensures
            r == self@[i as int] is Some,
    {
        match &self.nulls {
            None => true,
            Some(n) => nulls_is_valid(n, i),
        }
    }

    /// The `length` slots starting at `offset`; the window must lie within the
    /// array.
    pub fn slice(&self, offset: usize, length: usize) -> (r: Self)
        requires
            self.wf(),
            offset + length <= self@.len(),
        ensures
            r.wf(),
            r@ == self@.subrange(offset as int, offset + length),
    {
        let n = self.values.len();
        assert(offset + length <= n);
        let end = offset + length;
        let mut values: Vec<Vec<u8>> = Vec::new();
        let mut i: usize = offset;
        while i < end
            invariant
                offset <= i <= end,
                end == offset + length,
                end <= self.values@.len(),
                values@.len() == i - offset,
                forall|j: int|
                    0 <= j < i - offset ==> (#[trigger] values@[j])@ == self.values@[offset + j]@,
            decreases end - i,
        {
            values.push(self.values[i].clone());
            i = i + 1;
        }
        let nulls = match &self.nulls {
            None => None,
            Some(b) => Some(nulls_slice(b, offset, length)),
        };
        let r = BinaryArray { values, nulls };
        assert(r@ =~= self@.subrange(offset as int, offset + length));
        r
    }
}

impl ArrayAccessor for BinaryArray {
    type Item = Seq<u8>;

    open spec fn logical(&self) -> Seq<Option<Seq<u8>>> {
        self@
    }

    open spec fn well_formed(&self) -> bool {
        self.wf()
    }

    open spec fn less(a: Seq<u8>, b: Seq<u8>) -> bool {
        lex_less(a, b)
    }

    proof fn lemma_less_irreflexive(a: Seq<u8>) {
        lemma_lex_irreflexive(a, 0);
    }

    proof fn lemma_less_transitive(a: Seq<u8>, b: Seq<u8>, c: Seq<u8>) {
        lemma_lex_transitive(a, b, c, 0);
    }

    fn slot_count(&self) -> (r: usize) {
        self.len()
    }

    fn nulls_in(&self) -> (r: usize) {
        self.null_count()
    }

    fn valid_at(&self, i: usize) -> (r: bool) {
        self.is_valid(i)
    }

    fn less_at(&self, i: usize, j: usize) -> (r: bool) {
        bytes_less(self.values[i].as_slice(), self.values[j].as_slice())
    }
}

/// Largest byte string among the valid slots in lexicographic order; `None`
/// when the array is empty or every slot is null.
pub fn max_binary(array: &BinaryArray) -> (r: Option<&[u8]>)
    requires
        array.wf(),
    ensures
        r is None <==> all_null(array@),
        r matches Some(b) ==> exists|i: int|
            is_extreme_at::<BinaryArray>(array@, i, true) && array@[i] == Some(b@),
{
    match min_max_helper(array, true) {
        None => None,
        Some(i) => Some(array.values[i].as_slice()),
    }
}

/// Smallest byte string among the valid slots in lexicographic order; `None`
/// when the array is empty or every slot is null.
pub fn min_binary(array: &BinaryArray) -> (r: Option<&[u8]>)
    requires
        array.wf(),
    ensures
        r is None <==> all_null(array@),
        r matches Some(b) ==> exists|i: int|
            is_extreme_at::<BinaryArray>(array@, i, false) && array@[i] == Some(b@),
{
    match min_max_helper(array, false) {
        None => None,
        Some(i) => Some(array.values[i].as_slice()),
    }
}

/// An array of nullable UTF-8 strings.
#[derive(Clone, Debug, PartialEq)]
pub struct StringArray {
    pub values: Vec<String>,
    pub nulls: Option<NullBuffer>,
}

impl View for StringArray {
    type V = Seq<Option<Seq<char>>>;

    open spec fn view(&self) -> Seq<Option<Seq<char>>> {
        Seq::new(
            self.values@.len(),
            |i: int|
                if self.nulls matches Some(n) && !validity(n)[i] {
                    None
                } else {
                    Some(self.values@[i]@)
                },
        )
    }
}

impl StringArray {
    pub open spec fn wf(&self) -> bool {
        self.nulls matches Some(n) ==> validity(n).len() == self.values@.len()
    }

    /// The array from its values and bitmap; the bitmap must be as long as the
    /// values.
    pub fn new(values: Vec<String>, nulls: Option<NullBuffer>) -> (r: Self)
        requires
            nulls matches Some(n) ==> validity(n).len() == values@.len(),
        ensures
            r.wf(),
            r.values@ == values@,
            r.nulls == nulls,
    {
        StringArray { values, nulls }
    }

    /// An array holding the given slots.
    pub fn from_options(slots: Vec<Option<&str>>) -> (r: Self)
        ensures
            r.wf(),
            r@.len() == slots@.len(),
            forall|i: int|
                0 <= i < slots@.len() ==> #[trigger] r@[i] == match slots@[i] {
                    Some(v) => Some(v@),
                    None => None,
                },
    {
        let mut values: Vec<String> = Vec::new();
        let mut bits: Vec<bool> = Vec::new();
        let mut i: usize = 0;
        while i < slots.len()
            invariant
                i <= slots@.len(),
                values@.len() == i,
                bits@.len() == i,
                forall|j: int| 0 <= j < i ==> (#[trigger] bits@[j] <==> slots@[j] is Some),
                forall|j: int|
                    0 <= j < i && slots@[j] is Some ==> slots@[j]->0@ == (#[trigger] values@[j])@,
            decreases slots@.len() - i,
        {
            match slots[i] {
                Some(v) => {
                    values.push(v.to_owned());
                    bits.push(true);
                },
                None => {
                    values.push(String::new());
                    bits.push(false);
                },
            }
            i = i + 1;
        }
        let r = StringArray { values, nulls: Some(nulls_from_bools(bits)) };
        assert forall|j: int| 0 <= j < slots@.len() implies #[trigger] r@[j] == match slots@[j] {
            Some(v) => Some(v@),
            None => None,
        } by {
            assert(bits@[j] <==> slots@[j] is Some);
        }
        r
    }

    pub fn len(&self) -> (r: usize)
        requires
            self.wf(),
        ensures
            r == self@.len(),
    {
        self.values.len()
    }

    pub fn null_count(&self) -> (r: usize)
        requires
            self.wf(),
        ensures
            r == count_none(self@),
    {
        proof {
            lemma_count_none_bounds(self@);
        }
        match &self.nulls {
            None => 0,
            Some(n) => {
                proof {
                    lemma_count_unset_matches(validity(*n), self@);
                }
                nulls_null_count(n)
            },
        }
    }

    pub fn is_valid(&self, i: usize) -> (r: bool)
        requires
            self.wf(),
            i < self@.len(),
        ensures
            r == self@[i as int] is Some,
    {
        match &self.nulls {
            None => true,
            Some(n) => nulls_is_valid(n, i),
        }
    }

    /// The `length` slots starting at `offset`; the window must lie within the
    /// array.
    pub fn slice(&self, offset: usize, length: usize) -> (r: Self)
        requires
            self.wf(),
            offset + length <= self@.len(),
        ensures
            r.wf(),
            r@ == self@.subrange(offset as int, offset + length),
    {
        let n = self.values.len();
        assert(offset + length <= n);
        let end = offset + length;
        let mut values: Vec<String> = Vec::new();
        let mut i: usize = offset;
        while i < end
            invariant
                offset <= i <= end,
                end == offset + length,
                end <= self.values@.len(),
                values@.len() == i - offset,
                forall|j: int|
                    0 <= j < i - offset ==> (#[trigger] values@[j])@ == self.values@[offset + j]@,
            decreases end - i,
        {
            values.push(self.values[i].clone());
            i = i + 1;
        }
        let nulls = match &self.nulls {
            None => None,
            Some(b) => Some(nulls_slice(b, offset, length)),
        };
        let r = StringArray { values, nulls };
        assert(r@ =~= self@.subrange(offset as int, offset + length));
        r
    }
}

impl ArrayAccessor for StringArray {
    type Item = Seq<char>;

    open spec fn logical(&self) -> Seq<Option<Seq<char>>> {
        self@
    }

    open spec fn well_formed(&self) -> bool {
        self.wf()
    }

    open spec fn less(a: Seq<char>, b: Seq<char>) -> bool {
        lex_less(encode_utf8(a), encode_utf8(b))
    }

    proof fn lemma_less_irreflexive(a: Seq<char>) {
        lemma_lex_irreflexive(encode_utf8(a), 0);
    }

    proof fn lemma_less_transitive(a: Seq<char>, b: Seq<char>, c: Seq<char>) {
        lemma_lex_transitive(encode_utf8(a), encode_utf8(b), encode_utf8(c), 0);
    }

    fn slot_count(&self) -> (r: usize) {
        self.len()
    }

    fn nulls_in(&self) -> (r: usize) {
        self.null_count()
    }

    fn valid_at(&self, i: usize) -> (r: bool) {
        self.is_valid(i)
    }

    fn less_at(&self, i: usize, j: usize) -> (r: bool) {
        bytes_less(self.values[i].as_str().as_bytes(), self.values[j].as_str().as_bytes())
    }
}

/// Largest string among the valid slots in byte order; `None`
/// when the array is empty or every slot is null.
pub fn max_string(array: &StringArray) -> (r: Option<&str>)
    requires
        array.wf(),
    ensures
        r is None <==> all_null(array@),
        r matches Some(b) ==> exists|i: int|
            is_extreme_at::<StringArray>(array@, i, true) && array@[i] == Some(b@),
{
    match min_max_helper(array, true) {
        None => None,
        Some(i) => Some(array.values[i].as_str()),
    }
}

/// Smallest string among the valid slots in byte order; `None`
/// when the array is empty or every slot is null.
pub fn min_string(array: &StringArray) -> (r: Option<&str>)
    requires
        array.wf(),
    ensures
        r is None <==> all_null(array@),
        r matches Some(b) ==> exists|i: int|
            is_extreme_at::<StringArray>(array@, i, false) && array@[i] == Some(b@),
{
    match min_max_helper(array, false) {
        None => None,
        Some(i) => Some(array.values[i].as_str()),
    }
}

} // verus!
