//! Integer element types of a column and the arithmetic the kernels need.
use vstd::arithmetic::div_mod::{lemma_add_mod_noop, lemma_mod_bound, lemma_mod_twice};
use vstd::prelude::*;

verus! {

/// Bitwise fold selected by a bit-aggregation kernel.
#[derive(Clone, Copy, Debug, PartialEq, Eq, Structural)]
pub enum BitOp {
    And,
    Or,
    Xor,
}

/// `x` reduced into the range `lo..=hi` modulo the range's size, as wrapping
/// arithmetic on an integer type with that range does.
pub open spec fn wrap(lo: int, hi: int, x: int) -> int {
    lo + (x - lo) % (hi - lo + 1)
}

/// Wrapping after every step of a sum equals wrapping once at the end.
pub proof fn lemma_wrap_add(lo: int, hi: int, a: int, b: int)
    requires
        lo < hi,
    ensures
        wrap(lo, hi, wrap(lo, hi, a) + b) == wrap(lo, hi, a + b),
{
    let m = hi - lo + 1;
    lemma_add_mod_noop(a - lo, b, m);
    lemma_mod_twice(a - lo, m);
    lemma_mod_bound(b, m);
    assert((wrap(lo, hi, a) + b - lo) == (a - lo) % m + b);
    lemma_add_mod_noop((a - lo) % m, b, m);
}

/// Wrapping is a congruence: operands equal after wrapping give sums equal
/// after wrapping.
pub proof fn lemma_wrap_congruent(lo: int, hi: int, a: int, b: int, c: int, d: int)
    requires
        lo < hi,
        wrap(lo, hi, a) == wrap(lo, hi, c),
        wrap(lo, hi, b) == wrap(lo, hi, d),
    ensures
        wrap(lo, hi, a + b) == wrap(lo, hi, c + d),
{
    lemma_wrap_add(lo, hi, a, b);
    lemma_wrap_add(lo, hi, c, b);
    lemma_wrap_add(lo, hi, b, c);
    lemma_wrap_add(lo, hi, d, c);
    assert(b + c == c + b);
    assert(d + c == c + d);
}

/// Wrapping twice is wrapping once.
pub proof fn lemma_wrap_idempotent(lo: int, hi: int, x: int)
    requires
        lo < hi,
    ensures
        wrap(lo, hi, wrap(lo, hi, x)) == wrap(lo, hi, x),
{
    lemma_wrap_add(lo, hi, x, 0);
}

/// A value already in range is unchanged by wrapping.
pub proof fn lemma_wrap_in_range(lo: int, hi: int, x: int)
    requires
        lo < hi,
        lo <= x <= hi,
    ensures
        wrap(lo, hi, x) == x,
{
    vstd::arithmetic::div_mod::lemma_small_mod((x - lo) as nat, (hi - lo + 1) as nat);
}

/// A fixed-width integer that can be an element of a numeric column.
pub trait NativeInt: Copy + Sized {
    /// The mathematical value of the element.
    spec fn val(self) -> int;

    /// Smallest value of the type.
    spec fn lo() -> int;

    /// Largest value of the type.
    spec fn hi() -> int;

    /// Result of a bitwise operation on two elements.
    spec fn spec_bit(op: BitOp, a: Self, b: Self) -> Self;

    /// Identity element of a bitwise operation: all bits set for `And`, none
    /// for `Or` and `Xor`.
    spec fn spec_identity(op: BitOp) -> Self;

    proof fn lemma_lo_hi()
        ensures
            Self::lo() <= 0 < Self::hi(),
    ;

    proof fn lemma_val_injective(a: Self, b: Self)
        ensures
            a.val() == b.val() ==> a == b,
    ;

    fn zero() -> (r: Self)
        ensures
            r.val() == 0,
    ;

    fn identity(op: BitOp) -> (r: Self)
        ensures
            r == Self::spec_identity(op),
    ;

    fn add_wrapping(self, o: Self) -> (r: Self)
        ensures
            r.val() == wrap(Self::lo(), Self::hi(), self.val() + o.val()),
    ;

    fn add_checked(self, o: Self) -> (r: Option<Self>)
        ensures
            Self::lo() <= self.val() + o.val() <= Self::hi() <==> r is Some,
            r matches Some(v) ==> v.val() == self.val() + o.val(),
    ;

    fn is_less(&self, o: &Self) -> (r: bool)
        ensures
            r == (self.val() < o.val()),
    ;

    fn bit(op: BitOp, a: Self, b: Self) -> (r: Self)
        ensures
            r == Self::spec_bit(op, a, b),
    ;

    /// Whether the element is a position below `len`.
    fn index_below(self, len: usize) -> (r: bool)
        ensures
            r == (0 <= self.val() < len),
    ;

    /// The element as a position, for a dictionary key.
    fn to_index(self) -> (r: usize)
        requires
            0 <= self.val() <= usize::MAX,
        ensures
            r == self.val(),
    ;
}

impl NativeInt for i8 {
    open spec fn val(self) -> int {
        self as int
    }

    open spec fn lo() -> int {
        i8::MIN as int
    }

    open spec fn hi() -> int {
        i8::MAX as int
    }

    open spec fn spec_bit(op: BitOp, a: Self, b: Self) -> Self {
        match op {
            BitOp::And => a & b,
            BitOp::Or => a | b,
            BitOp::Xor => a ^ b,
        }
    }

    open spec fn spec_identity(op: BitOp) -> Self {
        match op {
            BitOp::And => -1i8,
            _ => 0i8,
        }
    }

    proof fn lemma_lo_hi() {
    }

    proof fn lemma_val_injective(a: Self, b: Self) {
    }

    fn zero() -> (r: Self) {
        0
    }

    fn identity(op: BitOp) -> (r: Self) {
        match op {
            BitOp::And => -1,
            _ => 0,
        }
    }

    fn add_wrapping(self, o: Self) -> (r: Self) {
        let r = self.wrapping_add(o);
        proof {
            let m: int = 0x100;
            let s = self as int + o as int;
            if s > i8::MAX {
                vstd::arithmetic::div_mod::lemma_mod_sub_multiples_vanish(s - i8::MIN, m);
                lemma_wrap_in_range(i8::MIN as int, i8::MAX as int, s - m);
                assert(wrap(i8::MIN as int, i8::MAX as int, s - m) == wrap(i8::MIN as int, i8::MAX as int, s));
            } else if s < i8::MIN {
                vstd::arithmetic::div_mod::lemma_mod_add_multiples_vanish(s - i8::MIN, m);
                lemma_wrap_in_range(i8::MIN as int, i8::MAX as int, s + m);
            } else {
                lemma_wrap_in_range(i8::MIN as int, i8::MAX as int, s);
            }
        }
        r
    }

    fn add_checked(self, o: Self) -> (r: Option<Self>) {
        self.checked_add(o)
    }

    fn is_less(&self, o: &Self) -> (r: bool) {
        *self < *o
    }

    fn bit(op: BitOp, a: Self, b: Self) -> (r: Self) {
        match op {
            BitOp::And => a & b,
            BitOp::Or => a | b,
            BitOp::Xor => a ^ b,
        }
    }

    fn to_index(self) -> (r: usize) {
        self as usize
    }

    fn index_below(self, len: usize) -> (r: bool) {
        self >= 0 && (self as u64) < (len as u64)
    }
}

impl NativeInt for i16 {
    open spec fn val(self) -> int {
        self as int
    }

    open spec fn lo() -> int {
        i16::MIN as int
    }

    open spec fn hi() -> int {
        i16::MAX as int
    }

    open spec fn spec_bit(op: BitOp, a: Self, b: Self) -> Self {
        match op {
            BitOp::And => a & b,
            BitOp::Or => a | b,
            BitOp::Xor => a ^ b,
        }
    }

    open spec fn spec_identity(op: BitOp) -> Self {
        match op {
            BitOp::And => -1i16,
            _ => 0i16,
        }
    }

    proof fn lemma_lo_hi() {
    }

    proof fn lemma_val_injective(a: Self, b: Self) {
    }

    fn zero() -> (r: Self) {
        0
    }

    fn identity(op: BitOp) -> (r: Self) {
        match op {
            BitOp::And => -1,
            _ => 0,
        }
    }

    fn add_wrapping(self, o: Self) -> (r: Self) {
        let r = self.wrapping_add(o);
        proof {
            let m: int = 0x1_0000;
            let s = self as int + o as int;
            if s > i16::MAX {
                vstd::arithmetic::div_mod::lemma_mod_sub_multiples_vanish(s - i16::MIN, m);
                lemma_wrap_in_range(i16::MIN as int, i16::MAX as int, s - m);
                assert(wrap(i16::MIN as int, i16::MAX as int, s - m) == wrap(i16::MIN as int, i16::MAX as int, s));
            } else if s < i16::MIN {
                vstd::arithmetic::div_mod::lemma_mod_add_multiples_vanish(s - i16::MIN, m);
                lemma_wrap_in_range(i16::MIN as int, i16::MAX as int, s + m);
            } else {
                lemma_wrap_in_range(i16::MIN as int, i16::MAX as int, s);
            }
        }
        r
    }

    fn add_checked(self, o: Self) -> (r: Option<Self>) {
        self.checked_add(o)
    }

    fn is_less(&self, o: &Self) -> (r: bool) {
        *self < *o
    }

    fn bit(op: BitOp, a: Self, b: Self) -> (r: Self) {
        match op {
            BitOp::And => a & b,
            BitOp::Or => a | b,
            BitOp::Xor => a ^ b,
        }
    }

    fn to_index(self) -> (r: usize) {
        self as usize
    }

    fn index_below(self, len: usize) -> (r: bool) {
        self >= 0 && (self as u64) < (len as u64)
    }
}

impl NativeInt for i32 {
    open spec fn val(self) -> int {
        self as int
    }

    open spec fn lo() -> int {
        i32::MIN as int
    }

    open spec fn hi() -> int {
        i32::MAX as int
    }

    open spec fn spec_bit(op: BitOp, a: Self, b: Self) -> Self {
        match op {
            BitOp::And => a & b,
            BitOp::Or => a | b,
            BitOp::Xor => a ^ b,
        }
    }

    open spec fn spec_identity(op: BitOp) -> Self {
        match op {
            BitOp::And => -1i32,
            _ => 0i32,
        }
    }

    proof fn lemma_lo_hi() {
    }

    proof fn lemma_val_injective(a: Self, b: Self) {
    }

    fn zero() -> (r: Self) {
        0
    }

    fn identity(op: BitOp) -> (r: Self) {
        match op {
            BitOp::And => -1,
            _ => 0,
        }
    }

    fn add_wrapping(self, o: Self) -> (r: Self) {
        let r = self.wrapping_add(o);
        proof {
            let m: int = 0x1_0000_0000;
            let s = self as int + o as int;
            if s > i32::MAX {
                vstd::arithmetic::div_mod::lemma_mod_sub_multiples_vanish(s - i32::MIN, m);
                lemma_wrap_in_range(i32::MIN as int, i32::MAX as int, s - m);
                assert(wrap(i32::MIN as int, i32::MAX as int, s - m) == wrap(i32::MIN as int, i32::MAX as int, s));
            } else if s < i32::MIN {
                vstd::arithmetic::div_mod::lemma_mod_add_multiples_vanish(s - i32::MIN, m);
                lemma_wrap_in_range(i32::MIN as int, i32::MAX as int, s + m);
            } else {
                lemma_wrap_in_range(i32::MIN as int, i32::MAX as int, s);
            }
        }
        r
    }

    fn add_checked(self, o: Self) -> (r: Option<Self>) {
        self.checked_add(o)
    }

    fn is_less(&self, o: &Self) -> (r: bool) {
        *self < *o
    }

    fn bit(op: BitOp, a: Self, b: Self) -> (r: Self) {
        match op {
            BitOp::And => a & b,
            BitOp::Or => a | b,
            BitOp::Xor => a ^ b,
        }
    }

    fn to_index(self) -> (r: usize) {
        self as usize
    }

    fn index_below(self, len: usize) -> (r: bool) {
        self >= 0 && (self as u64) < (len as u64)
    }
}

impl NativeInt for i64 {
    open spec fn val(self) -> int {
        self as int
    }

    open spec fn lo() -> int {
        i64::MIN as int
    }

    open spec fn hi() -> int {
        i64::MAX as int
    }

    open spec fn spec_bit(op: BitOp, a: Self, b: Self) -> Self {
        match op {
            BitOp::And => a & b,
            BitOp::Or => a | b,
            BitOp::Xor => a ^ b,
        }
    }

    open spec fn spec_identity(op: BitOp) -> Self {
        match op {
            BitOp::And => -1i64,
            _ => 0i64,
        }
    }

    proof fn lemma_lo_hi() {
    }

    proof fn lemma_val_injective(a: Self, b: Self) {
    }

    fn zero() -> (r: Self) {
        0
    }

    fn identity(op: BitOp) -> (r: Self) {
        match op {
            BitOp::And => -1,
            _ => 0,
        }
    }

    fn add_wrapping(self, o: Self) -> (r: Self) {
        let r = self.wrapping_add(o);
        proof {
            let m: int = 0x1_0000_0000_0000_0000;
            let s = self as int + o as int;
            if s > i64::MAX {
                vstd::arithmetic::div_mod::lemma_mod_sub_multiples_vanish(s - i64::MIN, m);
                lemma_wrap_in_range(i64::MIN as int, i64::MAX as int, s - m);
                assert(wrap(i64::MIN as int, i64::MAX as int, s - m) == wrap(i64::MIN as int, i64::MAX as int, s));
            } else if s < i64::MIN {
                vstd::arithmetic::div_mod::lemma_mod_add_multiples_vanish(s - i64::MIN, m);
                lemma_wrap_in_range(i64::MIN as int, i64::MAX as int, s + m);
            } else {
                lemma_wrap_in_range(i64::MIN as int, i64::MAX as int, s);
            }
        }
        r
    }

    fn add_checked(self, o: Self) -> (r: Option<Self>) {
        self.checked_add(o)
    }

    fn is_less(&self, o: &Self) -> (r: bool) {
        *self < *o
    }

    fn bit(op: BitOp, a: Self, b: Self) -> (r: Self) {
        match op {
            BitOp::And => a & b,
            BitOp::Or => a | b,
            BitOp::Xor => a ^ b,
        }
    }

    fn to_index(self) -> (r: usize) {
        self as usize
    }

    fn index_below(self, len: usize) -> (r: bool) {
        self >= 0 && (self as u64) < (len as u64)
    }
}

impl NativeInt for u8 {
    open spec fn val(self) -> int {
        self as int
    }

    open spec fn lo() -> int {
        u8::MIN as int
    }

    open spec fn hi() -> int {
        u8::MAX as int
    }

    open spec fn spec_bit(op: BitOp, a: Self, b: Self) -> Self {
        match op {
            BitOp::And => a & b,
            BitOp::Or => a | b,
            BitOp::Xor => a ^ b,
        }
    }

    open spec fn spec_identity(op: BitOp) -> Self {
        match op {
            BitOp::And => u8::MAX,
            _ => 0u8,
        }
    }

    proof fn lemma_lo_hi() {
    }

    proof fn lemma_val_injective(a: Self, b: Self) {
    }

    fn zero() -> (r: Self) {
        0
    }

    fn identity(op: BitOp) -> (r: Self) {
        match op {
            BitOp::And => u8::MAX,
            _ => 0,
        }
    }

    fn add_wrapping(self, o: Self) -> (r: Self) {
        let r = self.wrapping_add(o);
        proof {
            let m: int = 0x100;
            let s = self as int + o as int;
            if s > u8::MAX {
                vstd::arithmetic::div_mod::lemma_mod_sub_multiples_vanish(s - u8::MIN, m);
                lemma_wrap_in_range(u8::MIN as int, u8::MAX as int, s - m);
                assert(wrap(u8::MIN as int, u8::MAX as int, s - m) == wrap(u8::MIN as int, u8::MAX as int, s));
            } else if s < u8::MIN {
                vstd::arithmetic::div_mod::lemma_mod_add_multiples_vanish(s - u8::MIN, m);
                lemma_wrap_in_range(u8::MIN as int, u8::MAX as int, s + m);
            } else {
                lemma_wrap_in_range(u8::MIN as int, u8::MAX as int, s);
            }
        }
        r
    }

    fn add_checked(self, o: Self) -> (r: Option<Self>) {
        self.checked_add(o)
    }

    fn is_less(&self, o: &Self) -> (r: bool) {
        *self < *o
    }

    fn bit(op: BitOp, a: Self, b: Self) -> (r: Self) {
        match op {
            BitOp::And => a & b,
            BitOp::Or => a | b,
            BitOp::Xor => a ^ b,
        }
    }

    fn to_index(self) -> (r: usize) {
        self as usize
    }

    fn index_below(self, len: usize) -> (r: bool) {
        (self as u64) < (len as u64)
    }
}

impl NativeInt for u16 {
    open spec fn val(self) -> int {
        self as int
    }

    open spec fn lo() -> int {
        u16::MIN as int
    }

    open spec fn hi() -> int {
        u16::MAX as int
    }

    open spec fn spec_bit(op: BitOp, a: Self, b: Self) -> Self {
        match op {
            BitOp::And => a & b,
            BitOp::Or => a | b,
            BitOp::Xor => a ^ b,
        }
    }

    open spec fn spec_identity(op: BitOp) -> Self {
        match op {
            BitOp::And => u16::MAX,
            _ => 0u16,
        }
    }

    proof fn lemma_lo_hi() {
    }

    proof fn lemma_val_injective(a: Self, b: Self) {
    }

    fn zero() -> (r: Self) {
        0
    }

    fn identity(op: BitOp) -> (r: Self) {
        match op {
            BitOp::And => u16::MAX,
            _ => 0,
        }
    }

    fn add_wrapping(self, o: Self) -> (r: Self) {
        let r = self.wrapping_add(o);
        proof {
            let m: int = 0x1_0000;
            let s = self as int + o as int;
            if s > u16::MAX {
                vstd::arithmetic::div_mod::lemma_mod_sub_multiples_vanish(s - u16::MIN, m);
                lemma_wrap_in_range(u16::MIN as int, u16::MAX as int, s - m);
                assert(wrap(u16::MIN as int, u16::MAX as int, s - m) == wrap(u16::MIN as int, u16::MAX as int, s));
            } else if s < u16::MIN {
                vstd::arithmetic::div_mod::lemma_mod_add_multiples_vanish(s - u16::MIN, m);
                lemma_wrap_in_range(u16::MIN as int, u16::MAX as int, s + m);
            } else {
                lemma_wrap_in_range(u16::MIN as int, u16::MAX as int, s);
            }
        }
        r
    }

    fn add_checked(self, o: Self) -> (r: Option<Self>) {
        self.checked_add(o)
    }

    fn is_less(&self, o: &Self) -> (r: bool) {
        *self < *o
    }

    fn bit(op: BitOp, a: Self, b: Self) -> (r: Self) {
        match op {
            BitOp::And => a & b,
            BitOp::Or => a | b,
            BitOp::Xor => a ^ b,
        }
    }

    fn to_index(self) -> (r: usize) {
        self as usize
    }

    fn index_below(self, len: usize) -> (r: bool) {
        (self as u64) < (len as u64)
    }
}

impl NativeInt for u32 {
    open spec fn val(self) -> int {
        self as int
    }

    open spec fn lo() -> int {
        u32::MIN as int
    }

    open spec fn hi() -> int {
        u32::MAX as int
    }

    open spec fn spec_bit(op: BitOp, a: Self, b: Self) -> Self {
        match op {
            BitOp::And => a & b,
            BitOp::Or => a | b,
            BitOp::Xor => a ^ b,
        }
    }

    open spec fn spec_identity(op: BitOp) -> Self {
        match op {
            BitOp::And => u32::MAX,
            _ => 0u32,
        }
    }

    proof fn lemma_lo_hi() {
    }

    proof fn lemma_val_injective(a: Self, b: Self) {
    }

    fn zero() -> (r: Self) {
        0
    }

    fn identity(op: BitOp) -> (r: Self) {
        match op {
            BitOp::And => u32::MAX,
            _ => 0,
        }
    }

    fn add_wrapping(self, o: Self) -> (r: Self) {
        let r = self.wrapping_add(o);
        proof {
            let m: int = 0x1_0000_0000;
            let s = self as int + o as int;
            if s > u32::MAX {
                vstd::arithmetic::div_mod::lemma_mod_sub_multiples_vanish(s - u32::MIN, m);
                lemma_wrap_in_range(u32::MIN as int, u32::MAX as int, s - m);
                assert(wrap(u32::MIN as int, u32::MAX as int, s - m) == wrap(u32::MIN as int, u32::MAX as int, s));
            } else if s < u32::MIN {
                vstd::arithmetic::div_mod::lemma_mod_add_multiples_vanish(s - u32::MIN, m);
                lemma_wrap_in_range(u32::MIN as int, u32::MAX as int, s + m);
            } else {
                lemma_wrap_in_range(u32::MIN as int, u32::MAX as int, s);
            }
        }
        r
    }

    fn add_checked(self, o: Self) -> (r: Option<Self>) {
        self.checked_add(o)
    }

    fn is_less(&self, o: &Self) -> (r: bool) {
        *self < *o
    }

    fn bit(op: BitOp, a: Self, b: Self) -> (r: Self) {
        match op {
            BitOp::And => a & b,
            BitOp::Or => a | b,
            BitOp::Xor => a ^ b,
        }
    }

    fn to_index(self) -> (r: usize) {
        self as usize
    }

    fn index_below(self, len: usize) -> (r: bool) {
        (self as u64) < (len as u64)
    }
}

impl NativeInt for u64 {
    open spec fn val(self) -> int {
        self as int
    }

    open spec fn lo() -> int {
        u64::MIN as int
    }

    open spec fn hi() -> int {
        u64::MAX as int
    }

    open spec fn spec_bit(op: BitOp, a: Self, b: Self) -> Self {
        match op {
            BitOp::And => a & b,
            BitOp::Or => a | b,
            BitOp::Xor => a ^ b,
        }
    }

    open spec fn spec_identity(op: BitOp) -> Self {
        match op {
            BitOp::And => u64::MAX,
            _ => 0u64,
        }
    }

    proof fn lemma_lo_hi() {
    }

    proof fn lemma_val_injective(a: Self, b: Self) {
    }

    fn zero() -> (r: Self) {
        0
    }

    fn identity(op: BitOp) -> (r: Self) {
        match op {
            BitOp::And => u64::MAX,
            _ => 0,
        }
    }

    fn add_wrapping(self, o: Self) -> (r: Self) {
        let r = self.wrapping_add(o);
        proof {
            let m: int = 0x1_0000_0000_0000_0000;
            let s = self as int + o as int;
            if s > u64::MAX {
                vstd::arithmetic::div_mod::lemma_mod_sub_multiples_vanish(s - u64::MIN, m);
                lemma_wrap_in_range(u64::MIN as int, u64::MAX as int, s - m);
                assert(wrap(u64::MIN as int, u64::MAX as int, s - m) == wrap(u64::MIN as int, u64::MAX as int, s));
            } else if s < u64::MIN {
                vstd::arithmetic::div_mod::lemma_mod_add_multiples_vanish(s - u64::MIN, m);
                lemma_wrap_in_range(u64::MIN as int, u64::MAX as int, s + m);
            } else {
                lemma_wrap_in_range(u64::MIN as int, u64::MAX as int, s);
            }
        }
        r
    }

    fn add_checked(self, o: Self) -> (r: Option<Self>) {
        self.checked_add(o)
    }

    fn is_less(&self, o: &Self) -> (r: bool) {
        *self < *o
    }

    fn bit(op: BitOp, a: Self, b: Self) -> (r: Self) {
        match op {
            BitOp::And => a & b,
            BitOp::Or => a | b,
            BitOp::Xor => a ^ b,
        }
    }

    fn to_index(self) -> (r: usize) {
        self as usize
    }

    fn index_below(self, len: usize) -> (r: bool) {
        (self as u64) < (len as u64)
    }
}

} // verus!
