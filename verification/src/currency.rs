//! The numeric capability that every amount type provides.
//!
//! The aggregation engine never looks inside an amount. It only asks for a
//! zero, for accumulation, for deduction, for a product and for equality, and
//! every aggregate is stated over the spec functions of this trait.

use vstd::prelude::*;
use decimal::d128;

verus! {

/// An amount type. Each executable operation is tied to a spec function of
/// the same type, so that aggregates can be stated as folds of `plus`
/// whatever the representation is.
///
/// The primitive integers accumulate modulo two to the power of their width
/// (the result of `wrapping_add`); `d128` accumulates as the decimal
/// arithmetic of its crate does.
pub trait Currency: Copy + Sized {
    /// The value that an empty aggregate holds.
    spec fn zero_value() -> Self;

    /// The value that accumulating `rhs` into `self` gives.
    spec fn plus(self, rhs: Self) -> Self;

    /// The value that deducting `rhs` from `self` gives.
    spec fn minus(self, rhs: Self) -> Self;

    /// The product of `self` and `rhs`.
    spec fn times(self, rhs: Self) -> Self;

    /// Whether the type's own equality holds between `self` and `rhs`.
    spec fn equals(self, rhs: Self) -> bool;

    fn zero() -> (r: Self)
        ensures
            r == Self::zero_value(),
    ;

    fn accumulate(&mut self, rhs: Self)
        ensures
            *final(self) == old(self).plus(rhs),
    ;

    fn deduct(&mut self, rhs: Self)
        ensures
            *final(self) == old(self).minus(rhs),
    ;

    fn product(self, rhs: Self) -> (r: Self)
        ensures
            r == self.times(rhs),
    ;

    fn same(&self, rhs: &Self) -> (r: bool)
        ensures
            r == self.equals(*rhs),
    ;
}

/// Whether amounts of the type add up to the same whatever their order:
/// accumulating two amounts in turn gives the same either way round.
pub open spec fn adds_in_any_order<C: Currency>() -> bool {
    forall|x: C, y: C, z: C| #[trigger] x.plus(y).plus(z) == x.plus(z).plus(y)
}

impl Currency for i8 {
    open spec fn zero_value() -> Self {
        0
    }

    open spec fn plus(self, rhs: Self) -> Self {
        self.wrapping_add(rhs)
    }

    open spec fn minus(self, rhs: Self) -> Self {
        self.wrapping_sub(rhs)
    }

    open spec fn times(self, rhs: Self) -> Self {
        self.wrapping_mul(rhs)
    }

    open spec fn equals(self, rhs: Self) -> bool {
        self == rhs
    }

    fn zero() -> (r: Self) {
        0
    }

    fn accumulate(&mut self, rhs: Self) {
        *self = self.wrapping_add(rhs);
    }

    fn deduct(&mut self, rhs: Self) {
        *self = self.wrapping_sub(rhs);
    }

    fn product(self, rhs: Self) -> (r: Self) {
        self.wrapping_mul(rhs)
    }

    fn same(&self, rhs: &Self) -> (r: bool) {
        *self == *rhs
    }
}

/// Within the range of `i8` the three operations are those of the
/// integers.
pub proof fn lemma_i8_exact(a: i8, b: i8)
    ensures
        i8::MIN <= a + b <= i8::MAX ==> a.plus(b) == a + b,
        i8::MIN <= a - b <= i8::MAX ==> a.minus(b) == a - b,
        i8::MIN <= a * b <= i8::MAX ==> a.times(b) == a * b,
{
}

/// Amounts of `i8` add up to the same whatever their order.
pub proof fn lemma_i8_any_order()
    ensures
        adds_in_any_order::<i8>(),
{
    assert forall|x: i8, y: i8, z: i8| #[trigger] x.plus(y).plus(z) == x.plus(z).plus(y) by {}
}

impl Currency for i16 {
    open spec fn zero_value() -> Self {
        0
    }

    open spec fn plus(self, rhs: Self) -> Self {
        self.wrapping_add(rhs)
    }

    open spec fn minus(self, rhs: Self) -> Self {
        self.wrapping_sub(rhs)
    }

    open spec fn times(self, rhs: Self) -> Self {
        self.wrapping_mul(rhs)
    }

    open spec fn equals(self, rhs: Self) -> bool {
        self == rhs
    }

    fn zero() -> (r: Self) {
        0
    }

    fn accumulate(&mut self, rhs: Self) {
        *self = self.wrapping_add(rhs);
    }

    fn deduct(&mut self, rhs: Self) {
        *self = self.wrapping_sub(rhs);
    }

    fn product(self, rhs: Self) -> (r: Self) {
        self.wrapping_mul(rhs)
    }

    fn same(&self, rhs: &Self) -> (r: bool) {
        *self == *rhs
    }
}

/// Within the range of `i16` the three operations are those of the
/// integers.
pub proof fn lemma_i16_exact(a: i16, b: i16)
    ensures
        i16::MIN <= a + b <= i16::MAX ==> a.plus(b) == a + b,
        i16::MIN <= a - b <= i16::MAX ==> a.minus(b) == a - b,
        i16::MIN <= a * b <= i16::MAX ==> a.times(b) == a * b,
{
}

/// Amounts of `i16` add up to the same whatever their order.
pub proof fn lemma_i16_any_order()
    ensures
        adds_in_any_order::<i16>(),
{
    assert forall|x: i16, y: i16, z: i16| #[trigger] x.plus(y).plus(z) == x.plus(z).plus(y) by {}
}

impl Currency for i32 {
    open spec fn zero_value() -> Self {
        0
    }

    open spec fn plus(self, rhs: Self) -> Self {
        self.wrapping_add(rhs)
    }

    open spec fn minus(self, rhs: Self) -> Self {
        self.wrapping_sub(rhs)
    }

    open spec fn times(self, rhs: Self) -> Self {
        self.wrapping_mul(rhs)
    }

    open spec fn equals(self, rhs: Self) -> bool {
        self == rhs
    }

    fn zero() -> (r: Self) {
        0
    }

    fn accumulate(&mut self, rhs: Self) {
        *self = self.wrapping_add(rhs);
    }

    fn deduct(&mut self, rhs: Self) {
        *self = self.wrapping_sub(rhs);
    }

    fn product(self, rhs: Self) -> (r: Self) {
        self.wrapping_mul(rhs)
    }

    fn same(&self, rhs: &Self) -> (r: bool) {
        *self == *rhs
    }
}

/// Within the range of `i32` the three operations are those of the
/// integers.
pub proof fn lemma_i32_exact(a: i32, b: i32)
    ensures
        i32::MIN <= a + b <= i32::MAX ==> a.plus(b) == a + b,
        i32::MIN <= a - b <= i32::MAX ==> a.minus(b) == a - b,
        i32::MIN <= a * b <= i32::MAX ==> a.times(b) == a * b,
{
}

/// Amounts of `i32` add up to the same whatever their order.
pub proof fn lemma_i32_any_order()
    ensures
        adds_in_any_order::<i32>(),
{
    assert forall|x: i32, y: i32, z: i32| #[trigger] x.plus(y).plus(z) == x.plus(z).plus(y) by {}
}

impl Currency for i64 {
    open spec fn zero_value() -> Self {
        0
    }

    open spec fn plus(self, rhs: Self) -> Self {
        self.wrapping_add(rhs)
    }

    open spec fn minus(self, rhs: Self) -> Self {
        self.wrapping_sub(rhs)
    }

    open spec fn times(self, rhs: Self) -> Self {
        self.wrapping_mul(rhs)
    }

    open spec fn equals(self, rhs: Self) -> bool {
        self == rhs
    }

    fn zero() -> (r: Self) {
        0
    }

    fn accumulate(&mut self, rhs: Self) {
        *self = self.wrapping_add(rhs);
    }

    fn deduct(&mut self, rhs: Self) {
        *self = self.wrapping_sub(rhs);
    }

    fn product(self, rhs: Self) -> (r: Self) {
        self.wrapping_mul(rhs)
    }

    fn same(&self, rhs: &Self) -> (r: bool) {
        *self == *rhs
    }
}

/// Within the range of `i64` the three operations are those of the
/// integers.
pub proof fn lemma_i64_exact(a: i64, b: i64)
    ensures
        i64::MIN <= a + b <= i64::MAX ==> a.plus(b) == a + b,
        i64::MIN <= a - b <= i64::MAX ==> a.minus(b) == a - b,
        i64::MIN <= a * b <= i64::MAX ==> a.times(b) == a * b,
{
}

/// Amounts of `i64` add up to the same whatever their order.
pub proof fn lemma_i64_any_order()
    ensures
        adds_in_any_order::<i64>(),
{
    assert forall|x: i64, y: i64, z: i64| #[trigger] x.plus(y).plus(z) == x.plus(z).plus(y) by {}
}

impl Currency for i128 {
    open spec fn zero_value() -> Self {
        0
    }

    open spec fn plus(self, rhs: Self) -> Self {
        self.wrapping_add(rhs)
    }

    open spec fn minus(self, rhs: Self) -> Self {
        self.wrapping_sub(rhs)
    }

    open spec fn times(self, rhs: Self) -> Self {
        self.wrapping_mul(rhs)
    }

    open spec fn equals(self, rhs: Self) -> bool {
        self == rhs
    }

    fn zero() -> (r: Self) {
        0
    }

    fn accumulate(&mut self, rhs: Self) {
        *self = self.wrapping_add(rhs);
    }

    fn deduct(&mut self, rhs: Self) {
        *self = self.wrapping_sub(rhs);
    }

    fn product(self, rhs: Self) -> (r: Self) {
        self.wrapping_mul(rhs)
    }

    fn same(&self, rhs: &Self) -> (r: bool) {
        *self == *rhs
    }
}

/// Within the range of `i128` the three operations are those of the
/// integers.
pub proof fn lemma_i128_exact(a: i128, b: i128)
    ensures
        i128::MIN <= a + b <= i128::MAX ==> a.plus(b) == a + b,
        i128::MIN <= a - b <= i128::MAX ==> a.minus(b) == a - b,
        i128::MIN <= a * b <= i128::MAX ==> a.times(b) == a * b,
{
}

/// Amounts of `i128` add up to the same whatever their order.
pub proof fn lemma_i128_any_order()
    ensures
        adds_in_any_order::<i128>(),
{
    assert forall|x: i128, y: i128, z: i128| #[trigger] x.plus(y).plus(z) == x.plus(z).plus(y) by {}
}

impl Currency for u8 {
    open spec fn zero_value() -> Self {
        0
    }

    open spec fn plus(self, rhs: Self) -> Self {
        self.wrapping_add(rhs)
    }

    open spec fn minus(self, rhs: Self) -> Self {
        self.wrapping_sub(rhs)
    }

    open spec fn times(self, rhs: Self) -> Self {
        self.wrapping_mul(rhs)
    }

    open spec fn equals(self, rhs: Self) -> bool {
        self == rhs
    }

    fn zero() -> (r: Self) {
        0
    }

    fn accumulate(&mut self, rhs: Self) {
        *self = self.wrapping_add(rhs);
    }

    fn deduct(&mut self, rhs: Self) {
        *self = self.wrapping_sub(rhs);
    }

    fn product(self, rhs: Self) -> (r: Self) {
        self.wrapping_mul(rhs)
    }

    fn same(&self, rhs: &Self) -> (r: bool) {
        *self == *rhs
    }
}

/// Within the range of `u8` the three operations are those of the
/// integers.
pub proof fn lemma_u8_exact(a: u8, b: u8)
    ensures
        u8::MIN <= a + b <= u8::MAX ==> a.plus(b) == a + b,
        u8::MIN <= a - b <= u8::MAX ==> a.minus(b) == a - b,
        u8::MIN <= a * b <= u8::MAX ==> a.times(b) == a * b,
{
}

/// Amounts of `u8` add up to the same whatever their order.
pub proof fn lemma_u8_any_order()
    ensures
        adds_in_any_order::<u8>(),
{
    assert forall|x: u8, y: u8, z: u8| #[trigger] x.plus(y).plus(z) == x.plus(z).plus(y) by {}
}

impl Currency for u16 {
    open spec fn zero_value() -> Self {
        0
    }

    open spec fn plus(self, rhs: Self) -> Self {
        self.wrapping_add(rhs)
    }

    open spec fn minus(self, rhs: Self) -> Self {
        self.wrapping_sub(rhs)
    }

    open spec fn times(self, rhs: Self) -> Self {
        self.wrapping_mul(rhs)
    }

    open spec fn equals(self, rhs: Self) -> bool {
        self == rhs
    }

    fn zero() -> (r: Self) {
        0
    }

    fn accumulate(&mut self, rhs: Self) {
        *self = self.wrapping_add(rhs);
    }

    fn deduct(&mut self, rhs: Self) {
        *self = self.wrapping_sub(rhs);
    }

    fn product(self, rhs: Self) -> (r: Self) {
        self.wrapping_mul(rhs)
    }

    fn same(&self, rhs: &Self) -> (r: bool) {
        *self == *rhs
    }
}

/// Within the range of `u16` the three operations are those of the
/// integers.
pub proof fn lemma_u16_exact(a: u16, b: u16)
    ensures
        u16::MIN <= a + b <= u16::MAX ==> a.plus(b) == a + b,
        u16::MIN <= a - b <= u16::MAX ==> a.minus(b) == a - b,
        u16::MIN <= a * b <= u16::MAX ==> a.times(b) == a * b,
{
}

/// Amounts of `u16` add up to the same whatever their order.
pub proof fn lemma_u16_any_order()
    ensures
        adds_in_any_order::<u16>(),
{
    assert forall|x: u16, y: u16, z: u16| #[trigger] x.plus(y).plus(z) == x.plus(z).plus(y) by {}
}

impl Currency for u32 {
    open spec fn zero_value() -> Self {
        0
    }

    open spec fn plus(self, rhs: Self) -> Self {
        self.wrapping_add(rhs)
    }

    open spec fn minus(self, rhs: Self) -> Self {
        self.wrapping_sub(rhs)
    }

    open spec fn times(self, rhs: Self) -> Self {
        self.wrapping_mul(rhs)
    }

    open spec fn equals(self, rhs: Self) -> bool {
        self == rhs
    }

    fn zero() -> (r: Self) {
        0
    }

    fn accumulate(&mut self, rhs: Self) {
        *self = self.wrapping_add(rhs);
    }

    fn deduct(&mut self, rhs: Self) {
        *self = self.wrapping_sub(rhs);
    }

    fn product(self, rhs: Self) -> (r: Self) {
        self.wrapping_mul(rhs)
    }

    fn same(&self, rhs: &Self) -> (r: bool) {
        *self == *rhs
    }
}

/// Within the range of `u32` the three operations are those of the
/// integers.
pub proof fn lemma_u32_exact(a: u32, b: u32)
    ensures
        u32::MIN <= a + b <= u32::MAX ==> a.plus(b) == a + b,
        u32::MIN <= a - b <= u32::MAX ==> a.minus(b) == a - b,
        u32::MIN <= a * b <= u32::MAX ==> a.times(b) == a * b,
{
}

/// Amounts of `u32` add up to the same whatever their order.
pub proof fn lemma_u32_any_order()
    ensures
        adds_in_any_order::<u32>(),
{
    assert forall|x: u32, y: u32, z: u32| #[trigger] x.plus(y).plus(z) == x.plus(z).plus(y) by {}
}

impl Currency for u64 {
    open spec fn zero_value() -> Self {
        0
    }

    open spec fn plus(self, rhs: Self) -> Self {
        self.wrapping_add(rhs)
    }

    open spec fn minus(self, rhs: Self) -> Self {
        self.wrapping_sub(rhs)
    }

    open spec fn times(self, rhs: Self) -> Self {
        self.wrapping_mul(rhs)
    }

    open spec fn equals(self, rhs: Self) -> bool {
        self == rhs
    }

    fn zero() -> (r: Self) {
        0
    }

    fn accumulate(&mut self, rhs: Self) {
        *self = self.wrapping_add(rhs);
    }

    fn deduct(&mut self, rhs: Self) {
        *self = self.wrapping_sub(rhs);
    }

    fn product(self, rhs: Self) -> (r: Self) {
        self.wrapping_mul(rhs)
    }

    fn same(&self, rhs: &Self) -> (r: bool) {
        *self == *rhs
    }
}

/// Within the range of `u64` the three operations are those of the
/// integers.
pub proof fn lemma_u64_exact(a: u64, b: u64)
    ensures
        u64::MIN <= a + b <= u64::MAX ==> a.plus(b) == a + b,
        u64::MIN <= a - b <= u64::MAX ==> a.minus(b) == a - b,
        u64::MIN <= a * b <= u64::MAX ==> a.times(b) == a * b,
{
}

/// Amounts of `u64` add up to the same whatever their order.
pub proof fn lemma_u64_any_order()
    ensures
        adds_in_any_order::<u64>(),
{
    assert forall|x: u64, y: u64, z: u64| #[trigger] x.plus(y).plus(z) == x.plus(z).plus(y) by {}
}

impl Currency for u128 {
    open spec fn zero_value() -> Self {
        0
    }

    open spec fn plus(self, rhs: Self) -> Self {
        self.wrapping_add(rhs)
    }

    open spec fn minus(self, rhs: Self) -> Self {
        self.wrapping_sub(rhs)
    }

    open spec fn times(self, rhs: Self) -> Self {
        self.wrapping_mul(rhs)
    }

    open spec fn equals(self, rhs: Self) -> bool {
        self == rhs
    }

    fn zero() -> (r: Self) {
        0
    }

    fn accumulate(&mut self, rhs: Self) {
        *self = self.wrapping_add(rhs);
    }

    fn deduct(&mut self, rhs: Self) {
        *self = self.wrapping_sub(rhs);
    }

    fn product(self, rhs: Self) -> (r: Self) {
        self.wrapping_mul(rhs)
    }

    fn same(&self, rhs: &Self) -> (r: bool) {
        *self == *rhs
    }
}

/// Within the range of `u128` the three operations are those of the
/// integers.
pub proof fn lemma_u128_exact(a: u128, b: u128)
    ensures
        u128::MIN <= a + b <= u128::MAX ==> a.plus(b) == a + b,
        u128::MIN <= a - b <= u128::MAX ==> a.minus(b) == a - b,
        u128::MIN <= a * b <= u128::MAX ==> a.times(b) == a * b,
{
}

/// Amounts of `u128` add up to the same whatever their order.
pub proof fn lemma_u128_any_order()
    ensures
        adds_in_any_order::<u128>(),
{
    assert forall|x: u128, y: u128, z: u128| #[trigger] x.plus(y).plus(z) == x.plus(z).plus(y) by {}
}

/// The 128-bit decimal floating-point number of the `decimal` crate. Verus
/// sees nothing inside a value of it.
#[verifier::external_type_specification]
#[verifier::external_body]
pub struct ExDecimal(d128);

/// The number that `d128::from` gives for a 64-bit signed integer.
pub uninterp spec fn decimal_of(n: int) -> d128;

/// The number that `+=` leaves in a `d128` that held `a`, given `b`.
pub uninterp spec fn decimal_sum(a: d128, b: d128) -> d128;

/// The number that `-=` leaves in a `d128` that held `a`, given `b`.
pub uninterp spec fn decimal_difference(a: d128, b: d128) -> d128;

/// The number that `*` gives on two `d128` values.
pub uninterp spec fn decimal_product(a: d128, b: d128) -> d128;

/// The truth value that `==` gives on two `d128` values.
pub uninterp spec fn decimal_equal(a: d128, b: d128) -> bool;

/// Calls `<d128 as From<i64>>::from`, which converts exactly and cannot fail.
/// The contract only names the result.
#[verifier::external_body]
pub(crate) fn decimal_from_i64(n: i64) -> (r: d128)
    ensures
        r == decimal_of(n as int),
{
    d128::from(n)
}

/// Calls `<d128 as AddAssign>::add_assign`. The sum is computed by the
/// decimal arithmetic under the crate's fixed default context; the contract
/// only names it.
#[verifier::external_body]
pub(crate) fn decimal_add(a: d128, b: d128) -> (r: d128)
    ensures
        r == decimal_sum(a, b),
{
    let mut r = a;
    r += b;
    r
}

/// Calls `<d128 as SubAssign>::sub_assign`. The contract only names the
/// result.
#[verifier::external_body]
pub(crate) fn decimal_sub(a: d128, b: d128) -> (r: d128)
    ensures
        r == decimal_difference(a, b),
{
    let mut r = a;
    r -= b;
    r
}

/// Calls `<d128 as Mul>::mul`. The contract only names the result.
#[verifier::external_body]
pub(crate) fn decimal_mul(a: d128, b: d128) -> (r: d128)
    ensures
        r == decimal_product(a, b),
{
    a * b
}

/// Calls `<d128 as PartialEq>::eq`, a numeric comparison (a NaN equals
/// nothing). The contract only names the result.
#[verifier::external_body]
pub(crate) fn decimal_eq(a: &d128, b: &d128) -> (r: bool)
    ensures
        r == decimal_equal(*a, *b),
{
    a == b
}

impl Currency for d128 {
    open spec fn zero_value() -> Self {
        decimal_of(0)
    }

    open spec fn plus(self, rhs: Self) -> Self {
        decimal_sum(self, rhs)
    }

    open spec fn minus(self, rhs: Self) -> Self {
        decimal_difference(self, rhs)
    }

    open spec fn times(self, rhs: Self) -> Self {
        decimal_product(self, rhs)
    }

    open spec fn equals(self, rhs: Self) -> bool {
        decimal_equal(self, rhs)
    }

    fn zero() -> (r: Self) {
        decimal_from_i64(0)
    }

    fn accumulate(&mut self, rhs: Self) {
        *self = decimal_add(*self, rhs);
    }

    fn deduct(&mut self, rhs: Self) {
        *self = decimal_sub(*self, rhs);
    }

    fn product(self, rhs: Self) -> (r: Self) {
        decimal_mul(self, rhs)
    }

    fn same(&self, rhs: &Self) -> (r: bool) {
        decimal_eq(self, rhs)
    }
}

} // verus!
