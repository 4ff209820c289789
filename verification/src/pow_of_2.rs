//! Integer-like values that can only be powers of two.
//!
//! A [`PowOf2`] is stored as a one-byte exponent, so multiplying and dividing
//! such values is adding and subtracting exponents.

use std::cmp::Ordering;
use std::fmt::Display;
use std::marker::PhantomData;
use std::ops::{Div, DivAssign, Mul, MulAssign, Shl};
use vstd::arithmetic::div_mod::lemma_basic_div;
use vstd::arithmetic::power2::{
    lemma2_to64, lemma_pow2_adds, lemma_pow2_pos, lemma_pow2_strictly_increases,
    lemma_pow2_subtracts, lemma_pow2_unfold, pow2,
};
use vstd::bits::{
    lemma_u16_pow2_no_overflow, lemma_u16_shl_is_mul, lemma_u32_pow2_no_overflow,
    lemma_u32_shl_is_mul, lemma_u64_pow2_no_overflow, lemma_u64_shl_is_mul,
    lemma_u8_pow2_no_overflow, lemma_u8_shl_is_mul, lemma_usize_pow2_no_overflow,
    lemma_usize_shl_is_mul,
};
use vstd::layout::{layout_of_primitives, size_of};
use vstd::pervasive::unreached;
use vstd::prelude::*;
use vstd::std_specs::cmp::{PartialEqSpecImpl, PartialOrdSpecImpl};
use vstd::std_specs::ops::{DivSpecImpl, MulSpecImpl, ShlSpec};

verus! {

/// Number of bits in a value of type `T`.
pub open spec fn bit_width<T>() -> nat {
    size_of::<T>() * 8
}

/// The unsigned integer types a [`PowOf2`] can be read out as.
pub trait UInt: Copy + Shl<Output = Self> + Display {
    /// The number this value holds.
    spec fn as_nat(self) -> nat;

    /// A value of this type is between one and sixteen bytes wide.
    proof fn lemma_size()
        ensures
            1 <= size_of::<Self>() <= 16,
    ;

    /// Shifting one to the left by fewer places than the type has bits is
    /// defined, and gives two to the power of the shift.
    proof fn lemma_shl_one(one: Self, places: Self)
        requires
            one.as_nat() == 1,
            places.as_nat() < bit_width::<Self>(),
        ensures
            Self::obeys_shl_spec(),
            one.shl_req(places),
            one.shl_spec(places).as_nat() == pow2(places.as_nat()),
    ;

    /// The number one.
    fn one() -> (r: Self)
        ensures
            r.as_nat() == 1,
    ;

    /// The number that the byte holds.
    fn from_u8(b: u8) -> (r: Self)
        ensures
            r.as_nat() == b,
    ;
}

impl UInt for usize {
    open spec fn as_nat(self) -> nat {
        self as nat
    }

    proof fn lemma_size() {
        broadcast use layout_of_primitives;

    }

    proof fn lemma_shl_one(one: usize, places: usize) {
        broadcast use layout_of_primitives;

        lemma_usize_pow2_no_overflow(places as nat);
        lemma_usize_shl_is_mul(one, places);
    }

    fn one() -> usize {
        1
    }

    fn from_u8(b: u8) -> usize {
        b as usize
    }
}

impl UInt for u8 {
    open spec fn as_nat(self) -> nat {
        self as nat
    }

    proof fn lemma_size() {
        broadcast use layout_of_primitives;

    }

    proof fn lemma_shl_one(one: u8, places: u8) {
        broadcast use layout_of_primitives;

        lemma_u8_pow2_no_overflow(places as nat);
        lemma_u8_shl_is_mul(one, places);
    }

    fn one() -> u8 {
        1
    }

    fn from_u8(b: u8) -> u8 {
        b
    }
}

impl UInt for u16 {
    open spec fn as_nat(self) -> nat {
        self as nat
    }

    proof fn lemma_size() {
        broadcast use layout_of_primitives;

    }

    proof fn lemma_shl_one(one: u16, places: u16) {
        broadcast use layout_of_primitives;

        lemma_u16_pow2_no_overflow(places as nat);
        lemma_u16_shl_is_mul(one, places);
    }

    fn one() -> u16 {
        1
    }

    fn from_u8(b: u8) -> u16 {
        b as u16
    }
}

impl UInt for u32 {
    open spec fn as_nat(self) -> nat {
        self as nat
    }

    proof fn lemma_size() {
        broadcast use layout_of_primitives;

    }

    proof fn lemma_shl_one(one: u32, places: u32) {
        broadcast use layout_of_primitives;

        lemma_u32_pow2_no_overflow(places as nat);
        lemma_u32_shl_is_mul(one, places);
    }

    fn one() -> u32 {
        1
    }

    fn from_u8(b: u8) -> u32 {
        b as u32
    }
}

impl UInt for u64 {
    open spec fn as_nat(self) -> nat {
        self as nat
    }

    proof fn lemma_size() {
        broadcast use layout_of_primitives;

    }

    proof fn lemma_shl_one(one: u64, places: u64) {
        broadcast use layout_of_primitives;

        lemma_u64_pow2_no_overflow(places as nat);
        lemma_u64_shl_is_mul(one, places);
    }

    fn one() -> u64 {
        1
    }

    fn from_u8(b: u8) -> u64 {
        b as u64
    }
}

/// One shifted left within a `u128` is the matching power of two.
proof fn lemma_u128_shl_one(places: u128)
    requires
        places < 128,
    ensures
        (1u128 << places) == pow2(places as nat),
    decreases places,
{
    if places == 0 {
        assert(1u128 << 0u128 == 1u128) by (bit_vector);
        lemma2_to64();
    } else {
        let prev = (places - 1) as u128;
        lemma_u128_shl_one(prev);
        assert((1u128 << places) == 2 * (1u128 << prev)) by (bit_vector)
            requires
                0 < places < 128,
                prev == places - 1,
        ;
        lemma_pow2_unfold(places as nat);
    }
}

impl UInt for u128 {
    open spec fn as_nat(self) -> nat {
        self as nat
    }

    proof fn lemma_size() {
        broadcast use layout_of_primitives;

    }

    proof fn lemma_shl_one(one: u128, places: u128) {
        broadcast use layout_of_primitives;

        lemma_u128_shl_one(places);
    }

    fn one() -> u128 {
        1
    }

    fn from_u8(b: u8) -> u128 {
        b as u128
    }
}

/// An unsigned integer power of two, held as its exponent.
///
/// The exponent is always smaller than the bit width of `T`, so the value
/// can be read out as a `T`.
#[derive(Ord, Hash, Debug)]
pub struct PowOf2<T: UInt> {
    exp: u8,
    p: PhantomData<T>,
}

/// The number two, as a factor or divisor of a [`PowOf2`].
#[derive(Copy, Clone, Eq, PartialEq, Structural, Ord, PartialOrd, Hash, Debug)]
pub struct Two;

impl<T: UInt> Clone for PowOf2<T> {
    fn clone(&self) -> (r: Self)
        ensures
            r == *self,
    {
        *self
    }
}

impl<T: UInt> Copy for PowOf2<T> {

}

impl<T: UInt> PowOf2<T> {
    /// The exponent is in the domain of `T`.
    #[verifier::type_invariant]
    pub open spec fn wf(self) -> bool {
        self.spec_exp() < bit_width::<T>()
    }

    /// The exponent `e` of this value `2^e`.
    pub closed spec fn spec_exp(self) -> nat {
        self.exp as nat
    }

    /// The number this value stands for.
    pub open spec fn spec_value(self) -> nat {
        pow2(self.spec_exp())
    }

    /// The value with the given exponent.
    pub closed spec fn spec_from_exp(exp: nat) -> Self {
        PowOf2 { exp: exp as u8, p: PhantomData }
    }

    /// What [`PowOf2::pow_neg`] leaves of an exponent.
    pub open spec fn spec_lowered(exp: nat, p: nat) -> nat {
        if exp >= p {
            (exp - p) as nat
        } else {
            0
        }
    }

    /// The power of two with the given exponent, or `None` if it is beyond
    /// the domain of `T`.
    pub fn try_from_exp(exp: u8) -> (r: Option<Self>)
        ensures
            exp < bit_width::<T>() <==> r is Some,
            r matches Some(p) ==> p.wf() && p.spec_exp() == exp,
    {
        proof {
            T::lemma_size();
        }
        if (exp as usize) < core::mem::size_of::<T>() * 8 {
            Some(PowOf2 { exp, p: PhantomData })
        } else {
            None
        }
    }

    /// The power of two with the given exponent, which has to be in the
    /// domain of `T`.
    pub fn from_exp(exp: u8) -> (r: Self)
        requires
            exp < bit_width::<T>(),
        ensures
            r.wf(),
            r.spec_exp() == exp,
    {
        match Self::try_from_exp(exp) {
            Some(p) => p,
            None => unreached(),
        }
    }

    /// Raises the exponent by `p`, or gives `None` if the result is beyond
    /// the domain of `T`.
    pub fn try_pow(self, p: u8) -> (r: Option<Self>)
        ensures
            self.spec_exp() + p < bit_width::<T>() <==> r is Some,
            r matches Some(q) ==> q.wf() && q.spec_exp() == self.spec_exp() + p,
    {
        proof {
            T::lemma_size();
        }
        match self.exp.checked_add(p) {
            Some(exp) => Self::try_from_exp(exp),
            None => None,
        }
    }

    /// Raises the exponent by `p`; the result has to be in the domain of `T`.
    pub fn pow(self, p: u8) -> (r: Self)
        requires
            self.spec_exp() + p < bit_width::<T>(),
        ensures
            r.wf(),
            r.spec_exp() == self.spec_exp() + p,
    {
        proof {
            T::lemma_size();
        }
        match self.exp.checked_add(p) {
            Some(exp) => Self::from_exp(exp),
            None => unreached(),
        }
    }

    /// Lowers the exponent by `p`, stopping at zero.
    pub fn pow_neg(self, p: u8) -> (r: Self)
        ensures
            r.wf(),
            r.spec_exp() == Self::spec_lowered(self.spec_exp(), p as nat),
    {
        proof {
            use_type_invariant(self);
        }
        PowOf2 { exp: self.exp.saturating_sub(p), p: PhantomData }
    }

    /// The value as a plain integer.
    pub fn to_uint(self) -> (r: T)
        ensures
            r.as_nat() == self.spec_value(),
    {
        let one = T::one();
        let places = T::from_u8(self.exp);
        proof {
            use_type_invariant(self);
            T::lemma_shl_one(one, places);
        }
        one << places
    }

    /// The exponent.
    pub fn exp(self) -> (e: u8)
        ensures
            e == self.spec_exp(),
            e < bit_width::<T>(),
    {
        proof {
            use_type_invariant(self);
        }
        self.exp
    }
}

impl<T: UInt> PartialEq for PowOf2<T> {
    fn eq(&self, other: &Self) -> (r: bool) {
        self.exp == other.exp
    }
}

impl<T: UInt> Eq for PowOf2<T> {

}

impl<T: UInt> PartialEqSpecImpl for PowOf2<T> {
    open spec fn obeys_eq_spec() -> bool {
        true
    }

    open spec fn eq_spec(&self, other: &Self) -> bool {
        self.spec_exp() == other.spec_exp()
    }
}

impl<T: UInt> PartialOrd for PowOf2<T> {
    fn partial_cmp(&self, other: &Self) -> (r: Option<Ordering>) {
        if self.exp < other.exp {
            Some(Ordering::Less)
        } else if self.exp == other.exp {
            Some(Ordering::Equal)
        } else {
            Some(Ordering::Greater)
        }
    }
}

impl<T: UInt> PartialOrdSpecImpl for PowOf2<T> {
    open spec fn obeys_partial_cmp_spec() -> bool {
        true
    }

    open spec fn partial_cmp_spec(&self, other: &Self) -> Option<Ordering> {
        if self.spec_exp() < other.spec_exp() {
            Some(Ordering::Less)
        } else if self.spec_exp() == other.spec_exp() {
            Some(Ordering::Equal)
        } else {
            Some(Ordering::Greater)
        }
    }
}

impl<T: UInt> Mul<PowOf2<T>> for PowOf2<T> {
    type Output = PowOf2<T>;

    /// The product: the exponents add up.
    fn mul(self, rhs: PowOf2<T>) -> (r: PowOf2<T>)
        ensures
            r.wf(),
            r.spec_exp() == self.spec_exp() + rhs.spec_exp(),
    {
        let r = self.pow(rhs.exp);
        proof {
            r.lemma_exp_determines(Self::spec_from_exp(self.spec_exp() + rhs.spec_exp()));
        }
        r
    }
}

impl<T: UInt> MulSpecImpl<PowOf2<T>> for PowOf2<T> {
    open spec fn obeys_mul_spec() -> bool {
        true
    }

    open spec fn mul_req(self, rhs: PowOf2<T>) -> bool {
        self.spec_exp() + rhs.spec_exp() < bit_width::<T>()
    }

    open spec fn mul_spec(self, rhs: PowOf2<T>) -> PowOf2<T> {
        Self::spec_from_exp(self.spec_exp() + rhs.spec_exp())
    }
}

impl<T: UInt> Div<PowOf2<T>> for PowOf2<T> {
    type Output = PowOf2<T>;

    /// The quotient, which is never below one: the exponents are
    /// subtracted, stopping at zero.
    fn div(self, rhs: PowOf2<T>) -> (r: PowOf2<T>)
        ensures
            r.wf(),
            r.spec_exp() == Self::spec_lowered(self.spec_exp(), rhs.spec_exp()),
    {
        let r = self.pow_neg(rhs.exp);
        proof {
            r.lemma_exp_determines(
                Self::spec_from_exp(Self::spec_lowered(self.spec_exp(), rhs.spec_exp())),
            );
        }
        r
    }
}

impl<T: UInt> DivSpecImpl<PowOf2<T>> for PowOf2<T> {
    open spec fn obeys_div_spec() -> bool {
        true
    }

    open spec fn div_req(self, rhs: PowOf2<T>) -> bool {
        true
    }

    open spec fn div_spec(self, rhs: PowOf2<T>) -> PowOf2<T> {
        Self::spec_from_exp(Self::spec_lowered(self.spec_exp(), rhs.spec_exp()))
    }
}

impl<T: UInt> Mul<Two> for PowOf2<T> {
    type Output = PowOf2<T>;

    /// Twice the value.
    fn mul(self, rhs: Two) -> (r: PowOf2<T>)
        ensures
            r.wf(),
            r.spec_exp() == self.spec_exp() + 1,
    {
        let r = self.pow(1);
        proof {
            r.lemma_exp_determines(Self::spec_from_exp(self.spec_exp() + 1));
        }
        r
    }
}

impl<T: UInt> MulSpecImpl<Two> for PowOf2<T> {
    open spec fn obeys_mul_spec() -> bool {
        true
    }

    open spec fn mul_req(self, rhs: Two) -> bool {
        self.spec_exp() + 1 < bit_width::<T>()
    }

    open spec fn mul_spec(self, rhs: Two) -> PowOf2<T> {
        Self::spec_from_exp(self.spec_exp() + 1)
    }
}

impl<T: UInt> Div<Two> for PowOf2<T> {
    type Output = PowOf2<T>;

    /// Half the value, or one where the value is one.
    fn div(self, rhs: Two) -> (r: PowOf2<T>)
        ensures
            r.wf(),
            r.spec_exp() == Self::spec_lowered(self.spec_exp(), 1),
    {
        let r = self.pow_neg(1);
        proof {
            r.lemma_exp_determines(Self::spec_from_exp(Self::spec_lowered(self.spec_exp(), 1)));
        }
        r
    }
}

impl<T: UInt> DivSpecImpl<Two> for PowOf2<T> {
    open spec fn obeys_div_spec() -> bool {
        true
    }

    open spec fn div_req(self, rhs: Two) -> bool {
        true
    }

    open spec fn div_spec(self, rhs: Two) -> PowOf2<T> {
        Self::spec_from_exp(Self::spec_lowered(self.spec_exp(), 1))
    }
}

impl<T: UInt> MulAssign<PowOf2<T>> for PowOf2<T> {
    /// Multiplies in place.
    fn mul_assign(&mut self, rhs: PowOf2<T>)
        requires
            old(self).spec_exp() + rhs.spec_exp() < bit_width::<T>(),
        ensures
            final(self).wf(),
            final(self).spec_exp() == old(self).spec_exp() + rhs.spec_exp(),
    {
        *self = *self * rhs;
    }
}

impl<T: UInt> DivAssign<PowOf2<T>> for PowOf2<T> {
    /// Divides in place, stopping at one.
    fn div_assign(&mut self, rhs: PowOf2<T>)
        ensures
            final(self).wf(),
            final(self).spec_exp() == Self::spec_lowered(old(self).spec_exp(), rhs.spec_exp()),
    {
        *self = *self / rhs;
    }
}

impl<T: UInt> MulAssign<Two> for PowOf2<T> {
    /// Doubles in place.
    fn mul_assign(&mut self, rhs: Two)
        requires
            old(self).spec_exp() + 1 < bit_width::<T>(),
        ensures
            final(self).wf(),
            final(self).spec_exp() == old(self).spec_exp() + 1,
    {
        *self = *self * rhs;
    }
}

impl<T: UInt> DivAssign<Two> for PowOf2<T> {
    /// Halves in place, stopping at one.
    fn div_assign(&mut self, rhs: Two)
        ensures
            final(self).wf(),
            final(self).spec_exp() == Self::spec_lowered(old(self).spec_exp(), 1),
    {
        *self = *self / rhs;
    }
}

impl<T: UInt> PowOf2<T> {
    /// Two values with the same exponent are the same value.
    pub proof fn lemma_exp_determines(self, other: Self)
        requires
            self.spec_exp() == other.spec_exp(),
        ensures
            self == other,
    {
    }

    /// The value built from an exponent in the domain of `T` is well formed
    /// and has that exponent.
    pub proof fn lemma_spec_from_exp(exp: nat)
        requires
            exp < bit_width::<T>(),
        ensures
            Self::spec_from_exp(exp).wf(),
            Self::spec_from_exp(exp).spec_exp() == exp,
    {
        T::lemma_size();
    }

    /// Raising the exponent multiplies the value: `2^(a + b) == 2^a * 2^b`.
    pub proof fn lemma_mul_value(self, rhs: Self, product: Self)
        requires
            product.spec_exp() == self.spec_exp() + rhs.spec_exp(),
        ensures
            product.spec_value() == self.spec_value() * rhs.spec_value(),
    {
        lemma_pow2_adds(self.spec_exp(), rhs.spec_exp());
    }

    /// Lowering the exponent divides the value, and stops at one:
    /// the quotient is `max(2^a / 2^b, 1)`.
    pub proof fn lemma_div_value(self, rhs: Self, quotient: Self)
        requires
            quotient.spec_exp() == Self::spec_lowered(self.spec_exp(), rhs.spec_exp()),
        ensures
            rhs.spec_value() > 0,
            quotient.spec_value() == if self.spec_value() / rhs.spec_value() >= 1 {
                self.spec_value() / rhs.spec_value()
            } else {
                1
            },
    {
        let a = self.spec_exp();
        let b = rhs.spec_exp();
        lemma_pow2_pos(a);
        lemma_pow2_pos(b);
        if a >= b {
            lemma_pow2_subtracts(b, a);
            lemma_pow2_pos((a - b) as nat);
        } else {
            lemma_pow2_strictly_increases(a, b);
            lemma_basic_div(pow2(a) as int, pow2(b) as int);
            lemma2_to64();
        }
    }
}

} // verus!
