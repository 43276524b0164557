//! Unsigned integers of 256 bits, as the exchange contract counts in them.

use vstd::arithmetic::power::pow;
use vstd::prelude::*;

use crate::text::decimal;

verus! {

/// How many values a [`U256`] can take: two to the power 256.
pub open spec fn modulus() -> nat {
    0x1_0000000000000000_0000000000000000_0000000000000000_0000000000000000nat
}

/// A 256-bit unsigned integer in four words of 64 bits, the lowest first.
#[derive(Clone, Copy, Debug, PartialEq, Eq, Structural)]
pub struct U256 {
    pub l0: u64,
    pub l1: u64,
    pub l2: u64,
    pub l3: u64,
}

impl View for U256 {
    type V = nat;

    /// The number that the four words stand for.
    open spec fn view(&self) -> nat {
        (self.l0 + self.l1 * 0x1_0000000000000000int + self.l2
            * 0x1_0000000000000000_0000000000000000int + self.l3
            * 0x1_0000000000000000_0000000000000000_0000000000000000int) as nat
    }
}

/// Two values are the same exactly when they stand for the same number.
pub proof fn law_u256_by_number(a: U256, b: U256)
    ensures
        a@ == b@ <==> a == b,
{
    lemma_greater_word(a, b);
    lemma_greater_word(b, a);
}

/// The highest word that differs decides which value is the greater.
proof fn lemma_greater_word(a: U256, b: U256)
    ensures
        a.l3 > b.l3 ==> a@ > b@,
        a.l3 == b.l3 && a.l2 > b.l2 ==> a@ > b@,
        a.l3 == b.l3 && a.l2 == b.l2 && a.l1 > b.l1 ==> a@ > b@,
        a.l3 == b.l3 && a.l2 == b.l2 && a.l1 == b.l1 && a.l0 > b.l0 ==> a@ > b@,
{
    if a.l3 > b.l3 {
        assert(a.l3 >= b.l3 + 1);
    } else if a.l2 > b.l2 {
        assert(a.l2 >= b.l2 + 1);
    } else if a.l1 > b.l1 {
        assert(a.l1 >= b.l1 + 1);
    }
}

/// Every value stands for a number below [`modulus`].
pub proof fn lemma_u256_bounded(a: U256)
    ensures
        a@ < modulus(),
{
}

impl U256 {
    /// The value `n`.
    pub fn from_u64(n: u64) -> (r: U256)
        ensures
            r@ == n,
    {
        U256 { l0: n, l1: 0, l2: 0, l3: 0 }
    }

    /// The lowest 64 bits.
    pub fn low_u64(self) -> (r: u64)
        ensures
            r == self@ % 0x1_0000000000000000,
    {
        self.l0
    }

    /// The lowest 32 bits.
    pub fn low_u32(self) -> (r: u32)
        ensures
            r == self@ % 0x1_00000000,
    {
        let low: u64 = self.l0 % 0x1_00000000;
        assert(self@ % 0x1_00000000 == low);
        low as u32
    }

    /// The lowest 64 bits, as far as they fit in a `usize`.
    pub fn low_usize(self) -> (r: usize)
        ensures
            r == (self@ % 0x1_0000000000000000) % (usize::MAX + 1) as nat,
    {
        (self.low_u64() as u128 % (usize::MAX as u128 + 1)) as usize
    }

    /// Calls `+` of `alloy::primitives::U256`.
    ///
    /// The sum wraps around at two to the power 256.
    #[verifier::external_body]
    pub(crate) fn plus(self, rhs: U256) -> (r: U256)
        ensures
            r@ == (self@ + rhs@) % modulus(),
    {
        let a = alloy::primitives::U256::from_limbs([self.l0, self.l1, self.l2, self.l3]);
        let b = alloy::primitives::U256::from_limbs([rhs.l0, rhs.l1, rhs.l2, rhs.l3]);
        let l: [u64; 4] = (a + b).into_limbs();
        U256 { l0: l[0], l1: l[1], l2: l[2], l3: l[3] }
    }

    /// Calls `*` of `alloy::primitives::U256`.
    ///
    /// The product wraps around at two to the power 256.
    #[verifier::external_body]
    pub(crate) fn times(self, rhs: U256) -> (r: U256)
        ensures
            r@ == (self@ * rhs@) % modulus(),
    {
        let a = alloy::primitives::U256::from_limbs([self.l0, self.l1, self.l2, self.l3]);
        let b = alloy::primitives::U256::from_limbs([rhs.l0, rhs.l1, rhs.l2, rhs.l3]);
        let l: [u64; 4] = (a * b).into_limbs();
        U256 { l0: l[0], l1: l[1], l2: l[2], l3: l[3] }
    }

    /// Calls `/` of `alloy::primitives::U256`.
    ///
    /// The quotient is rounded down. A divisor of zero would panic and is left out.
    #[verifier::external_body]
    pub(crate) fn divided_by(self, rhs: U256) -> (r: U256)
        requires
            rhs@ != 0,
        ensures
            r@ == self@ / rhs@,
    {
        let a = alloy::primitives::U256::from_limbs([self.l0, self.l1, self.l2, self.l3]);
        let b = alloy::primitives::U256::from_limbs([rhs.l0, rhs.l1, rhs.l2, rhs.l3]);
        let l: [u64; 4] = (a / b).into_limbs();
        U256 { l0: l[0], l1: l[1], l2: l[2], l3: l[3] }
    }

    /// Calls `pow` of `alloy::primitives::U256`.
    ///
    /// The power wraps around at two to the power 256.
    #[verifier::external_body]
    pub(crate) fn to_the(self, exp: U256) -> (r: U256)
        ensures
            r@ == pow(self@ as int, exp@) % modulus() as int,
    {
        let a = alloy::primitives::U256::from_limbs([self.l0, self.l1, self.l2, self.l3]);
        let e = alloy::primitives::U256::from_limbs([exp.l0, exp.l1, exp.l2, exp.l3]);
        let l: [u64; 4] = a.pow(e).into_limbs();
        U256 { l0: l[0], l1: l[1], l2: l[2], l3: l[3] }
    }

    /// Calls `to_string` of `alloy::primitives::U256`.
    ///
    /// The text is the number in decimal, without leading zeros.
    #[verifier::external_body]
    pub(crate) fn to_decimal(self) -> (text: String)
        ensures
            text@ == decimal(self@),
    {
        alloy::primitives::U256::from_limbs([self.l0, self.l1, self.l2, self.l3]).to_string()
    }
}

} // verus!
