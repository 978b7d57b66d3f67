//! Unsigned 256-bit integers, held as four 64-bit limbs, least significant
//! first. Arithmetic and formatting go through `casper_types::U256`.

use vstd::prelude::*;
use crate::digits::digits;
use vstd::arithmetic::div_mod::lemma_fundamental_div_mod_converse;

verus! {

/// 2 to the 64.
pub open spec fn limb_base() -> int {
    0x1_0000_0000_0000_0000
}

/// 2 to the 256: every value lies below it.
pub open spec fn uint_bound() -> int {
    limb_base() * limb_base() * limb_base() * limb_base()
}

/// An unsigned 256-bit integer.
#[derive(Clone, Copy, Debug, PartialEq, Eq, Structural)]
pub struct Uint256 {
    pub l0: u64,
    pub l1: u64,
    pub l2: u64,
    pub l3: u64,
}

impl Uint256 {
    /// The number that the limbs stand for.
    pub open spec fn value(self) -> nat {
        (self.l0 + limb_base() * (self.l1 + limb_base() * (self.l2 + limb_base() * self.l3))) as nat
    }

    /// The number `n`.
    pub fn from_u64(n: u64) -> (r: Uint256)
        ensures
            r.value() == n,
    {
        Uint256 { l0: n, l1: 0, l2: 0, l3: 0 }
    }

    /// Zero.
    pub fn zero() -> (r: Uint256)
        ensures
            r.value() == 0,
    {
        Uint256::from_u64(0)
    }

    /// One.
    pub fn one() -> (r: Uint256)
        ensures
            r.value() == 1,
    {
        Uint256::from_u64(1)
    }
}

/// Distinct limbs stand for distinct numbers.
pub proof fn lemma_value_injective(a: Uint256, b: Uint256)
    requires
        a.value() == b.value(),
    ensures
        a == b,
{
    let m = limb_base();
    let ra = a.l1 + m * (a.l2 + m * a.l3);
    let rb = b.l1 + m * (b.l2 + m * b.l3);
    let sa = a.l2 + m * a.l3;
    let sb = b.l2 + m * b.l3;
    assert(ra >= 0 && rb >= 0 && sa >= 0 && sb >= 0) by (nonlinear_arith)
        requires
            m > 0,
            ra == a.l1 + m * (a.l2 + m * a.l3),
            rb == b.l1 + m * (b.l2 + m * b.l3),
            sa == a.l2 + m * a.l3,
            sb == b.l2 + m * b.l3,
            a.l1 >= 0, a.l2 >= 0, a.l3 >= 0, b.l1 >= 0, b.l2 >= 0, b.l3 >= 0,
    ;
    let x = a.value() as int;
    assert(x == ra * m + a.l0);
    assert(x == rb * m + b.l0);
    lemma_fundamental_div_mod_converse(x, m, ra, a.l0 as int);
    lemma_fundamental_div_mod_converse(x, m, rb, b.l0 as int);
    assert(ra == sa * m + a.l1);
    assert(rb == sb * m + b.l1);
    lemma_fundamental_div_mod_converse(ra, m, sa, a.l1 as int);
    lemma_fundamental_div_mod_converse(ra, m, sb, b.l1 as int);
    assert(sa == a.l3 * m + a.l2);
    assert(sb == b.l3 * m + b.l2);
    lemma_fundamental_div_mod_converse(sa, m, a.l3 as int, a.l2 as int);
    lemma_fundamental_div_mod_converse(sa, m, b.l3 as int, b.l2 as int);
}

/// Relies on `U256::checked_add`: the sum, or `None` where it reaches 2^256.
#[verifier::external_body]
pub(crate) fn checked_add(a: Uint256, b: Uint256) -> (r: Option<Uint256>)
    ensures
        r.is_some() <==> a.value() + b.value() < uint_bound(),
        r.is_some() ==> r.unwrap().value() == a.value() + b.value(),
{
    let x = casper_types::U256([a.l0, a.l1, a.l2, a.l3]);
    let y = casper_types::U256([b.l0, b.l1, b.l2, b.l3]);
    x.checked_add(y).map(|v| Uint256 { l0: v.0[0], l1: v.0[1], l2: v.0[2], l3: v.0[3] })
}

/// Relies on `U256::checked_sub`: the difference, or `None` where it would be
/// negative.
#[verifier::external_body]
pub(crate) fn checked_sub(a: Uint256, b: Uint256) -> (r: Option<Uint256>)
    ensures
        r.is_some() <==> a.value() >= b.value(),
        r.is_some() ==> r.unwrap().value() == a.value() - b.value(),
{
    let x = casper_types::U256([a.l0, a.l1, a.l2, a.l3]);
    let y = casper_types::U256([b.l0, b.l1, b.l2, b.l3]);
    x.checked_sub(y).map(|v| Uint256 { l0: v.0[0], l1: v.0[1], l2: v.0[2], l3: v.0[3] })
}

/// Relies on `U256`'s `Display`: the number in decimal, without leading zeros.
#[verifier::external_body]
pub(crate) fn to_decimal(a: Uint256) -> (r: String)
    ensures
        r@ == digits(a.value(), 10),
{
    casper_types::U256([a.l0, a.l1, a.l2, a.l3]).to_string()
}

/// Relies on `U256`'s `LowerHex`: the number in lower-case hexadecimal,
/// without leading zeros and without a `0x` prefix.
#[verifier::external_body]
pub(crate) fn to_lower_hex(a: Uint256) -> (r: String)
    ensures
        r@ == digits(a.value(), 16),
{
    format!("{:x}", casper_types::U256([a.l0, a.l1, a.l2, a.l3]))
}

} // verus!
