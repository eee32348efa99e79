//! 256-bit unsigned amounts and 160-bit account addresses.
//!
//! Every trade amount and every price in the settlement pipeline is a
//! 256-bit unsigned integer.  The type here carries the value as four
//! 64-bit limbs, least significant first, and its contracts speak of the
//! mathematical value [`Uint256::as_nat`].  The checked arithmetic is
//! delegated to web3's `U256` behind trusted wrappers; comparisons are
//! verified limb by limb.

use vstd::prelude::*;

verus! {

/// A 256-bit unsigned integer: four 64-bit limbs, least significant first.
#[derive(Clone, Copy, Debug, PartialEq, Eq, Structural)]
pub struct Uint256 {
    pub l0: u64,
    pub l1: u64,
    pub l2: u64,
    pub l3: u64,
}

/// A 20-byte account address: the 4 most significant bytes, then the 16
/// least significant ones.
#[derive(Clone, Copy, Debug, PartialEq, Eq, Structural)]
pub struct Address {
    pub hi: u32,
    pub lo: u128,
}

impl Uint256 {
    /// The mathematical value of the four limbs.
    pub open spec fn as_nat(self) -> nat {
        (self.l3 * 0x10000000000000000nat * 0x10000000000000000nat * 0x10000000000000000nat
            + self.l2 * 0x10000000000000000nat * 0x10000000000000000nat
            + self.l1 * 0x10000000000000000nat + self.l0) as nat
    }

    /// Strict lexicographic order on the limbs, most significant first.
    pub open spec fn lex_lt(self, other: Self) -> bool {
        self.l3 < other.l3
            || (self.l3 == other.l3 && self.l2 < other.l2)
            || (self.l3 == other.l3 && self.l2 == other.l2 && self.l1 < other.l1)
            || (self.l3 == other.l3 && self.l2 == other.l2 && self.l1 == other.l1
                && self.l0 < other.l0)
    }
}

impl Address {
    /// The address read as a 160-bit number.
    pub open spec fn as_nat(self) -> nat {
        (self.hi * 0x100000000000000000000000000000000nat + self.lo) as nat
    }
}

/// One more than the largest 256-bit value.
pub open spec fn pow2_256() -> nat {
    0x10000000000000000000000000000000000000000000000000000000000000000nat
}

/// `10^n`.
pub open spec fn pow10(n: nat) -> nat
    decreases n,
{
    if n == 0 {
        1
    } else {
        10 * pow10((n - 1) as nat)
    }
}

proof fn lemma_scale_lt(x: nat, y: nat, a: nat, b: nat, base: nat)
    requires
        x < y,
        a < base,
    ensures
        x * base + a < y * base + b,
{
    assert(x * base + a < y * base + b) by (nonlinear_arith)
        requires
            x < y,
            a < base,
    ;
}

/// A strict lexicographic order on the limbs means a strictly smaller value.
proof fn lemma_lex_lt(a: Uint256, b: Uint256)
    requires
        a.lex_lt(b),
    ensures
        a.as_nat() < b.as_nat(),
{
    let base: nat = 0x10000000000000000;
    let a2: nat = (a.l3 * base + a.l2) as nat;
    let b2: nat = (b.l3 * base + b.l2) as nat;
    let a1: nat = (a2 * base + a.l1) as nat;
    let b1: nat = (b2 * base + b.l1) as nat;
    if a.l3 < b.l3 {
        lemma_scale_lt(a.l3 as nat, b.l3 as nat, a.l2 as nat, b.l2 as nat, base);
    }
    if a2 < b2 {
        lemma_scale_lt(a2, b2, a.l1 as nat, b.l1 as nat, base);
    }
    if a1 < b1 {
        lemma_scale_lt(a1, b1, a.l0 as nat, b.l0 as nat, base);
    }
}

/// Equal values have equal limbs: the limb form of a number is unique.
pub proof fn lemma_uint256_value_injective(a: Uint256, b: Uint256)
    requires
        a.as_nat() == b.as_nat(),
    ensures
        a == b,
{
    if a.lex_lt(b) {
        lemma_lex_lt(a, b);
    }
    if b.lex_lt(a) {
        lemma_lex_lt(b, a);
    }
}

/// Whether `a <= b` as 256-bit values.
pub fn u256_le(a: &Uint256, b: &Uint256) -> (r: bool)
    ensures
        r == (a.as_nat() <= b.as_nat()),
{
    proof {
        if a.lex_lt(*b) {
            lemma_lex_lt(*a, *b);
        }
        if b.lex_lt(*a) {
            lemma_lex_lt(*b, *a);
        }
    }
    if a.l3 != b.l3 {
        a.l3 < b.l3
    } else if a.l2 != b.l2 {
        a.l2 < b.l2
    } else if a.l1 != b.l1 {
        a.l1 < b.l1
    } else {
        a.l0 <= b.l0
    }
}

/// Whether `a == b` as 256-bit values.
pub fn u256_eq(a: &Uint256, b: &Uint256) -> (r: bool)
    ensures
        r == (a.as_nat() == b.as_nat()),
{
    proof {
        if a.lex_lt(*b) {
            lemma_lex_lt(*a, *b);
        }
        if b.lex_lt(*a) {
            lemma_lex_lt(*b, *a);
        }
    }
    a.l0 == b.l0 && a.l1 == b.l1 && a.l2 == b.l2 && a.l3 == b.l3
}

/// Whether `a` is zero.
pub fn u256_is_zero(a: &Uint256) -> (r: bool)
    ensures
        r == (a.as_nat() == 0),
{
    let zero = Uint256 { l0: 0, l1: 0, l2: 0, l3: 0 };
    u256_eq(a, &zero)
}

/// The 256-bit value of a small constant.
pub fn u256_from_u64(x: u64) -> (r: Uint256)
    ensures
        r.as_nat() == x,
{
    Uint256 { l0: x, l1: 0, l2: 0, l3: 0 }
}

/// Relies on web3's `U256::checked_mul` (the `uint` crate's four-limb
/// integer): the product when it fits in 256 bits, `None` otherwise.
#[verifier::external_body]
pub fn u256_checked_mul(a: &Uint256, b: &Uint256) -> (r: Option<Uint256>)
    ensures
        r is Some <==> a.as_nat() * b.as_nat() < pow2_256(),
        r matches Some(v) ==> v.as_nat() == a.as_nat() * b.as_nat(),
{
    let x = web3::types::U256([a.l0, a.l1, a.l2, a.l3]);
    let y = web3::types::U256([b.l0, b.l1, b.l2, b.l3]);
    x.checked_mul(y).map(|z| Uint256 { l0: z.0[0], l1: z.0[1], l2: z.0[2], l3: z.0[3] })
}

/// Relies on web3's `U256::checked_div`: the quotient rounded towards
/// zero, or `None` for a zero divisor.
#[verifier::external_body]
pub fn u256_checked_div(a: &Uint256, b: &Uint256) -> (r: Option<Uint256>)
    ensures
        r is Some <==> b.as_nat() != 0,
        r matches Some(v) ==> v.as_nat() == a.as_nat() / b.as_nat(),
{
    let x = web3::types::U256([a.l0, a.l1, a.l2, a.l3]);
    let y = web3::types::U256([b.l0, b.l1, b.l2, b.l3]);
    x.checked_div(y).map(|z| Uint256 { l0: z.0[0], l1: z.0[1], l2: z.0[2], l3: z.0[3] })
}

/// Relies on web3's `U256::checked_add`: the sum when it fits in 256
/// bits, `None` otherwise.
#[verifier::external_body]
pub fn u256_checked_add(a: &Uint256, b: &Uint256) -> (r: Option<Uint256>)
    ensures
        r is Some <==> a.as_nat() + b.as_nat() < pow2_256(),
        r matches Some(v) ==> v.as_nat() == a.as_nat() + b.as_nat(),
{
    let x = web3::types::U256([a.l0, a.l1, a.l2, a.l3]);
    let y = web3::types::U256([b.l0, b.l1, b.l2, b.l3]);
    x.checked_add(y).map(|z| Uint256 { l0: z.0[0], l1: z.0[1], l2: z.0[2], l3: z.0[3] })
}

/// Relies on web3's `U256::exp10`: `10^n`, which fits in 256 bits for
/// `n <= 77` and panics beyond that.
#[verifier::external_body]
pub fn u256_exp10(n: u8) -> (r: Uint256)
    requires
        n <= 77,
    ensures
        r.as_nat() == pow10(n as nat),
{
    let z = web3::types::U256::exp10(n as usize);
    Uint256 { l0: z.0[0], l1: z.0[1], l2: z.0[2], l3: z.0[3] }
}

/// Whether address `a` precedes or equals address `b` numerically.
pub fn address_le(a: &Address, b: &Address) -> (r: bool)
    ensures
        r == (a.as_nat() <= b.as_nat()),
{
    proof {
        if a.hi < b.hi {
            lemma_scale_lt(a.hi as nat, b.hi as nat, a.lo as nat, b.lo as nat,
                0x100000000000000000000000000000000nat);
        }
        if b.hi < a.hi {
            lemma_scale_lt(b.hi as nat, a.hi as nat, b.lo as nat, a.lo as nat,
                0x100000000000000000000000000000000nat);
        }
    }
    if a.hi != b.hi {
        a.hi < b.hi
    } else {
        a.lo <= b.lo
    }
}

} // verus!
