//! The price-propagation engine.
//!
//! Given one reference token and the executed trade legs, the engine
//! seeds `price[reference] = 10^decimals` and repeatedly scans the legs:
//! a leg with exactly one priced endpoint prices the other endpoint as
//! `price[known] * amount[known side] / amount[unknown side]`, with
//! exact integer arithmetic and truncating division.  A leg whose
//! endpoints are both priced, or neither, is deferred.  When a full scan
//! makes no progress, a leg still unpriced on both sides means the token
//! graph is disconnected; one already priced on both sides is an
//! over-determined cycle, which is surfaced rather than revalidated.
//!
//! The executable engine is proved equal to the spec-level mirror
//! [`propagate_spec`], so re-running propagation on the same input is
//! deterministic by construction.

use vstd::prelude::*;
use crate::models::batch_auction_model::{OrderModel, PriceVector};
use crate::num::{pow10, pow2_256, Address, Uint256};
use crate::num::{u256_checked_div, u256_checked_mul, u256_exp10, u256_is_zero};
use crate::solve::SolveError;

verus! {

/// One executed trade: the settlement sells `sell_amount` of
/// `sell_token` and buys `buy_amount` of `buy_token`.
#[derive(Clone, Copy, Debug, PartialEq, Eq, Structural)]
pub struct TradeLeg {
    pub sell_token: Address,
    pub sell_amount: Uint256,
    pub buy_token: Address,
    pub buy_amount: Uint256,
}

/// Both amounts of every leg are strictly positive.
pub open spec fn legs_positive(legs: Seq<TradeLeg>) -> bool {
    forall|i: int|
        0 <= i < legs.len() ==> (#[trigger] legs[i]).sell_amount.as_nat() > 0
            && legs[i].buy_amount.as_nat() > 0
}

/// What one scan step does to the price mapping: derive the unknown
/// endpoint of `leg` if exactly one endpoint is known (`Ok(Some(..))`),
/// defer the leg otherwise (`Ok(None)`), or fail when the product
/// leaves the 256-bit range or the derived price truncates to zero.
pub open spec fn derive_step(prices: Map<Address, nat>, leg: TradeLeg) -> Result<
    Option<Map<Address, nat>>,
    SolveError,
> {
    let sp = prices.contains_key(leg.sell_token);
    let bp = prices.contains_key(leg.buy_token);
    if sp && !bp {
        let prod = prices[leg.sell_token] * leg.sell_amount.as_nat();
        if prod >= pow2_256() {
            Err(SolveError::AmountOutOfRange)
        } else {
            let v = prod / leg.buy_amount.as_nat();
            if v == 0 {
                Err(SolveError::AmountOutOfRange)
            } else {
                Ok(Some(prices.insert(leg.buy_token, v)))
            }
        }
    } else if !sp && bp {
        let prod = prices[leg.buy_token] * leg.buy_amount.as_nat();
        if prod >= pow2_256() {
            Err(SolveError::AmountOutOfRange)
        } else {
            let v = prod / leg.sell_amount.as_nat();
            if v == 0 {
                Err(SolveError::AmountOutOfRange)
            } else {
                Ok(Some(prices.insert(leg.sell_token, v)))
            }
        }
    } else {
        Ok(None)
    }
}

/// One scan over the legs from index `i` on: the resulting prices, which
/// legs have been consumed, and whether any leg made progress.
pub open spec fn pass_from(
    legs: Seq<TradeLeg>,
    i: int,
    prices: Map<Address, nat>,
    consumed: Seq<bool>,
    progress: bool,
) -> Result<(Map<Address, nat>, Seq<bool>, bool), SolveError>
    decreases legs.len() - i,
{
    if i < 0 || i >= legs.len() {
        Ok((prices, consumed, progress))
    } else if consumed[i] {
        pass_from(legs, i + 1, prices, consumed, progress)
    } else {
        match derive_step(prices, legs[i]) {
            Err(e) => Err(e),
            Ok(None) => pass_from(legs, i + 1, prices, consumed, progress),
            Ok(Some(p2)) => pass_from(legs, i + 1, p2, consumed.update(i, true), true),
        }
    }
}

/// How many legs are still unconsumed.
pub open spec fn count_unconsumed(c: Seq<bool>) -> nat
    decreases c.len(),
{
    if c.len() == 0 {
        0
    } else {
        count_unconsumed(c.drop_last()) + if c.last() {
            0nat
        } else {
            1nat
        }
    }
}

/// Scans until a whole pass makes no progress.  `fuel` bounds the number
/// of passes; one more pass than there are legs always suffices, since
/// every pass but the last consumes at least one leg.
pub open spec fn run_passes(
    legs: Seq<TradeLeg>,
    prices: Map<Address, nat>,
    consumed: Seq<bool>,
    fuel: nat,
) -> Result<(Map<Address, nat>, Seq<bool>), SolveError>
    decreases fuel,
{
    if fuel == 0 {
        Ok((prices, consumed))
    } else {
        match pass_from(legs, 0, prices, consumed, false) {
            Err(e) => Err(e),
            Ok((p2, c2, prog)) => if !prog {
                Ok((p2, c2))
            } else {
                run_passes(legs, p2, c2, (fuel - 1) as nat)
            },
        }
    }
}

/// The verdict on the first leg no pass could consume: both endpoints
/// priced means an ambiguous cycle, neither means a disconnected graph.
pub open spec fn unconsumed_error(
    legs: Seq<TradeLeg>,
    prices: Map<Address, nat>,
    consumed: Seq<bool>,
    i: int,
) -> Option<SolveError>
    decreases legs.len() - i,
{
    if i < 0 || i >= legs.len() {
        None
    } else if consumed[i] {
        unconsumed_error(legs, prices, consumed, i + 1)
    } else if prices.contains_key(legs[i].sell_token) && prices.contains_key(
        legs[i].buy_token,
    ) {
        Some(SolveError::PriceGraphAmbiguous)
    } else {
        Some(SolveError::PriceGraphDisconnected)
    }
}

/// What propagation returns: the price mapping with the reference token
/// seeded at `10^ref_decimals`, every other price derived leg by leg, or
/// the first failure.
pub open spec fn propagate_spec(
    ref_token: Address,
    ref_decimals: u8,
    legs: Seq<TradeLeg>,
) -> Result<Map<Address, nat>, SolveError> {
    let init = Map::<Address, nat>::empty().insert(ref_token, pow10(ref_decimals as nat));
    let blank = Seq::<bool>::new(legs.len(), |i: int| false);
    match run_passes(legs, init, blank, legs.len() + 1) {
        Err(e) => Err(e),
        Ok((p, c)) => match unconsumed_error(legs, p, c, 0) {
            Some(e) => Err(e),
            None => Ok(p),
        },
    }
}

/// Whether `t` is an endpoint of some leg.
pub open spec fn token_in_legs(legs: Seq<TradeLeg>, t: Address) -> bool {
    exists|k: int|
        0 <= k < legs.len() && ((#[trigger] legs[k]).sell_token == t || legs[k].buy_token == t)
}

/// Whether the two prices of a leg's endpoints stand in the leg's exact
/// ratio, under truncating division, in at least one direction.
pub open spec fn leg_priced_consistently(m: Map<Address, nat>, leg: TradeLeg) -> bool {
    m[leg.buy_token] == m[leg.sell_token] * leg.sell_amount.as_nat() / leg.buy_amount.as_nat()
        || m[leg.sell_token] == m[leg.buy_token] * leg.buy_amount.as_nat()
        / leg.sell_amount.as_nat()
}

/// The soundness invariant propagation maintains: the reference token
/// keeps its seeded price, only leg endpoints are ever priced, prices
/// are positive 256-bit values, and every consumed leg's endpoints are
/// priced consistently.
pub open spec fn priced_state_ok(
    ref_token: Address,
    ref_decimals: u8,
    legs: Seq<TradeLeg>,
    m: Map<Address, nat>,
    c: Seq<bool>,
) -> bool {
    &&& m.contains_key(ref_token)
    &&& m[ref_token] == pow10(ref_decimals as nat)
    &&& forall|t: Address| #[trigger] m.contains_key(t) ==> t == ref_token || token_in_legs(legs, t)
    &&& forall|t: Address| #[trigger] m.contains_key(t) ==> 0 < m[t] < pow2_256()
    &&& forall|k: int|
        0 <= k < legs.len() && #[trigger] c[k] ==> m.contains_key(legs[k].sell_token)
            && m.contains_key(legs[k].buy_token) && leg_priced_consistently(m, legs[k])
}

proof fn lemma_pow10_pos(n: nat)
    ensures
        pow10(n) >= 1,
    decreases n,
{
    if n > 0 {
        lemma_pow10_pos((n - 1) as nat);
    }
}

proof fn lemma_pow10_increases(a: nat, b: nat)
    requires
        a <= b,
    ensures
        pow10(a) <= pow10(b),
    decreases b,
{
    if a < b {
        lemma_pow10_increases(a, (b - 1) as nat);
        lemma_pow10_pos((b - 1) as nat);
    }
}

/// `10^n` fits in 256 bits for every `n <= 77`.
pub proof fn lemma_pow10_fits(n: nat)
    requires
        n <= 77,
    ensures
        0 < pow10(n) < pow2_256(),
{
    lemma_pow10_pos(n);
    lemma_pow10_increases(n, 77);
    lemma_pow10_77();
}

proof fn lemma_pow10_sum(a: nat, b: nat)
    ensures
        pow10(a + b) == pow10(a) * pow10(b),
    decreases a,
{
    if a == 0 {
        assert(pow10(0 + b) == 1 * pow10(b));
    } else {
        lemma_pow10_sum((a - 1) as nat, b);
        assert(pow10(a + b) == 10 * pow10((a - 1) as nat + b));
        assert(10 * (pow10((a - 1) as nat) * pow10(b)) == (10 * pow10((a - 1) as nat)) * pow10(
            b,
        )) by (nonlinear_arith);
    }
}

proof fn lemma_pow10_77()
    ensures
        pow10(77) < pow2_256(),
{
    assert(pow10(11) == 100000000000nat) by {
        reveal_with_fuel(pow10, 12);
    }
    lemma_pow10_sum(11, 11);
    assert(pow10(22) == 10000000000000000000000nat);
    lemma_pow10_sum(22, 22);
    assert(pow10(44) == 100000000000000000000000000000000000000000000nat);
    lemma_pow10_sum(44, 22);
    assert(pow10(66) == 1000000000000000000000000000000000000000000000000000000000000000000nat);
    lemma_pow10_sum(66, 11);
    assert(pow10(77)
        == 100000000000000000000000000000000000000000000000000000000000000000000000000000nat);
}

proof fn lemma_derive_step_sound(
    ref_token: Address,
    ref_decimals: u8,
    legs: Seq<TradeLeg>,
    m: Map<Address, nat>,
    c: Seq<bool>,
    i: int,
)
    requires
        0 <= i < legs.len(),
        c.len() == legs.len(),
        !c[i],
        legs_positive(legs),
        priced_state_ok(ref_token, ref_decimals, legs, m, c),
    ensures
        match derive_step(m, legs[i]) {
            Ok(Some(m2)) => priced_state_ok(ref_token, ref_decimals, legs, m2, c.update(i, true)),
            Ok(None) => true,
            Err(_) => true,
        },
{
    let leg = legs[i];
    match derive_step(m, leg) {
        Ok(Some(m2)) => {
            let sp = m.contains_key(leg.sell_token);
            let known = if sp { leg.sell_token } else { leg.buy_token };
            let fresh = if sp { leg.buy_token } else { leg.sell_token };
            let amt_known = if sp { leg.sell_amount.as_nat() } else { leg.buy_amount.as_nat() };
            let amt_fresh = if sp { leg.buy_amount.as_nat() } else { leg.sell_amount.as_nat() };
            let prod = m[known] * amt_known;
            let v = prod / amt_fresh;
            assert(m2 == m.insert(fresh, v));
            assert(v <= prod) by (nonlinear_arith)
                requires
                    v == prod / amt_fresh,
                    amt_fresh >= 1,
            ;
            assert(token_in_legs(legs, fresh));
            assert forall|k: int|
                0 <= k < legs.len() && #[trigger] c.update(i, true)[k] implies m2.contains_key(
                legs[k].sell_token,
            ) && m2.contains_key(legs[k].buy_token) && leg_priced_consistently(m2, legs[k]) by {
                if k != i {
                    assert(c[k]);
                    assert(legs[k].sell_token != fresh && legs[k].buy_token != fresh);
                }
            }
        },
        _ => {},
    }
}

proof fn lemma_pass_from_sound(
    ref_token: Address,
    ref_decimals: u8,
    legs: Seq<TradeLeg>,
    i: int,
    m: Map<Address, nat>,
    c: Seq<bool>,
    progress: bool,
)
    requires
        0 <= i,
        c.len() == legs.len(),
        legs_positive(legs),
        priced_state_ok(ref_token, ref_decimals, legs, m, c),
    ensures
        match pass_from(legs, i, m, c, progress) {
            Ok((m2, c2, _)) => c2.len() == legs.len() && priced_state_ok(
                ref_token,
                ref_decimals,
                legs,
                m2,
                c2,
            ),
            Err(_) => true,
        },
    decreases legs.len() - i,
{
    if i >= legs.len() {
    } else if c[i] {
        lemma_pass_from_sound(ref_token, ref_decimals, legs, i + 1, m, c, progress);
    } else {
        match derive_step(m, legs[i]) {
            Err(_) => {},
            Ok(None) => {
                lemma_pass_from_sound(ref_token, ref_decimals, legs, i + 1, m, c, progress);
            },
            Ok(Some(m2)) => {
                lemma_derive_step_sound(ref_token, ref_decimals, legs, m, c, i);
                lemma_pass_from_sound(
                    ref_token,
                    ref_decimals,
                    legs,
                    i + 1,
                    m2,
                    c.update(i, true),
                    true,
                );
            },
        }
    }
}

proof fn lemma_run_passes_sound(
    ref_token: Address,
    ref_decimals: u8,
    legs: Seq<TradeLeg>,
    m: Map<Address, nat>,
    c: Seq<bool>,
    fuel: nat,
)
    requires
        c.len() == legs.len(),
        legs_positive(legs),
        priced_state_ok(ref_token, ref_decimals, legs, m, c),
    ensures
        match run_passes(legs, m, c, fuel) {
            Ok((m2, c2)) => c2.len() == legs.len() && priced_state_ok(
                ref_token,
                ref_decimals,
                legs,
                m2,
                c2,
            ),
            Err(_) => true,
        },
    decreases fuel,
{
    if fuel > 0 {
        lemma_pass_from_sound(ref_token, ref_decimals, legs, 0, m, c, false);
        match pass_from(legs, 0, m, c, false) {
            Err(_) => {},
            Ok((m2, c2, prog)) => {
                if prog {
                    lemma_run_passes_sound(ref_token, ref_decimals, legs, m2, c2, (fuel - 1) as nat);
                }
            },
        }
    }
}

proof fn lemma_unconsumed_none(legs: Seq<TradeLeg>, m: Map<Address, nat>, c: Seq<bool>, i: int)
    requires
        0 <= i,
        unconsumed_error(legs, m, c, i) is None,
    ensures
        forall|k: int| i <= k < legs.len() ==> c[k],
    decreases legs.len() - i,
{
    if i < legs.len() {
        lemma_unconsumed_none(legs, m, c, i + 1);
    }
}

/// Law: a successful propagation prices the reference token at
/// `10^ref_decimals`, prices both endpoints of every leg, prices no
/// token outside the legs and the reference, keeps every price a
/// positive 256-bit value, and relates every leg's two prices by the
/// leg's exact truncated ratio in at least one direction.
pub proof fn lemma_propagate_prices_cover_legs(
    ref_token: Address,
    ref_decimals: u8,
    legs: Seq<TradeLeg>,
    m: Map<Address, nat>,
)
    requires
        ref_decimals <= 77,
        legs_positive(legs),
        propagate_spec(ref_token, ref_decimals, legs) == Ok::<Map<Address, nat>, SolveError>(m),
    ensures
        m.contains_key(ref_token),
        m[ref_token] == pow10(ref_decimals as nat),
        forall|i: int|
            0 <= i < legs.len() ==> m.contains_key((#[trigger] legs[i]).sell_token)
                && m.contains_key(legs[i].buy_token),
        forall|i: int|
            0 <= i < legs.len() ==> leg_priced_consistently(m, #[trigger] legs[i]),
        forall|t: Address| #[trigger] m.contains_key(t) ==> t == ref_token || token_in_legs(legs, t),
        forall|t: Address| #[trigger] m.contains_key(t) ==> 0 < m[t] < pow2_256(),
{
    let init = Map::<Address, nat>::empty().insert(ref_token, pow10(ref_decimals as nat));
    let blank = Seq::<bool>::new(legs.len(), |i: int| false);
    lemma_pow10_fits(ref_decimals as nat);
    assert(priced_state_ok(ref_token, ref_decimals, legs, init, blank));
    lemma_run_passes_sound(ref_token, ref_decimals, legs, init, blank, legs.len() + 1);
    match run_passes(legs, init, blank, legs.len() + 1) {
        Err(_) => {},
        Ok((m2, c2)) => {
            lemma_unconsumed_none(legs, m2, c2, 0);
            assert(m == m2);
            assert forall|i: int| 0 <= i < legs.len() implies m.contains_key(
                (#[trigger] legs[i]).sell_token,
            ) && m.contains_key(legs[i].buy_token) && leg_priced_consistently(m, legs[i]) by {
                assert(c2[i]);
            }
        },
    }
}

proof fn lemma_pass_from_err_kind(
    legs: Seq<TradeLeg>,
    i: int,
    m: Map<Address, nat>,
    c: Seq<bool>,
    progress: bool,
)
    requires
        0 <= i,
    ensures
        pass_from(legs, i, m, c, progress) matches Err(e) ==> e == SolveError::AmountOutOfRange,
    decreases legs.len() - i,
{
    if i < legs.len() {
        if c[i] {
            lemma_pass_from_err_kind(legs, i + 1, m, c, progress);
        } else {
            match derive_step(m, legs[i]) {
                Err(_) => {},
                Ok(None) => {
                    lemma_pass_from_err_kind(legs, i + 1, m, c, progress);
                },
                Ok(Some(m2)) => {
                    lemma_pass_from_err_kind(legs, i + 1, m2, c.update(i, true), true);
                },
            }
        }
    }
}

proof fn lemma_run_passes_err_kind(
    legs: Seq<TradeLeg>,
    m: Map<Address, nat>,
    c: Seq<bool>,
    fuel: nat,
)
    ensures
        run_passes(legs, m, c, fuel) matches Err(e) ==> e == SolveError::AmountOutOfRange,
    decreases fuel,
{
    if fuel > 0 {
        lemma_pass_from_err_kind(legs, 0, m, c, false);
        match pass_from(legs, 0, m, c, false) {
            Err(_) => {},
            Ok((m2, c2, prog)) => {
                if prog {
                    lemma_run_passes_err_kind(legs, m2, c2, (fuel - 1) as nat);
                }
            },
        }
    }
}

proof fn lemma_unconsumed_error_kind(
    legs: Seq<TradeLeg>,
    m: Map<Address, nat>,
    c: Seq<bool>,
    i: int,
)
    ensures
        unconsumed_error(legs, m, c, i) matches Some(e) ==> e
            == SolveError::PriceGraphDisconnected || e == SolveError::PriceGraphAmbiguous,
    decreases legs.len() - i,
{
    if 0 <= i < legs.len() && c[i] {
        lemma_unconsumed_error_kind(legs, m, c, i + 1);
    }
}

/// Propagation fails only with a range violation, a disconnected token
/// graph, or an ambiguous cycle.
pub proof fn lemma_propagate_err_kind(ref_token: Address, ref_decimals: u8, legs: Seq<TradeLeg>)
    ensures
        propagate_spec(ref_token, ref_decimals, legs) matches Err(e) ==> e
            == SolveError::AmountOutOfRange || e == SolveError::PriceGraphDisconnected || e
            == SolveError::PriceGraphAmbiguous,
{
    let init = Map::<Address, nat>::empty().insert(ref_token, pow10(ref_decimals as nat));
    let blank = Seq::<bool>::new(legs.len(), |i: int| false);
    lemma_run_passes_err_kind(legs, init, blank, legs.len() + 1);
    match run_passes(legs, init, blank, legs.len() + 1) {
        Err(_) => {},
        Ok((p, c)) => {
            lemma_unconsumed_error_kind(legs, p, c, 0);
        },
    }
}

/// Whether one leg trades directly between `a` and `c`, either way.
pub open spec fn leg_joins(leg: TradeLeg, a: Address, c: Address) -> bool {
    (leg.sell_token == a && leg.buy_token == c) || (leg.sell_token == c && leg.buy_token == a)
}

/// Whether a chain of at most `n` legs links `a` to `b`.
pub open spec fn linked(legs: Seq<TradeLeg>, a: Address, b: Address, n: nat) -> bool
    decreases n,
{
    a == b || (n > 0 && exists|k: int, c: Address|
        0 <= k < legs.len() && #[trigger] leg_joins(legs[k], a, c) && linked(
            legs,
            c,
            b,
            (n - 1) as nat,
        ))
}

/// Whether some chain of legs links `a` to `b`.
pub open spec fn connected_to(legs: Seq<TradeLeg>, a: Address, b: Address) -> bool {
    exists|n: nat| linked(legs, a, b, n)
}

proof fn lemma_pass_from_keeps_progress(
    legs: Seq<TradeLeg>,
    i: int,
    m: Map<Address, nat>,
    c: Seq<bool>,
)
    requires
        0 <= i,
    ensures
        pass_from(legs, i, m, c, true) matches Ok((m2, c2, prog)) ==> prog,
    decreases legs.len() - i,
{
    if i < legs.len() {
        if c[i] {
            lemma_pass_from_keeps_progress(legs, i + 1, m, c);
        } else {
            match derive_step(m, legs[i]) {
                Err(_) => {},
                Ok(None) => {
                    lemma_pass_from_keeps_progress(legs, i + 1, m, c);
                },
                Ok(Some(m2)) => {
                    lemma_pass_from_keeps_progress(legs, i + 1, m2, c.update(i, true));
                },
            }
        }
    }
}

/// A pass that makes no progress leaves the state alone, and every leg
/// it left unconsumed has its endpoints both priced or neither.
proof fn lemma_pass_from_no_progress(
    legs: Seq<TradeLeg>,
    i: int,
    m: Map<Address, nat>,
    c: Seq<bool>,
)
    requires
        0 <= i,
        pass_from(legs, i, m, c, false) == Ok::<(Map<Address, nat>, Seq<bool>, bool), SolveError>(
            (m, c, false),
        ) || (pass_from(legs, i, m, c, false) matches Ok((m2, c2, prog)) && !prog),
    ensures
        pass_from(legs, i, m, c, false) == Ok::<(Map<Address, nat>, Seq<bool>, bool), SolveError>(
            (m, c, false),
        ),
        forall|j: int|
            i <= j < legs.len() && !c[j] ==> (m.contains_key((#[trigger] legs[j]).sell_token)
                <==> m.contains_key(legs[j].buy_token)),
    decreases legs.len() - i,
{
    if i < legs.len() {
        if c[i] {
            lemma_pass_from_no_progress(legs, i + 1, m, c);
        } else {
            match derive_step(m, legs[i]) {
                Err(_) => {},
                Ok(None) => {
                    lemma_pass_from_no_progress(legs, i + 1, m, c);
                },
                Ok(Some(m2)) => {
                    lemma_pass_from_keeps_progress(legs, i + 1, m2, c.update(i, true));
                },
            }
        }
    }
}

/// When the scanning settles on `Ok`, the result is a fixed point: one
/// more pass over it makes no progress.
proof fn lemma_run_passes_fixpoint(
    legs: Seq<TradeLeg>,
    m: Map<Address, nat>,
    c: Seq<bool>,
    fuel: nat,
)
    requires
        c.len() == legs.len(),
        fuel >= count_unconsumed(c) + 1,
    ensures
        run_passes(legs, m, c, fuel) matches Ok((m2, c2)) ==> pass_from(legs, 0, m2, c2, false)
            == Ok::<(Map<Address, nat>, Seq<bool>, bool), SolveError>((m2, c2, false)),
    decreases fuel,
{
    lemma_pass_from_consumes(legs, 0, m, c, false);
    match pass_from(legs, 0, m, c, false) {
        Err(_) => {},
        Ok((p2, q2, prog)) => {
            if !prog {
                lemma_pass_from_no_progress(legs, 0, m, c);
            } else {
                lemma_run_passes_fixpoint(legs, p2, q2, (fuel - 1) as nat);
            }
        },
    }
}

/// In a mapping whose domain is closed under the legs, everything a
/// priced token links to is priced.
proof fn lemma_closed_reaches(
    legs: Seq<TradeLeg>,
    m: Map<Address, nat>,
    a: Address,
    t: Address,
    n: nat,
)
    requires
        m.contains_key(a),
        linked(legs, a, t, n),
        forall|k: int|
            0 <= k < legs.len() ==> (m.contains_key((#[trigger] legs[k]).sell_token)
                <==> m.contains_key(legs[k].buy_token)),
    ensures
        m.contains_key(t),
    decreases n,
{
    if a != t {
        let (k, c) = choose|k: int, c: Address|
            0 <= k < legs.len() && #[trigger] leg_joins(legs[k], a, c) && linked(
                legs,
                c,
                t,
                (n - 1) as nat,
            );
        assert(m.contains_key((#[trigger] legs[k]).sell_token) <==> m.contains_key(
            legs[k].buy_token,
        ));
        lemma_closed_reaches(legs, m, c, t, (n - 1) as nat);
    }
}

proof fn lemma_unconsumed_error_all_priced(
    legs: Seq<TradeLeg>,
    m: Map<Address, nat>,
    c: Seq<bool>,
    i: int,
)
    requires
        forall|k: int|
            0 <= k < legs.len() ==> m.contains_key((#[trigger] legs[k]).sell_token)
                && m.contains_key(legs[k].buy_token),
    ensures
        unconsumed_error(legs, m, c, i) != Some(SolveError::PriceGraphDisconnected),
    decreases legs.len() - i,
{
    if 0 <= i < legs.len() && c[i] {
        lemma_unconsumed_error_all_priced(legs, m, c, i + 1);
    }
}

/// Law: when every traded token is linked to the reference token through
/// the legs, propagation never reports a disconnected token graph.  (It
/// may still reject an over-determined cycle or an out-of-range price.)
pub proof fn lemma_propagate_connected_not_disconnected(
    ref_token: Address,
    ref_decimals: u8,
    legs: Seq<TradeLeg>,
)
    requires
        ref_decimals <= 77,
        legs_positive(legs),
        forall|t: Address| token_in_legs(legs, t) ==> connected_to(legs, ref_token, t),
    ensures
        propagate_spec(ref_token, ref_decimals, legs) != Err::<Map<Address, nat>, SolveError>(
            SolveError::PriceGraphDisconnected,
        ),
{
    let init = Map::<Address, nat>::empty().insert(ref_token, pow10(ref_decimals as nat));
    let blank = Seq::<bool>::new(legs.len(), |i: int| false);
    lemma_pow10_fits(ref_decimals as nat);
    assert(priced_state_ok(ref_token, ref_decimals, legs, init, blank));
    lemma_run_passes_sound(ref_token, ref_decimals, legs, init, blank, legs.len() + 1);
    lemma_count_unconsumed_le_len(blank);
    lemma_run_passes_fixpoint(legs, init, blank, legs.len() + 1);
    lemma_run_passes_err_kind(legs, init, blank, legs.len() + 1);
    match run_passes(legs, init, blank, legs.len() + 1) {
        Err(_) => {},
        Ok((m2, c2)) => {
            lemma_pass_from_no_progress(legs, 0, m2, c2);
            assert forall|k: int|
                0 <= k < legs.len() implies (m2.contains_key(
                (#[trigger] legs[k]).sell_token,
            ) <==> m2.contains_key(legs[k].buy_token)) by {
                if c2[k] {
                } else {
                }
            }
            assert forall|k: int|
                0 <= k < legs.len() implies m2.contains_key((#[trigger] legs[k]).sell_token)
                && m2.contains_key(legs[k].buy_token) by {
                let t = legs[k].sell_token;
                assert(token_in_legs(legs, t));
                assert(connected_to(legs, ref_token, t));
                let n = choose|n: nat| linked(legs, ref_token, t, n);
                lemma_closed_reaches(legs, m2, ref_token, t, n);
            }
            lemma_unconsumed_error_all_priced(legs, m2, c2, 0);
        },
    }
}

/// Law: a single leg that sells the reference token prices its buy
/// token at exactly `price[reference] * sell_amount / buy_amount`,
/// whenever the product fits in 256 bits and the truncated quotient is
/// not zero.
pub proof fn lemma_single_leg_from_reference(ref_token: Address, ref_decimals: u8, leg: TradeLeg)
    requires
        leg.sell_token == ref_token,
        leg.buy_token != ref_token,
        leg.buy_amount.as_nat() > 0,
        pow10(ref_decimals as nat) * leg.sell_amount.as_nat() < pow2_256(),
        pow10(ref_decimals as nat) * leg.sell_amount.as_nat() / leg.buy_amount.as_nat() > 0,
    ensures
        ({
            let seeded = Map::<Address, nat>::empty().insert(
                ref_token,
                pow10(ref_decimals as nat),
            );
            let full = seeded.insert(
                leg.buy_token,
                pow10(ref_decimals as nat) * leg.sell_amount.as_nat() / leg.buy_amount.as_nat(),
            );
            propagate_spec(ref_token, ref_decimals, seq![leg]) == Ok::<
                Map<Address, nat>,
                SolveError,
            >(full)
        }),
{
    let legs = seq![leg];
    let seeded = Map::<Address, nat>::empty().insert(ref_token, pow10(ref_decimals as nat));
    let full = seeded.insert(
        leg.buy_token,
        pow10(ref_decimals as nat) * leg.sell_amount.as_nat() / leg.buy_amount.as_nat(),
    );
    let blank = Seq::<bool>::new(1, |i: int| false);
    let done = blank.update(0, true);
    assert(legs[0] == leg);
    assert(!blank[0] && done[0]);
    assert(derive_step(seeded, leg) == Ok::<Option<Map<Address, nat>>, SolveError>(Some(full)));
    assert(pass_from(legs, 1, full, done, true) == Ok::<_, SolveError>((full, done, true)));
    assert(pass_from(legs, 0, seeded, blank, false) == Ok::<_, SolveError>((full, done, true)));
    assert(derive_step(full, leg) == Ok::<Option<Map<Address, nat>>, SolveError>(None));
    assert(pass_from(legs, 1, full, done, false) == Ok::<_, SolveError>((full, done, false)));
    assert(pass_from(legs, 0, full, done, false) == Ok::<_, SolveError>((full, done, false)));
    assert(run_passes(legs, full, done, 1) == Ok::<_, SolveError>((full, done)));
    assert(run_passes(legs, seeded, blank, 2) == Ok::<_, SolveError>((full, done)));
    assert(unconsumed_error(legs, full, done, 1) is None);
    assert(unconsumed_error(legs, full, done, 0) is None);
}

proof fn lemma_count_unconsumed_update(c: Seq<bool>, i: int)
    requires
        0 <= i < c.len(),
        !c[i],
    ensures
        count_unconsumed(c.update(i, true)) == count_unconsumed(c) - 1,
    decreases c.len(),
{
    let cu = c.update(i, true);
    if i == c.len() - 1 {
        assert(cu.drop_last() =~= c.drop_last());
        assert(cu.last());
    } else {
        lemma_count_unconsumed_update(c.drop_last(), i);
        assert(cu.drop_last() =~= c.drop_last().update(i, true));
        assert(cu.last() == c.last());
    }
}

proof fn lemma_count_unconsumed_le_len(c: Seq<bool>)
    ensures
        count_unconsumed(c) <= c.len(),
    decreases c.len(),
{
    if c.len() > 0 {
        lemma_count_unconsumed_le_len(c.drop_last());
    }
}

/// A pass never grows the number of unconsumed legs, and a pass that
/// reports progress where none was carried in has consumed at least one.
proof fn lemma_pass_from_consumes(
    legs: Seq<TradeLeg>,
    i: int,
    prices: Map<Address, nat>,
    consumed: Seq<bool>,
    progress: bool,
)
    requires
        0 <= i,
        consumed.len() == legs.len(),
    ensures
        match pass_from(legs, i, prices, consumed, progress) {
            Ok((p2, c2, prog2)) => c2.len() == legs.len() && count_unconsumed(c2)
                <= count_unconsumed(consumed) && (prog2 && !progress ==> count_unconsumed(c2)
                < count_unconsumed(consumed)),
            Err(_) => true,
        },
    decreases legs.len() - i,
{
    if i >= legs.len() {
    } else if consumed[i] {
        lemma_pass_from_consumes(legs, i + 1, prices, consumed, progress);
    } else {
        match derive_step(prices, legs[i]) {
            Err(_) => {},
            Ok(None) => {
                lemma_pass_from_consumes(legs, i + 1, prices, consumed, progress);
            },
            Ok(Some(p2)) => {
                lemma_count_unconsumed_update(consumed, i);
                lemma_pass_from_consumes(legs, i + 1, p2, consumed.update(i, true), true);
            },
        }
    }
}

/// Prices the unknown endpoint of one leg, if exactly one endpoint is
/// known; reports whether the leg was consumed.
fn leg_step(leg: &TradeLeg, prices: &mut PriceVector) -> (r: Result<bool, SolveError>)
    requires
        old(prices).wf(),
        leg.sell_amount.as_nat() > 0,
        leg.buy_amount.as_nat() > 0,
    ensures
        final(prices).wf(),
        match r {
            Ok(true) => derive_step(old(prices).as_map(), *leg) == Ok::<_, SolveError>(
                Some(final(prices).as_map()),
            ),
            Ok(false) => derive_step(old(prices).as_map(), *leg) == Ok::<
                Option<Map<Address, nat>>,
                SolveError,
            >(None) && *final(prices) == *old(prices),
            Err(e) => derive_step(old(prices).as_map(), *leg) == Err::<
                Option<Map<Address, nat>>,
                SolveError,
            >(e) && *final(prices) == *old(prices),
        },
{
    let sell_price = prices.get(&leg.sell_token);
    let buy_price = prices.get(&leg.buy_token);
    match (sell_price, buy_price) {
        (Some(ps), None) => {
            match u256_checked_mul(&ps, &leg.sell_amount) {
                None => Err(SolveError::AmountOutOfRange),
                Some(prod) => {
                    match u256_checked_div(&prod, &leg.buy_amount) {
                        None => Err(SolveError::AmountOutOfRange),
                        Some(v) => {
                            if u256_is_zero(&v) {
                                Err(SolveError::AmountOutOfRange)
                            } else {
                                prices.insert_new(leg.buy_token, v);
                                Ok(true)
                            }
                        },
                    }
                },
            }
        },
        (None, Some(pb)) => {
            match u256_checked_mul(&pb, &leg.buy_amount) {
                None => Err(SolveError::AmountOutOfRange),
                Some(prod) => {
                    match u256_checked_div(&prod, &leg.sell_amount) {
                        None => Err(SolveError::AmountOutOfRange),
                        Some(v) => {
                            if u256_is_zero(&v) {
                                Err(SolveError::AmountOutOfRange)
                            } else {
                                prices.insert_new(leg.sell_token, v);
                                Ok(true)
                            }
                        },
                    }
                },
            }
        },
        _ => Ok(false),
    }
}

/// Prices one side of a single order's trade, given the realized
/// amounts: the side whose token is still unpriced gets
/// `price[known] * amount[known] / amount[unknown]`.  An order whose
/// tokens are both priced already, or neither, is a ring the engine
/// cannot deal with and is reported as such.
pub fn calculate_prices_for_order(
    order: &OrderModel,
    sell_amount: Uint256,
    buy_amount: Uint256,
    prices: &mut PriceVector,
) -> (r: Result<(), SolveError>)
    requires
        old(prices).wf(),
        sell_amount.as_nat() > 0,
        buy_amount.as_nat() > 0,
    ensures
        final(prices).wf(),
        ({
            let leg = TradeLeg {
                sell_token: order.sell_token,
                sell_amount,
                buy_token: order.buy_token,
                buy_amount,
            };
            match r {
                Ok(_) => derive_step(old(prices).as_map(), leg) == Ok::<_, SolveError>(
                    Some(final(prices).as_map()),
                ),
                Err(e) => *final(prices) == *old(prices) && match derive_step(
                    old(prices).as_map(),
                    leg,
                ) {
                    Ok(Some(_)) => false,
                    Ok(None) => (e == SolveError::PriceGraphAmbiguous && old(
                        prices,
                    ).as_map().contains_key(order.sell_token)) || (e
                        == SolveError::PriceGraphDisconnected && !old(
                        prices,
                    ).as_map().contains_key(order.sell_token)),
                    Err(e2) => e == e2,
                },
            }
        }),
{
    let leg = TradeLeg {
        sell_token: order.sell_token,
        sell_amount,
        buy_token: order.buy_token,
        buy_amount,
    };
    match leg_step(&leg, prices) {
        Err(e) => Err(e),
        Ok(true) => Ok(()),
        Ok(false) => {
            if prices.contains(&leg.sell_token) {
                Err(SolveError::PriceGraphAmbiguous)
            } else {
                Err(SolveError::PriceGraphDisconnected)
            }
        },
    }
}

/// One scan over all legs: consumes every leg it can price, and reports
/// whether any leg made progress.
fn one_pass(legs: &Vec<TradeLeg>, prices: &mut PriceVector, consumed: &mut Vec<bool>) -> (r:
    Result<bool, SolveError>)
    requires
        old(prices).wf(),
        old(consumed)@.len() == legs@.len(),
        legs_positive(legs@),
    ensures
        final(prices).wf(),
        final(consumed)@.len() == legs@.len(),
        match r {
            Ok(prog) => pass_from(legs@, 0, old(prices).as_map(), old(consumed)@, false)
                == Ok::<_, SolveError>((final(prices).as_map(), final(consumed)@, prog)),
            Err(e) => pass_from(legs@, 0, old(prices).as_map(), old(consumed)@, false) == Err::<
                (Map<Address, nat>, Seq<bool>, bool),
                SolveError,
            >(e),
        },
{
    let ghost p0 = prices.as_map();
    let ghost c0 = consumed@;
    let mut progress = false;
    let n = legs.len();
    for i in 0..n
        invariant
            prices.wf(),
            consumed@.len() == legs@.len(),
            legs_positive(legs@),
            n == legs@.len(),
            p0 == old(prices).as_map(),
            c0 == old(consumed)@,
            pass_from(legs@, 0, p0, c0, false) == pass_from(
                legs@,
                i as int,
                prices.as_map(),
                consumed@,
                progress,
            ),
    {
        let ghost pm = prices.as_map();
        let ghost cm = consumed@;
        let ghost pg = progress;
        if !consumed[i] {
            let leg = legs[i];
            let step = leg_step(&leg, prices);
            match step {
                Err(e) => {
                    proof {
                        assert(pass_from(legs@, i as int, pm, cm, pg) == Err::<
                            (Map<Address, nat>, Seq<bool>, bool),
                            SolveError,
                        >(e));
                    }
                    return Err(e);
                },
                Ok(true) => {
                    consumed.set(i, true);
                    progress = true;
                    proof {
                        assert(pass_from(legs@, i as int, pm, cm, pg) == pass_from(
                            legs@,
                            i as int + 1,
                            prices.as_map(),
                            cm.update(i as int, true),
                            true,
                        ));
                    }
                },
                Ok(false) => {
                    proof {
                        assert(pass_from(legs@, i as int, pm, cm, pg) == pass_from(
                            legs@,
                            i as int + 1,
                            pm,
                            cm,
                            pg,
                        ));
                    }
                },
            }
        } else {
            proof {
                assert(pass_from(legs@, i as int, pm, cm, pg) == pass_from(
                    legs@,
                    i as int + 1,
                    pm,
                    cm,
                    pg,
                ));
            }
        }
    }
    proof {
        assert(pass_from(legs@, legs@.len() as int, prices.as_map(), consumed@, progress)
            == Ok::<_, SolveError>((prices.as_map(), consumed@, progress)));
    }
    Ok(progress)
}

/// Computes the clearing-price vector for the given trade legs: the
/// reference token is priced `10^ref_decimals` and every token reachable
/// from it through the legs is priced by exact ratio propagation.  The
/// result, error or not, equals [`propagate_spec`] on the same input.
pub fn propagate(ref_token: &Address, ref_decimals: u8, legs: &Vec<TradeLeg>) -> (r: Result<
    PriceVector,
    SolveError,
>)
    requires
        ref_decimals <= 77,
        legs_positive(legs@),
    ensures
        match r {
            Ok(pv) => pv.wf() && propagate_spec(*ref_token, ref_decimals, legs@) == Ok::<
                Map<Address, nat>,
                SolveError,
            >(pv.as_map()),
            Err(e) => propagate_spec(*ref_token, ref_decimals, legs@) == Err::<
                Map<Address, nat>,
                SolveError,
            >(e),
        },
{
    let mut prices = PriceVector::new();
    let seed = u256_exp10(ref_decimals);
    prices.insert_new(*ref_token, seed);
    let mut consumed: Vec<bool> = Vec::new();
    let n = legs.len();
    for i in 0..n
        invariant
            consumed@.len() == i,
            forall|k: int| 0 <= k < i ==> !(#[trigger] consumed@[k]),
    {
        consumed.push(false);
    }
    proof {
        assert(consumed@ =~= Seq::<bool>::new(legs@.len(), |i: int| false));
        lemma_count_unconsumed_le_len(consumed@);
    }
    let ghost init_p = prices.as_map();
    let ghost init_c = consumed@;
    let ghost full_fuel: nat = legs@.len() + 1;
    let ghost mut fuel: nat = full_fuel;
    let mut again = true;
    while again
        invariant
            prices.wf(),
            consumed@.len() == legs@.len(),
            legs_positive(legs@),
            init_p == Map::<Address, nat>::empty().insert(*ref_token, pow10(ref_decimals as nat)),
            init_c == Seq::<bool>::new(legs@.len(), |k: int| false),
            full_fuel == legs@.len() + 1,
            fuel >= count_unconsumed(consumed@) + 1,
            again ==> run_passes(legs@, init_p, init_c, full_fuel) == run_passes(
                legs@,
                prices.as_map(),
                consumed@,
                fuel,
            ),
            !again ==> run_passes(legs@, init_p, init_c, full_fuel) == Ok::<_, SolveError>(
                (prices.as_map(), consumed@),
            ),
        decreases count_unconsumed(consumed@) + (if again { 1int } else { 0int }),
    {
        let ghost pm = prices.as_map();
        let ghost cm = consumed@;
        let ghost fuel_at = fuel;
        let res = one_pass(legs, &mut prices, &mut consumed);
        match res {
            Err(e) => {
                proof {
                    assert(run_passes(legs@, pm, cm, fuel_at) == Err::<
                        (Map<Address, nat>, Seq<bool>),
                        SolveError,
                    >(e));
                }
                return Err(e);
            },
            Ok(prog) => {
                proof {
                    lemma_pass_from_consumes(legs@, 0, pm, cm, false);
                    if prog {
                        assert(run_passes(legs@, pm, cm, fuel_at) == run_passes(
                            legs@,
                            prices.as_map(),
                            consumed@,
                            (fuel_at - 1) as nat,
                        ));
                        fuel = (fuel - 1) as nat;
                    } else {
                        assert(run_passes(legs@, pm, cm, fuel_at) == Ok::<_, SolveError>(
                            (prices.as_map(), consumed@),
                        ));
                    }
                }
                again = prog;
            },
        }
    }
    let m = legs.len();
    for i in 0..m
        invariant
            prices.wf(),
            consumed@.len() == legs@.len(),
            m == legs@.len(),
            init_p == Map::<Address, nat>::empty().insert(*ref_token, pow10(ref_decimals as nat)),
            init_c == Seq::<bool>::new(legs@.len(), |k: int| false),
            full_fuel == legs@.len() + 1,

            run_passes(legs@, init_p, init_c, full_fuel) == Ok::<_, SolveError>(
                (prices.as_map(), consumed@),
            ),
            unconsumed_error(legs@, prices.as_map(), consumed@, 0) == unconsumed_error(
                legs@,
                prices.as_map(),
                consumed@,
                i as int,
            ),
    {
        if !consumed[i] {
            let leg = legs[i];
            let sp = prices.contains(&leg.sell_token);
            let bp = prices.contains(&leg.buy_token);
            if sp && bp {
                return Err(SolveError::PriceGraphAmbiguous);
            } else {
                return Err(SolveError::PriceGraphDisconnected);
            }
        }
    }
    Ok(prices)
}

} // verus!
