//! The settlement builder: validates the externally supplied matching
//! decision, derives clearing prices, builds executed-order records,
//! approvals and encoded interactions, and guards the round against
//! being encoded twice.

pub mod plan;
pub mod propagation;

use vstd::prelude::*;
use crate::interactions::settlement_contract::{swap_call_data, MooSettlementInteraction};
use crate::interactions::{copy_bytes, Interaction};
use crate::models::batch_auction_model::{
    ApprovalModel, BatchAuctionModel, ExecutedAmmModel, ExecutedOrderModel, ExecutionPlan,
    ExecutionPlanCoordinatesModel, InteractionData, OrderModel, SettledBatchAuctionModel,
    TokenAmount, TokenInfoModel, UpdatedAmmModel,
};
use crate::models::settlement_contract_data::Order;
use crate::num::{
    address_le, pow2_256, u256_checked_add, u256_eq, u256_is_zero, u256_le, Address, Uint256,
};
use crate::solve::plan::assign_or_validate;
use crate::solve::propagation::{legs_positive, propagate, propagate_spec, TradeLeg};

verus! {

/// Why building a settlement failed.  Each kind is surfaced to the
/// caller as a tagged, machine-readable error.
#[derive(Clone, Copy, Debug, PartialEq, Eq, Structural)]
pub enum SolveError {
    /// The request violates the input schema: an unknown or repeated
    /// order key, a zero executed amount, or an unusable decimal scale.
    MalformedInput,
    /// A filled amount is illegal for its order.
    OrderConstraintViolation,
    /// Price propagation could not reach some traded token from the
    /// reference token.
    PriceGraphDisconnected,
    /// A trade leg's tokens were both priced already: an over-determined
    /// cycle that is not silently resolved.
    PriceGraphAmbiguous,
    /// Two interactions share an execution-plan coordinate.
    DuplicateExecutionPlan,
    /// A price computation left the 256-bit range (a product overflowed,
    /// or a price truncated to zero).
    AmountOutOfRange,
}

impl SolveError {
    /// A human-readable description of the failure.
    pub fn description(&self) -> (r: &'static str)
    {
        match self {
            SolveError::MalformedInput => "malformed input",
            SolveError::OrderConstraintViolation => "filled amount violates order constraints",
            SolveError::PriceGraphDisconnected => "disconnected token graph",
            SolveError::PriceGraphAmbiguous => "can't deal with such a ring",
            SolveError::DuplicateExecutionPlan => "duplicate execution plan coordinates",
            SolveError::AmountOutOfRange => "amount outside the 256-bit range",
        }
    }
}

/// The idempotency state of one settlement round.
#[derive(Clone, Copy, Debug, PartialEq, Eq, Structural)]
pub enum RoundState {
    /// No settlement was returned for this round yet.
    Pending,
    /// A settlement was returned; any further build request for the
    /// round receives an empty settlement.
    Executed,
}

/// What one claim does: the round is executed afterwards, and the claim
/// wins exactly when the round was still pending.
pub open spec fn claim_spec(s: RoundState) -> (RoundState, bool) {
    (RoundState::Executed, s is Pending)
}

impl RoundState {
    /// Claims the round, reporting whether this caller won the
    /// `Pending` to `Executed` edge.
    pub fn claim(&mut self) -> (won: bool)
        ensures
            (*final(self), won) == claim_spec(*old(self)),
    {
        let won = match self {
            RoundState::Pending => true,
            RoundState::Executed => false,
        };
        *self = RoundState::Executed;
        won
    }
}

/// Law: of two successive claims on one round, at most one wins; from a
/// pending round, exactly the first one does, and every later claim
/// loses.
pub proof fn lemma_claim_at_most_once(s0: RoundState)
    ensures
        ({
            let (s1, w1) = claim_spec(s0);
            let (s2, w2) = claim_spec(s1);
            &&& !(w1 && w2)
            &&& (s0 is Pending ==> w1 && !w2)
            &&& s2 is Executed
        }),
{
}

/// The first order carrying the given identifier.
pub open spec fn find_order(s: Seq<(usize, OrderModel)>, id: usize) -> Option<OrderModel>
    decreases s.len(),
{
    if s.len() == 0 {
        None
    } else if s[0].0 == id {
        Some(s[0].1)
    } else {
        find_order(s.drop_first(), id)
    }
}

/// Looks an order up by its identifier.
pub fn lookup_order(orders: &Vec<(usize, OrderModel)>, id: usize) -> (r: Option<OrderModel>)
    ensures
        r == find_order(orders@, id),
{
    proof {
        assert(orders@.skip(0) =~= orders@);
    }
    let n = orders.len();
    for i in 0..n
        invariant
            n == orders@.len(),
            find_order(orders@, id) == find_order(orders@.skip(i as int), id),
    {
        proof {
            assert(orders@.skip(i as int).drop_first() =~= orders@.skip(i as int + 1));
            assert(orders@.skip(i as int)[0] == orders@[i as int]);
        }
        if orders[i].0 == id {
            return Some(orders[i].1);
        }
    }
    proof {
        assert(orders@.skip(n as int).len() == 0);
    }
    None
}

/// The first token record carrying the given address.
pub open spec fn find_token(s: Seq<(Address, TokenInfoModel)>, a: Address) -> Option<
    TokenInfoModel,
>
    decreases s.len(),
{
    if s.len() == 0 {
        None
    } else if s[0].0 == a {
        Some(s[0].1)
    } else {
        find_token(s.drop_first(), a)
    }
}

/// Looks a token's info up by address.
pub fn lookup_token(tokens: &Vec<(Address, TokenInfoModel)>, a: &Address) -> (r: Option<
    TokenInfoModel,
>)
    ensures
        r == find_token(tokens@, *a),
{
    proof {
        assert(tokens@.skip(0) =~= tokens@);
    }
    let n = tokens.len();
    for i in 0..n
        invariant
            n == tokens@.len(),
            find_token(tokens@, *a) == find_token(tokens@.skip(i as int), *a),
    {
        proof {
            assert(tokens@.skip(i as int).drop_first() =~= tokens@.skip(i as int + 1));
            assert(tokens@.skip(i as int)[0] == tokens@[i as int]);
        }
        if tokens[i].0 == *a {
            return Some(tokens[i].1);
        }
    }
    proof {
        assert(tokens@.skip(n as int).len() == 0);
    }
    None
}

/// A token's normalization priority; a token without one ranks below
/// every token that has one.
pub open spec fn priority_of(t: TokenInfoModel) -> int {
    match t.normalize_priority {
        Some(p) => p as int,
        None => -1,
    }
}

/// Whether entry `k` is a valid reference-token choice: no token has a
/// higher priority, and among equal priorities none has a lower address.
pub open spec fn is_best_ref(tokens: Seq<(Address, TokenInfoModel)>, k: int) -> bool {
    &&& 0 <= k < tokens.len()
    &&& forall|j: int|
        0 <= j < tokens.len() ==> priority_of((#[trigger] tokens[j]).1) < priority_of(tokens[k].1)
            || (priority_of(tokens[j].1) == priority_of(tokens[k].1) && tokens[k].0.as_nat()
            <= tokens[j].0.as_nat())
}

/// Whether `a` is the address of a valid reference-token choice.
pub open spec fn ref_token_is(tokens: Seq<(Address, TokenInfoModel)>, a: Address) -> bool {
    exists|k: int| is_best_ref(tokens, k) && (#[trigger] tokens[k]).0 == a
}

/// Picks the reference token: the highest normalization priority, ties
/// broken by the lowest address, for determinism.
pub fn get_ref_token(tokens: &Vec<(Address, TokenInfoModel)>) -> (r: Option<Address>)
    ensures
        r is Some <==> tokens@.len() > 0,
        r matches Some(a) ==> ref_token_is(tokens@, a),
{
    if tokens.len() == 0 {
        return None;
    }
    let mut best: usize = 0;
    let n = tokens.len();
    for i in 1..n
        invariant
            n == tokens@.len(),
            best < i,
            forall|j: int|
                0 <= j < i ==> priority_of((#[trigger] tokens@[j]).1) < priority_of(
                    tokens@[best as int].1,
                ) || (priority_of(tokens@[j].1) == priority_of(tokens@[best as int].1)
                    && tokens@[best as int].0.as_nat() <= tokens@[j].0.as_nat()),
    {
        let better = {
            let cur = &tokens[i].1;
            let b = &tokens[best].1;
            let cur_p = match cur.normalize_priority {
                Some(p) => Some(p),
                None => None,
            };
            let best_p = match b.normalize_priority {
                Some(p) => Some(p),
                None => None,
            };
            match (cur_p, best_p) {
                (Some(cp), Some(bp)) => cp > bp || (cp == bp && !address_le(
                    &tokens[best].0,
                    &tokens[i].0,
                )),
                (Some(_), None) => true,
                (None, Some(_)) => false,
                (None, None) => !address_le(&tokens[best].0, &tokens[i].0),
            }
        };
        if better {
            best = i;
        }
    }
    proof {
        assert(is_best_ref(tokens@, best as int));
    }
    Some(tokens[best].0)
}

/// Token moves with their amounts read as numbers.
pub open spec fn moves_view(s: Seq<(Address, Uint256)>) -> Seq<(Address, nat)> {
    s.map(|i: int, p: (Address, Uint256)| (p.0, p.1.as_nat()))
}

/// The total amount of token `t` the moves take out of the caller's
/// custody.
pub open spec fn sum_moved(moves: Seq<(Address, nat)>, t: Address) -> nat
    decreases moves.len(),
{
    if moves.len() == 0 {
        0
    } else {
        sum_moved(moves.drop_last(), t) + if moves.last().0 == t {
            moves.last().1
        } else {
            0nat
        }
    }
}

/// Whether some move touches token `t`.
pub open spec fn token_moved(moves: Seq<(Address, nat)>, t: Address) -> bool {
    exists|k: int| 0 <= k < moves.len() && (#[trigger] moves[k]).0 == t
}

/// The approvals a set of moves owes: one approval per moved token and
/// no other, towards the one spender, with the exact moved total.
pub open spec fn approvals_exact(
    moves: Seq<(Address, nat)>,
    spender: Address,
    v: Seq<ApprovalModel>,
) -> bool {
    &&& forall|a: int, b: int|
        0 <= a < b < v.len() ==> (#[trigger] v[a]).token != (#[trigger] v[b]).token
    &&& forall|a: int|
        0 <= a < v.len() ==> (#[trigger] v[a]).spender == spender && token_moved(moves, v[a].token)
            && v[a].amount.as_nat() == sum_moved(moves, v[a].token)
    &&& forall|t: Address|
        #[trigger] token_moved(moves, t) ==> exists|a: int|
            0 <= a < v.len() && (#[trigger] v[a]).token == t
}

proof fn lemma_sum_moved_prefix_le(mv: Seq<(Address, nat)>, i: int, t: Address)
    requires
        0 <= i <= mv.len(),
    ensures
        sum_moved(mv.take(i), t) <= sum_moved(mv, t),
    decreases mv.len(),
{
    if i == mv.len() {
        assert(mv.take(i) =~= mv);
    } else {
        assert(mv.take(i) =~= mv.drop_last().take(i));
        lemma_sum_moved_prefix_le(mv.drop_last(), i, t);
    }
}

fn find_approval(out: &Vec<ApprovalModel>, tok: &Address) -> (r: Option<usize>)
    ensures
        r matches Some(j) ==> j < out@.len() && out@[j as int].token == *tok,
        r is None ==> forall|j: int| 0 <= j < out@.len() ==> (#[trigger] out@[j]).token != *tok,
{
    let m = out.len();
    for j in 0..m
        invariant
            m == out@.len(),
            forall|k: int| 0 <= k < j ==> (#[trigger] out@[k]).token != *tok,
    {
        if out[j].token == *tok {
            return Some(j);
        }
    }
    None
}

proof fn lemma_sum_not_moved(mv: Seq<(Address, nat)>, t: Address)
    requires
        !token_moved(mv, t),
    ensures
        sum_moved(mv, t) == 0,
    decreases mv.len(),
{
    if mv.len() > 0 {
        assert(forall|k: int| 0 <= k < mv.len() - 1 ==> (#[trigger] mv.drop_last()[k]) == mv[k]);
        assert(!token_moved(mv.drop_last(), t));
        lemma_sum_not_moved(mv.drop_last(), t);
        assert((#[trigger] mv[mv.len() - 1]).0 == mv.last().0);
        assert(mv.last().0 != t);
    }
}

/// Builds the approvals a set of token moves owes: exactly one approval
/// per moved token, towards the given spender, with amount equal to the
/// total moved amount of that token.
pub fn build_approvals(moves: &Vec<(Address, Uint256)>, spender: &Address) -> (r: Result<
    Vec<ApprovalModel>,
    SolveError,
>)
    ensures
        match r {
            Ok(v) => approvals_exact(moves_view(moves@), *spender, v@),
            Err(e) => e == SolveError::AmountOutOfRange && exists|t: Address|
                #[trigger] sum_moved(moves_view(moves@), t) >= pow2_256(),
        },
{
    let ghost mv = moves_view(moves@);
    let mut out: Vec<ApprovalModel> = Vec::new();
    let n = moves.len();
    proof {
        assert(mv.take(0) =~= Seq::<(Address, nat)>::empty());
    }
    for i in 0..n
        invariant
            n == moves@.len(),
            mv == moves_view(moves@),
            mv.len() == n,
            approvals_exact(mv.take(i as int), *spender, out@),
    {
        let tok = moves[i].0;
        let amt = moves[i].1;
        let ghost prefix = mv.take(i as int);
        let ghost prefix2 = mv.take(i as int + 1);
        proof {
            assert(prefix2.drop_last() =~= prefix);
            assert(prefix2.last() == (tok, amt.as_nat()));
            assert(forall|t: Address|
                sum_moved(prefix2, t) == sum_moved(prefix, t) + if t == tok {
                    amt.as_nat()
                } else {
                    0nat
                });
            assert(forall|k: int| 0 <= k < prefix.len() ==> #[trigger] prefix2[k] == prefix[k]);
        }
        match find_approval(&out, &tok) {
            Some(j) => {
                let ghost before = out@;
                proof {
                    assert(before[j as int].amount.as_nat() == sum_moved(prefix, tok));
                }
                let merged = match u256_checked_add(&out[j].amount, &amt) {
                    Some(x) => x,
                    None => {
                        proof {
                            assert(sum_moved(prefix2, tok) >= pow2_256());
                            lemma_sum_moved_prefix_le(mv, i as int + 1, tok);
                            assert(sum_moved(mv, tok) >= pow2_256());
                        }
                        return Err(SolveError::AmountOutOfRange);
                    },
                };
                let updated = ApprovalModel { token: tok, spender: *spender, amount: merged };
                out.set(j, updated);
                proof {
                    assert(out@[j as int].token == before[j as int].token);
                    assert(forall|a: int|
                        0 <= a < out@.len() ==> (#[trigger] out@[a]).token == before[a].token);
                    assert forall|t: Address| #[trigger] token_moved(prefix2, t) implies exists|
                        a: int,
                    | 0 <= a < out@.len() && (#[trigger] out@[a]).token == t by {
                        if t == tok {
                            assert(out@[j as int].token == t);
                        } else {
                            let k = choose|k: int|
                                0 <= k < prefix2.len() && (#[trigger] prefix2[k]).0 == t;
                            assert(prefix[k].0 == t);
                            assert(token_moved(prefix, t));
                            let a = choose|a: int|
                                0 <= a < before.len() && (#[trigger] before[a]).token == t;
                            assert(out@[a].token == t);
                        }
                    }
                    assert forall|a: int| 0 <= a < out@.len() implies (#[trigger] out@[a]).spender
                        == *spender && token_moved(prefix2, out@[a].token)
                        && out@[a].amount.as_nat() == sum_moved(prefix2, out@[a].token) by {
                        if a == j {
                            assert(token_moved(prefix2, tok)) by {
                                assert((#[trigger] prefix2[i as int]).0 == tok);
                            }
                        } else {
                            assert(out@[a] == before[a]);
                            assert(out@[a].token != tok);
                            let k = choose|k: int|
                                0 <= k < prefix.len() && (#[trigger] prefix[k]).0 == out@[a].token;
                            assert((#[trigger] prefix2[k]).0 == out@[a].token);
                        }
                    }
                }
            },
            None => {
                let ghost before = out@;
                out.push(ApprovalModel { token: tok, spender: *spender, amount: amt });
                proof {
                    assert(out@.drop_last() =~= before);
                    assert(out@[out@.len() - 1].token == tok);
                    assert forall|t: Address| #[trigger] token_moved(prefix2, t) implies exists|
                        a: int,
                    | 0 <= a < out@.len() && (#[trigger] out@[a]).token == t by {
                        if t == tok {
                            assert(out@[out@.len() - 1].token == t);
                        } else {
                            let k = choose|k: int|
                                0 <= k < prefix2.len() && (#[trigger] prefix2[k]).0 == t;
                            assert(prefix[k].0 == t);
                            assert(token_moved(prefix, t));
                            let a = choose|a: int|
                                0 <= a < before.len() && (#[trigger] before[a]).token == t;
                            assert(out@[a].token == t);
                        }
                    }
                    assert forall|a: int| 0 <= a < out@.len() implies (#[trigger] out@[a]).spender
                        == *spender && token_moved(prefix2, out@[a].token)
                        && out@[a].amount.as_nat() == sum_moved(prefix2, out@[a].token) by {
                        if a == out@.len() - 1 {
                            assert(!token_moved(prefix, tok));
                            lemma_sum_not_moved(prefix, tok);
                            assert(token_moved(prefix2, tok)) by {
                                assert((#[trigger] prefix2[i as int]).0 == tok);
                            }
                        } else {
                            assert(out@[a] == before[a]);
                            assert(out@[a].token != tok);
                            let k = choose|k: int|
                                0 <= k < prefix.len() && (#[trigger] prefix[k]).0 == out@[a].token;
                            assert((#[trigger] prefix2[k]).0 == out@[a].token);
                        }
                    }
                }
            },
        }
    }
    proof {
        assert(mv.take(n as int) =~= mv);
    }
    Ok(out)
}

/// One order fill of the externally supplied matching decision: the
/// realized amounts, an optional realized fee, and the maker-side data
/// the settlement contract's swap call carries.
pub struct OrderFill {
    pub order_id: usize,
    pub exec_sell_amount: Uint256,
    pub exec_buy_amount: Uint256,
    pub exec_fee_amount: Option<Uint256>,
    pub valid_to: Uint256,
    pub maker: Address,
    pub uid: Vec<u8>,
    pub signature: Vec<u8>,
}

/// Which orders are filled and which liquidity-pool legs were executed:
/// a decision injected by the caller, not made here.
pub struct MatchingDecision {
    pub fills: Vec<OrderFill>,
    pub amms: Vec<(usize, UpdatedAmmModel)>,
}

/// Process-start configuration: the settlement contract's address and
/// the selector of its swap method.
pub struct SolverConfig {
    pub settlement_contract: Address,
    pub swap_selector: [u8; 4],
}

/// The order a fill refers to; meaningful only when the order exists.
pub open spec fn order_of(orders: Seq<(usize, OrderModel)>, id: usize) -> OrderModel {
    match find_order(orders, id) {
        Some(o) => o,
        None => arbitrary(),
    }
}

/// Whether a fill is illegal for its order: it exceeds the order's sell
/// amount, or the order forbids partial fills and the fill is not the
/// full sell amount.
pub open spec fn fill_violates_order(o: OrderModel, f: OrderFill) -> bool {
    f.exec_sell_amount.as_nat() > o.sell_amount.as_nat() || (!o.allow_partial_fill
        && f.exec_sell_amount.as_nat() != o.sell_amount.as_nat())
}

/// The shape a fill list must have before any of it is used: every fill
/// names a known order, no order is filled twice, realized amounts are
/// nonzero, and the byte fields are of encodable size.
pub open spec fn fills_wf(orders: Seq<(usize, OrderModel)>, fills: Seq<OrderFill>) -> bool {
    &&& forall|k: int|
        0 <= k < fills.len() ==> find_order(orders, (#[trigger] fills[k]).order_id) is Some
    &&& forall|a: int, b: int|
        0 <= a < b < fills.len() ==> (#[trigger] fills[a]).order_id != (#[trigger] fills[b]).order_id
    &&& forall|k: int|
        0 <= k < fills.len() ==> (#[trigger] fills[k]).exec_sell_amount.as_nat() > 0
            && fills[k].exec_buy_amount.as_nat() > 0
    &&& forall|k: int|
        0 <= k < fills.len() ==> (#[trigger] fills[k]).uid@.len() < 0x10000000
            && fills[k].signature@.len() < 0x10000000
}

/// Whether some fill violates its order's constraints.
pub open spec fn any_violation(orders: Seq<(usize, OrderModel)>, fills: Seq<OrderFill>) -> bool {
    exists|k: int|
        0 <= k < fills.len() && fill_violates_order(
            order_of(orders, (#[trigger] fills[k]).order_id),
            fills[k],
        )
}

/// Every executed liquidity-pool leg has nonzero realized amounts.
pub open spec fn amms_wf(amms: Seq<(usize, UpdatedAmmModel)>) -> bool {
    forall|a: int, e: int|
        0 <= a < amms.len() && 0 <= e < (#[trigger] amms[a]).1.execution@.len() ==> (
        #[trigger] amms[a].1.execution@[e]).exec_sell_amount.as_nat() > 0
            && amms[a].1.execution@[e].exec_buy_amount.as_nat() > 0
}

/// The trade leg a fill realizes.
pub open spec fn leg_of_fill(o: OrderModel, f: OrderFill) -> TradeLeg {
    TradeLeg {
        sell_token: o.sell_token,
        sell_amount: f.exec_sell_amount,
        buy_token: o.buy_token,
        buy_amount: f.exec_buy_amount,
    }
}

/// The trade leg one executed liquidity-pool record realizes.
pub open spec fn leg_of_amm_exec(e: ExecutedAmmModel) -> TradeLeg {
    TradeLeg {
        sell_token: e.sell_token,
        sell_amount: e.exec_sell_amount,
        buy_token: e.buy_token,
        buy_amount: e.exec_buy_amount,
    }
}

/// The legs of one pool's execution list.
pub open spec fn exec_legs(es: Seq<ExecutedAmmModel>) -> Seq<TradeLeg> {
    Seq::new(es.len(), |k: int| leg_of_amm_exec(es[k]))
}

/// The legs of all executed pools, in order.
pub open spec fn amm_legs(amms: Seq<(usize, UpdatedAmmModel)>) -> Seq<TradeLeg>
    decreases amms.len(),
{
    if amms.len() == 0 {
        Seq::empty()
    } else {
        amm_legs(amms.drop_last()) + exec_legs(amms.last().1.execution@)
    }
}

/// Every trade leg of the decision: the order fills' legs, then the
/// pool legs.
pub open spec fn all_legs(
    orders: Seq<(usize, OrderModel)>,
    fills: Seq<OrderFill>,
    amms: Seq<(usize, UpdatedAmmModel)>,
) -> Seq<TradeLeg> {
    Seq::new(fills.len(), |k: int| leg_of_fill(order_of(orders, fills[k].order_id), fills[k]))
        + amm_legs(amms)
}

/// The token moves the fills cause: each fill moves its realized sell
/// amount of the order's sell token out of the caller's custody.
pub open spec fn fill_moves(orders: Seq<(usize, OrderModel)>, fills: Seq<OrderFill>) -> Seq<
    (Address, Uint256),
> {
    Seq::new(
        fills.len(),
        |k: int| (order_of(orders, fills[k].order_id).sell_token, fills[k].exec_sell_amount),
    )
}

/// The order record the settlement contract's swap call carries for a
/// fill.
pub open spec fn contract_order_of(o: OrderModel, f: OrderFill) -> Order {
    Order {
        token_in: o.sell_token,
        amount_in: f.exec_sell_amount,
        token_out: o.buy_token,
        amount_out: f.exec_buy_amount,
        valid_to: f.valid_to,
        maker: f.maker,
        uid: f.uid,
    }
}

/// The address inside a reference-token choice.
pub open spec fn ref_addr(o: Option<Address>) -> Address {
    match o {
        Some(a) => a,
        None => arbitrary(),
    }
}

/// The decimal precision a token is priced at; absent means 18.
pub open spec fn ref_decimals_of(tokens: Seq<(Address, TokenInfoModel)>, a: Address) -> u8 {
    match find_token(tokens, a) {
        Some(info) => match info.decimals {
            Some(d) => d,
            None => 18,
        },
        None => 18,
    }
}

/// Every valid reference-token choice has a usable decimal scale.
pub open spec fn ref_decimals_ok(tokens: Seq<(Address, TokenInfoModel)>) -> bool {
    forall|a: Address| #[trigger] ref_token_is(tokens, a) ==> ref_decimals_of(tokens, a) <= 77
}

/// Collects the trade legs the decision realizes: the fills' legs in
/// fill order, then every pool execution's legs.  Rejects a pool leg
/// with a zero realized amount.
fn collect_legs(
    resolved: &Vec<OrderModel>,
    fills: &Vec<OrderFill>,
    amms: &Vec<(usize, UpdatedAmmModel)>,
) -> (r: Result<Vec<TradeLeg>, SolveError>)
    requires
        resolved@.len() == fills@.len(),
        forall|k: int|
            0 <= k < fills@.len() ==> (#[trigger] fills@[k]).exec_sell_amount.as_nat() > 0
                && fills@[k].exec_buy_amount.as_nat() > 0,
    ensures
        match r {
            Ok(v) => {
                &&& v@ == Seq::new(
                    fills@.len(),
                    |k: int| leg_of_fill(resolved@[k], fills@[k]),
                ) + amm_legs(amms@)
                &&& legs_positive(v@)
                &&& amms_wf(amms@)
            },
            Err(e) => e == SolveError::MalformedInput && !amms_wf(amms@),
        },
{
    let mut legs: Vec<TradeLeg> = Vec::new();
    let n = fills.len();
    let ghost fill_part = Seq::new(fills@.len(), |k: int| leg_of_fill(resolved@[k], fills@[k]));
    for k in 0..n
        invariant
            n == fills@.len(),
            resolved@.len() == n,
            fill_part == Seq::new(fills@.len(), |j: int| leg_of_fill(resolved@[j], fills@[j])),
            forall|j: int|
                0 <= j < n ==> (#[trigger] fills@[j]).exec_sell_amount.as_nat() > 0
                    && fills@[j].exec_buy_amount.as_nat() > 0,
            legs@.len() == k,
            legs@ == fill_part.take(k as int),
            legs_positive(legs@),
    {
        let leg = TradeLeg {
            sell_token: resolved[k].sell_token,
            sell_amount: fills[k].exec_sell_amount,
            buy_token: resolved[k].buy_token,
            buy_amount: fills[k].exec_buy_amount,
        };
        legs.push(leg);
        proof {
            assert(legs@ =~= fill_part.take(k as int + 1));
        }
    }
    proof {
        assert(fill_part.take(n as int) =~= fill_part);
    }
    let m = amms.len();
    for a in 0..m
        invariant
            m == amms@.len(),
            fill_part == Seq::new(fills@.len(), |j: int| leg_of_fill(resolved@[j], fills@[j])),
            legs@ == fill_part + amm_legs(amms@.take(a as int)),
            legs_positive(legs@),
            forall|x: int, e: int|
                0 <= x < a && 0 <= e < (#[trigger] amms@[x]).1.execution@.len() ==> (
                #[trigger] amms@[x].1.execution@[e]).exec_sell_amount.as_nat() > 0
                    && amms@[x].1.execution@[e].exec_buy_amount.as_nat() > 0,
    {
        let exes = &amms[a].1.execution;
        let q = exes.len();
        let ghost base = legs@;
        for e in 0..q
            invariant
                q == exes@.len(),
                exes@ == amms@[a as int].1.execution@,
                a < amms@.len(),
                base == fill_part + amm_legs(amms@.take(a as int)),
                legs@ == base + exec_legs(exes@.take(e as int)),
                legs_positive(base),
                legs_positive(legs@),
                forall|y: int|
                    0 <= y < e ==> (#[trigger] exes@[y]).exec_sell_amount.as_nat() > 0
                        && exes@[y].exec_buy_amount.as_nat() > 0,
        {
            let rec = exes[e];
            if u256_is_zero(&rec.exec_sell_amount) || u256_is_zero(&rec.exec_buy_amount) {
                proof {
                    assert(!amms_wf(amms@)) by {
                        assert((#[trigger] amms@[a as int].1.execution@[e as int])
                            == exes@[e as int]);
                    }
                }
                return Err(SolveError::MalformedInput);
            }
            legs.push(
                TradeLeg {
                    sell_token: rec.sell_token,
                    sell_amount: rec.exec_sell_amount,
                    buy_token: rec.buy_token,
                    buy_amount: rec.exec_buy_amount,
                },
            );
            proof {
                assert(legs@ =~= base + exec_legs(exes@.take(e as int + 1)));
            }
        }
        proof {
            assert(exes@.take(q as int) =~= exes@);
            assert(amms@.take(a as int + 1).drop_last() =~= amms@.take(a as int));
            assert(amms@.take(a as int + 1).last() == amms@[a as int]);
            assert(legs@ =~= fill_part + amm_legs(amms@.take(a as int + 1)));
        }
    }
    proof {
        assert(amms@.take(m as int) =~= amms@);
    }
    Ok(legs)
}

/// Builds the settlement for one auction round.
///
/// The snapshot's orders and the externally decided fills are validated
/// first; clearing prices are then derived by propagation from the
/// reference token; executed-order records, approvals, and the encoded
/// swap interactions with collision-free execution-plan coordinates are
/// assembled from the fills.  A round already executed yields an empty
/// settlement; a round is marked executed only when a non-empty
/// settlement is returned.
pub fn solve(
    auction: &BatchAuctionModel,
    decision: &MatchingDecision,
    config: &SolverConfig,
    round: &mut RoundState,
) -> (r: Result<SettledBatchAuctionModel, SolveError>)
    requires
        decision.fills@.len() < 0x100000000,
    ensures
        *old(round) is Executed ==> *final(round) == *old(round) && (r matches Ok(s)
            && s.is_empty()),
        (*old(round) is Pending && decision.fills@.len() == 0 && decision.amms@.len() == 0)
            ==> *final(round) == *old(round) && (r matches Ok(s) && s.is_empty()),
        r matches Err(e) ==> {
            &&& *final(round) == *old(round)
            &&& *old(round) is Pending
            &&& e != SolveError::DuplicateExecutionPlan
            &&& (e == SolveError::OrderConstraintViolation ==> any_violation(
                auction.orders@,
                decision.fills@,
            ))
        },
        (*old(round) is Pending && (decision.fills@.len() > 0 || decision.amms@.len() > 0)
            && fills_wf(auction.orders@, decision.fills@) && auction.tokens@.len() > 0
            && ref_decimals_ok(auction.tokens@) && any_violation(auction.orders@, decision.fills@))
            ==> r == Err::<SettledBatchAuctionModel, SolveError>(
            SolveError::OrderConstraintViolation,
        ),
        (*old(round) is Pending && (decision.fills@.len() > 0 || decision.amms@.len() > 0)
            && fills_wf(auction.orders@, decision.fills@) && amms_wf(decision.amms@)
            && auction.tokens@.len() > 0 && ref_decimals_ok(auction.tokens@) && !any_violation(
            auction.orders@,
            decision.fills@,
        ) && (forall|a: Address|
            ref_token_is(auction.tokens@, a) ==> propagate_spec(
                a,
                ref_decimals_of(auction.tokens@, a),
                all_legs(auction.orders@, decision.fills@, decision.amms@),
            ) is Ok) && (forall|t: Address|
            #[trigger] sum_moved(moves_view(fill_moves(auction.orders@, decision.fills@)), t)
                < pow2_256())) ==> r is Ok,
        r matches Ok(s) ==> (*old(round) is Pending && (decision.fills@.len() > 0
            || decision.amms@.len() > 0)) ==> {
            let fills = decision.fills@;
            let orders = auction.orders@;
            let rt = ref_addr(s.ref_token);
            &&& *final(round) is Executed
            &&& fills_wf(orders, fills)
            &&& !any_violation(orders, fills)
            &&& s.ref_token is Some
            &&& ref_token_is(auction.tokens@, rt)
            &&& s.prices.wf()
            &&& propagate_spec(
                rt,
                ref_decimals_of(auction.tokens@, rt),
                all_legs(orders, fills, decision.amms@),
            ) == Ok::<Map<Address, nat>, SolveError>(s.prices.as_map())
            &&& s.orders@.len() == fills.len()
            &&& forall|k: int|
                0 <= k < fills.len() ==> (#[trigger] s.orders@[k]).0 == fills[k].order_id
                    && s.orders@[k].1.exec_sell_amount == fills[k].exec_sell_amount
                    && s.orders@[k].1.exec_buy_amount == fills[k].exec_buy_amount
                    && s.orders@[k].1.exec_fee_amount == fills[k].exec_fee_amount
            &&& s.amms@.len() == decision.amms@.len()
            &&& forall|k: int|
                0 <= k < decision.amms@.len() ==> (#[trigger] s.amms@[k]).0 == decision.amms@[k].0
                    && s.amms@[k].1.execution@ == decision.amms@[k].1.execution@
            &&& approvals_exact(
                moves_view(fill_moves(orders, fills)),
                config.settlement_contract,
                s.approvals@,
            )
            &&& s.interaction_data@.len() == fills.len()
            &&& forall|k: int|
                0 <= k < fills.len() ==> {
                    let d = #[trigger] s.interaction_data@[k];
                    let f = fills[k];
                    let o = order_of(orders, f.order_id);
                    &&& d.target == config.settlement_contract
                    &&& d.value.as_nat() == 0
                    &&& d.call_data@ == swap_call_data(
                        config.swap_selector@,
                        contract_order_of(o, f),
                        f.signature@,
                    )
                    &&& d.exec_plan == (ExecutionPlan {
                        coordinates: ExecutionPlanCoordinatesModel {
                            sequence: 0,
                            position: k as u32,
                        },
                        internal: false,
                    })
                    &&& d.inputs@ == seq![
                        TokenAmount { amount: f.exec_sell_amount, token: o.sell_token },
                    ]
                    &&& d.outputs@ == seq![
                        TokenAmount { amount: f.exec_buy_amount, token: o.buy_token },
                    ]
                }
        },
{
    match round {
        RoundState::Executed => {
            return Ok(SettledBatchAuctionModel::empty());
        },
        RoundState::Pending => {},
    }
    if decision.fills.len() == 0 && decision.amms.len() == 0 {
        return Ok(SettledBatchAuctionModel::empty());
    }
    let fills = &decision.fills;
    let n = fills.len();

    // Shape checks: known orders, no order filled twice, nonzero
    // amounts, encodable byte fields.
    let mut resolved: Vec<OrderModel> = Vec::new();
    for k in 0..n
        invariant
            *round == *old(round),
            *old(round) is Pending,
            decision.fills@.len() > 0 || decision.amms@.len() > 0,
            fills@ == decision.fills@,
            n == fills@.len(),
            resolved@.len() == k,
            forall|j: int|
                0 <= j < k ==> find_order(auction.orders@, (#[trigger] fills@[j]).order_id)
                    == Some(resolved@[j]),
            forall|j: int|
                0 <= j < k ==> (#[trigger] fills@[j]).exec_sell_amount.as_nat() > 0
                    && fills@[j].exec_buy_amount.as_nat() > 0,
            forall|j: int|
                0 <= j < k ==> (#[trigger] fills@[j]).uid@.len() < 0x10000000
                    && fills@[j].signature@.len() < 0x10000000,
    {
        let f = &fills[k];
        let o = match lookup_order(&auction.orders, f.order_id) {
            Some(o) => o,
            None => {
                proof {
                    assert(find_order(auction.orders@, (#[trigger] fills@[k as int]).order_id)
                        is None);
                    assert(!fills_wf(auction.orders@, fills@));
                }
                return Err(SolveError::MalformedInput);
            },
        };
        if u256_is_zero(&f.exec_sell_amount) || u256_is_zero(&f.exec_buy_amount) {
            proof {
                assert(!((#[trigger] fills@[k as int]).exec_sell_amount.as_nat() > 0
                    && fills@[k as int].exec_buy_amount.as_nat() > 0));
                assert(!fills_wf(auction.orders@, fills@));
            }
            return Err(SolveError::MalformedInput);
        }
        if f.uid.len() >= 0x10000000 || f.signature.len() >= 0x10000000 {
            proof {
                assert(!((#[trigger] fills@[k as int]).uid@.len() < 0x10000000
                    && fills@[k as int].signature@.len() < 0x10000000));
                assert(!fills_wf(auction.orders@, fills@));
            }
            return Err(SolveError::MalformedInput);
        }
        resolved.push(o);
    }
    for a in 0..n
        invariant
            *round == *old(round),
            *old(round) is Pending,
            decision.fills@.len() > 0 || decision.amms@.len() > 0,
            fills@ == decision.fills@,
            n == fills@.len(),
            forall|x: int, y: int|
                0 <= x < y < n && x < a ==> (#[trigger] fills@[x]).order_id
                    != (#[trigger] fills@[y]).order_id,
    {
        for b in (a + 1)..n
            invariant
                *round == *old(round),
                *old(round) is Pending,
                decision.fills@.len() > 0 || decision.amms@.len() > 0,
                fills@ == decision.fills@,
                n == fills@.len(),
                a < n,
                forall|x: int, y: int|
                    0 <= x < y < n && x < a ==> (#[trigger] fills@[x]).order_id
                        != (#[trigger] fills@[y]).order_id,
                forall|y: int|
                    a < y < b ==> (#[trigger] fills@[y]).order_id != fills@[a as int].order_id,
        {
            if fills[a].order_id == fills[b].order_id {
                proof {
                    assert((#[trigger] fills@[a as int]).order_id
                        == (#[trigger] fills@[b as int]).order_id);
                    assert(!fills_wf(auction.orders@, fills@));
                }
                return Err(SolveError::MalformedInput);
            }
        }
    }
    proof {
        assert(fills_wf(auction.orders@, fills@));
    }

    // The reference token and its decimal scale.
    let rt = match get_ref_token(&auction.tokens) {
        Some(a) => a,
        None => {
            return Err(SolveError::MalformedInput);
        },
    };
    let decimals: u8 = match lookup_token(&auction.tokens, &rt) {
        Some(info) => match info.decimals {
            Some(d) => d,
            None => 18,
        },
        None => 18,
    };
    if decimals > 77 {
        proof {
            assert(!ref_decimals_ok(auction.tokens@));
        }
        return Err(SolveError::MalformedInput);
    }

    // Order-constraint checks on every fill.
    for k in 0..n
        invariant
            *round == *old(round),
            *old(round) is Pending,
            decision.fills@.len() > 0 || decision.amms@.len() > 0,
            fills@ == decision.fills@,
            n == fills@.len(),
            resolved@.len() == n,
            fills_wf(auction.orders@, fills@),
            forall|j: int|
                0 <= j < n ==> find_order(auction.orders@, (#[trigger] fills@[j]).order_id)
                    == Some(resolved@[j]),
            forall|j: int|
                0 <= j < k ==> !fill_violates_order(
                    order_of(auction.orders@, (#[trigger] fills@[j]).order_id),
                    fills@[j],
                ),
    {
        let o = &resolved[k];
        let f = &fills[k];
        let exceeds = !u256_le(&f.exec_sell_amount, &o.sell_amount);
        let wrong_partial = !o.allow_partial_fill && !u256_eq(&f.exec_sell_amount, &o.sell_amount);
        if exceeds || wrong_partial {
            proof {
                assert(fill_violates_order(
                    order_of(auction.orders@, (#[trigger] fills@[k as int]).order_id),
                    fills@[k as int],
                ));
                assert(any_violation(auction.orders@, fills@));
            }
            return Err(SolveError::OrderConstraintViolation);
        }
    }

    // Trade legs and the clearing-price vector.
    let legs = match collect_legs(&resolved, fills, &decision.amms) {
        Ok(v) => v,
        Err(e) => {
            return Err(e);
        },
    };
    proof {
        assert(legs@ =~= all_legs(auction.orders@, fills@, decision.amms@));
    }
    let prices = match propagate(&rt, decimals, &legs) {
        Ok(pv) => pv,
        Err(e) => {
            proof {
                crate::solve::propagation::lemma_propagate_err_kind(rt, decimals, legs@);
            }
            return Err(e);
        },
    };

    // The execution-plan coordinates: none of the interactions built
    // here carries an explicit one, so the validator assigns them in
    // build order.
    let mut unplanned: Vec<Option<ExecutionPlanCoordinatesModel>> = Vec::new();
    for k in 0..n
        invariant
            unplanned@.len() == k,
            forall|j: int| 0 <= j < k ==> (#[trigger] unplanned@[j]) is None,
    {
        unplanned.push(None);
    }
    proof {
        crate::solve::plan::lemma_max_explicit_seq_all_none(unplanned@);
    }
    let coords = match assign_or_validate(&unplanned) {
        Ok(v) => v,
        Err(_) => {
            // Unreachable: nothing here carries an explicit coordinate,
            // so no collision exists.
            unreached()
        },
    };
    proof {
        assert forall|j: int| 0 <= j < n implies (#[trigger] coords@[j])
            == (ExecutionPlanCoordinatesModel { sequence: 0, position: j as u32 }) by {
            crate::solve::plan::lemma_none_rank_all_none(unplanned@, j);
            assert((#[trigger] unplanned@[j]) is None);
        }
    }

    // Executed-order records, token moves, and the encoded swap
    // interactions, one per fill, with coordinates assigned in build
    // order.
    let mut executed: Vec<(usize, ExecutedOrderModel)> = Vec::new();
    let mut moves: Vec<(Address, Uint256)> = Vec::new();
    let mut datas: Vec<InteractionData> = Vec::new();
    for k in 0..n
        invariant
            *round == *old(round),
            *old(round) is Pending,
            decision.fills@.len() > 0 || decision.amms@.len() > 0,
            fills@ == decision.fills@,
            n == fills@.len(),
            n < 0x100000000,
            resolved@.len() == n,
            coords@.len() == n,
            forall|j: int|
                0 <= j < n ==> (#[trigger] coords@[j]) == (ExecutionPlanCoordinatesModel {
                    sequence: 0,
                    position: j as u32,
                }),
            forall|j: int|
                0 <= j < n ==> find_order(auction.orders@, (#[trigger] fills@[j]).order_id)
                    == Some(resolved@[j]),
            forall|j: int|
                0 <= j < n ==> (#[trigger] fills@[j]).uid@.len() < 0x10000000
                    && fills@[j].signature@.len() < 0x10000000,
            executed@.len() == k,
            forall|j: int|
                0 <= j < k ==> (#[trigger] executed@[j]).0 == fills@[j].order_id
                    && executed@[j].1.exec_sell_amount == fills@[j].exec_sell_amount
                    && executed@[j].1.exec_buy_amount == fills@[j].exec_buy_amount
                    && executed@[j].1.exec_fee_amount == fills@[j].exec_fee_amount,
            moves@.len() == k,
            forall|j: int|
                0 <= j < k ==> (#[trigger] moves@[j]) == (
                    order_of(auction.orders@, fills@[j].order_id).sell_token,
                    fills@[j].exec_sell_amount,
                ),
            datas@.len() == k,
            forall|j: int|
                0 <= j < k ==> {
                    let d = #[trigger] datas@[j];
                    let f = fills@[j];
                    let o = order_of(auction.orders@, f.order_id);
                    &&& d.target == config.settlement_contract
                    &&& d.value.as_nat() == 0
                    &&& d.call_data@ == swap_call_data(
                        config.swap_selector@,
                        contract_order_of(o, f),
                        f.signature@,
                    )
                    &&& d.exec_plan == (ExecutionPlan {
                        coordinates: ExecutionPlanCoordinatesModel {
                            sequence: 0,
                            position: j as u32,
                        },
                        internal: false,
                    })
                    &&& d.inputs@ == seq![
                        TokenAmount { amount: f.exec_sell_amount, token: o.sell_token },
                    ]
                    &&& d.outputs@ == seq![
                        TokenAmount { amount: f.exec_buy_amount, token: o.buy_token },
                    ]
                },
    {
        let f = &fills[k];
        let o = &resolved[k];
        executed.push(
            (
                f.order_id,
                ExecutedOrderModel {
                    exec_sell_amount: f.exec_sell_amount,
                    exec_buy_amount: f.exec_buy_amount,
                    exec_fee_amount: f.exec_fee_amount,
                },
            ),
        );
        moves.push((o.sell_token, f.exec_sell_amount));
        let interaction = MooSettlementInteraction {
            order: Order {
                token_in: o.sell_token,
                amount_in: f.exec_sell_amount,
                token_out: o.buy_token,
                amount_out: f.exec_buy_amount,
                valid_to: f.valid_to,
                maker: f.maker,
                uid: copy_bytes(&f.uid),
            },
            signature: copy_bytes(&f.signature),
            settlement_contract: config.settlement_contract,
            swap_selector: config.swap_selector,
        };
        proof {
            assert(interaction.order.uid@ == fills@[k as int].uid@);
        }
        let mut encoded = interaction.encode();
        let first = match encoded.pop() {
            Some(e) => e,
            None => {
                // Unreachable: the interaction encodes to exactly one
                // call descriptor.
                unreached()
            },
        };
        proof {
            assert(first@ == interaction.encoded_view()[0]);
            assert(swap_call_data(
                config.swap_selector@,
                interaction.order,
                interaction.signature@,
            ) =~= swap_call_data(
                config.swap_selector@,
                contract_order_of(
                    order_of(auction.orders@, fills@[k as int].order_id),
                    fills@[k as int],
                ),
                fills@[k as int].signature@,
            ));
        }
        let mut inputs: Vec<TokenAmount> = Vec::new();
        inputs.push(TokenAmount { amount: f.exec_sell_amount, token: o.sell_token });
        let mut outputs: Vec<TokenAmount> = Vec::new();
        outputs.push(TokenAmount { amount: f.exec_buy_amount, token: o.buy_token });
        proof {
            assert(inputs@ =~= seq![
                TokenAmount {
                    amount: fills@[k as int].exec_sell_amount,
                    token: order_of(auction.orders@, fills@[k as int].order_id).sell_token,
                },
            ]);
            assert(outputs@ =~= seq![
                TokenAmount {
                    amount: fills@[k as int].exec_buy_amount,
                    token: order_of(auction.orders@, fills@[k as int].order_id).buy_token,
                },
            ]);
        }
        datas.push(
            InteractionData {
                target: first.target,
                value: first.value,
                call_data: first.call_data,
                exec_plan: ExecutionPlan { coordinates: coords[k], internal: false },
                inputs,
                outputs,
            },
        );
    }

    // Approvals: one per moved token, the exact moved total.
    proof {
        assert(moves@ =~= fill_moves(auction.orders@, fills@));
    }
    let approvals = match build_approvals(&moves, &config.settlement_contract) {
        Ok(v) => v,
        Err(e) => {
            return Err(e);
        },
    };

    // Copy the pool records through and close the round.
    let mut amms_out: Vec<(usize, UpdatedAmmModel)> = Vec::new();
    let m = decision.amms.len();
    for a in 0..m
        invariant
            m == decision.amms@.len(),
            amms_out@.len() == a,
            forall|j: int|
                0 <= j < a ==> (#[trigger] amms_out@[j]).0 == decision.amms@[j].0
                    && amms_out@[j].1.execution@ == decision.amms@[j].1.execution@,
    {
        let src = &decision.amms[a];
        let mut exe: Vec<ExecutedAmmModel> = Vec::new();
        let q = src.1.execution.len();
        for e in 0..q
            invariant
                q == src.1.execution@.len(),
                src == decision.amms@[a as int],
                exe@.len() == e,
                forall|y: int| 0 <= y < e ==> (#[trigger] exe@[y]) == src.1.execution@[y],
        {
            exe.push(src.1.execution[e]);
        }
        proof {
            assert(exe@ =~= decision.amms@[a as int].1.execution@);
        }
        amms_out.push((src.0, UpdatedAmmModel { execution: exe }));
    }

    let won = round.claim();
    proof {
        assert(won);
    }
    Ok(
        SettledBatchAuctionModel {
            orders: executed,
            amms: amms_out,
            ref_token: Some(rt),
            prices,
            approvals,
            interaction_data: datas,
        },
    )
}

} // verus!
