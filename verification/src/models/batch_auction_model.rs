//! The auction snapshot and the settled batch: tokens, orders, executed
//! records, approvals, execution plans, and the price vector.

use vstd::prelude::*;
use crate::num::{Address, Uint256};

verus! {

/// One auction round's immutable input: tokens and orders, keyed lists
/// with unique keys, plus optional round metadata.
pub struct BatchAuctionModel {
    pub tokens: Vec<(Address, TokenInfoModel)>,
    pub orders: Vec<(usize, OrderModel)>,
    pub metadata: Option<MetadataModel>,
    pub instance_name: Option<String>,
    pub time_limit: Option<u64>,
    pub max_nr_exec_orders: Option<u64>,
    pub auction_id: Option<u64>,
}

/// A user's trading intent, read-only during solving.
#[derive(Clone, Copy, Debug)]
pub struct OrderModel {
    pub sell_token: Address,
    pub buy_token: Address,
    pub sell_amount: Uint256,
    pub buy_amount: Uint256,
    pub allow_partial_fill: bool,
    pub is_sell_order: bool,
    pub fee: FeeModel,
    pub cost: CostModel,
    pub is_liquidity_order: bool,
}

/// Per-token auction data.  The decimal precision defaults to 18 when
/// absent; the normalization priority picks the reference token.
#[derive(Clone, Copy, Debug)]
pub struct TokenInfoModel {
    pub decimals: Option<u8>,
    pub normalize_priority: Option<u64>,
    pub internal_buffer: Option<Uint256>,
}

/// A cost attached to executing an order.
#[derive(Clone, Copy, Debug)]
pub struct CostModel {
    pub amount: Uint256,
    pub token: Address,
}

/// The fee an order pays.
#[derive(Clone, Copy, Debug)]
pub struct FeeModel {
    pub amount: Uint256,
    pub token: Address,
}

/// An amount of one token.
#[derive(Clone, Copy, Debug, PartialEq, Eq, Structural)]
pub struct TokenAmount {
    pub amount: Uint256,
    pub token: Address,
}

/// Ordering metadata of one encoded interaction, plus whether the
/// interaction is elided when simulating with internalized interactions.
#[derive(Clone, Copy, Debug, PartialEq, Eq, Structural)]
pub struct ExecutionPlan {
    pub coordinates: ExecutionPlanCoordinatesModel,
    pub internal: bool,
}

/// A (sequence, position) pair; interactions execute ordered by sequence
/// ascending, then position ascending.
#[derive(Clone, Copy, Debug, PartialEq, Eq, Structural)]
pub struct ExecutionPlanCoordinatesModel {
    pub sequence: u32,
    pub position: u32,
}

/// An instruction to the caller to ensure an ERC20 allowance of at least
/// `amount` from its custody towards `spender` before submission.
#[derive(Clone, Copy, Debug, PartialEq, Eq, Structural)]
pub struct ApprovalModel {
    pub token: Address,
    pub spender: Address,
    pub amount: Uint256,
}

/// One flat on-chain call of the settlement, with its ordering metadata
/// and the token amounts it moves in and out for auditability.
#[derive(Debug)]
pub struct InteractionData {
    pub target: Address,
    pub value: Uint256,
    pub call_data: Vec<u8>,
    pub exec_plan: ExecutionPlan,
    pub inputs: Vec<TokenAmount>,
    pub outputs: Vec<TokenAmount>,
}

/// Optional round metadata.
pub struct MetadataModel {
    pub environment: Option<String>,
}

/// The realized amounts an order was filled at.
#[derive(Clone, Copy, Debug)]
pub struct ExecutedOrderModel {
    pub exec_sell_amount: Uint256,
    pub exec_buy_amount: Uint256,
    pub exec_fee_amount: Option<Uint256>,
}

/// The executed legs of one liquidity pool.
#[derive(Debug)]
pub struct UpdatedAmmModel {
    pub execution: Vec<ExecutedAmmModel>,
}

/// One executed liquidity-pool leg; its ordering coordinate is distinct
/// from the interaction-level coordinates.
#[derive(Clone, Copy, Debug)]
pub struct ExecutedAmmModel {
    pub sell_token: Address,
    pub buy_token: Address,
    pub exec_sell_amount: Uint256,
    pub exec_buy_amount: Uint256,
    pub exec_plan: Option<ExecutionPlanCoordinatesModel>,
}

/// The aggregate output of one round, created once and immutable.
#[derive(Debug)]
pub struct SettledBatchAuctionModel {
    pub orders: Vec<(usize, ExecutedOrderModel)>,
    pub amms: Vec<(usize, UpdatedAmmModel)>,
    pub ref_token: Option<Address>,
    pub prices: PriceVector,
    pub approvals: Vec<ApprovalModel>,
    pub interaction_data: Vec<InteractionData>,
}

impl SettledBatchAuctionModel {
    /// The settlement a round that must not be encoded again receives:
    /// no orders, no prices, no calls.
    pub open spec fn is_empty(self) -> bool {
        self.orders@.len() == 0 && self.amms@.len() == 0 && self.ref_token is None
            && self.prices.entries@.len() == 0 && self.approvals@.len() == 0
            && self.interaction_data@.len() == 0
    }

    /// An empty settlement.
    pub fn empty() -> (r: Self)
        ensures
            r.is_empty(),
    {
        SettledBatchAuctionModel {
            orders: Vec::new(),
            amms: Vec::new(),
            ref_token: None,
            prices: PriceVector { entries: Vec::new() },
            approvals: Vec::new(),
            interaction_data: Vec::new(),
        }
    }
}

/// Whether the first components of a keyed list are pairwise distinct.
pub open spec fn price_keys_unique(s: Seq<(Address, Uint256)>) -> bool {
    forall|i: int, j: int| 0 <= i < j < s.len() ==> (#[trigger] s[i]).0 != (#[trigger] s[j]).0
}

/// The mapping a keyed list of prices stands for.
pub open spec fn price_seq_map(s: Seq<(Address, Uint256)>) -> Map<Address, nat>
    decreases s.len(),
{
    if s.len() == 0 {
        Map::empty()
    } else {
        price_seq_map(s.drop_last()).insert(s.last().0, s.last().1.as_nat())
    }
}

/// What the mapping of a keyed list contains: exactly the listed keys,
/// and under unique keys each key's listed value.
pub proof fn lemma_price_seq_map(s: Seq<(Address, Uint256)>)
    ensures
        forall|t: Address|
            price_seq_map(s).contains_key(t) <==> exists|k: int|
                0 <= k < s.len() && (#[trigger] s[k]).0 == t,
        price_keys_unique(s) ==> forall|k: int|
            0 <= k < s.len() ==> price_seq_map(s)[(#[trigger] s[k]).0] == s[k].1.as_nat(),
    decreases s.len(),
{
    if s.len() > 0 {
        let sd = s.drop_last();
        lemma_price_seq_map(sd);
        assert(forall|k: int| 0 <= k < sd.len() ==> #[trigger] sd[k] == s[k]);
        assert forall|t: Address| price_seq_map(s).contains_key(t) implies exists|k: int|
            0 <= k < s.len() && (#[trigger] s[k]).0 == t by {
            if t == s.last().0 {
                assert((#[trigger] s[s.len() - 1]).0 == t);
            } else {
                assert(price_seq_map(sd).contains_key(t));
                assert(exists|k: int| 0 <= k < sd.len() && (#[trigger] sd[k]).0 == t);
                let k = choose|k: int| 0 <= k < sd.len() && (#[trigger] sd[k]).0 == t;
                assert(sd[k] == s[k]);
                assert((#[trigger] s[k]).0 == t);
            }
        }
        assert forall|t: Address| (exists|k: int| 0 <= k < s.len() && (#[trigger] s[k]).0 == t)
            implies price_seq_map(s).contains_key(t) by {
            let k = choose|k: int| 0 <= k < s.len() && (#[trigger] s[k]).0 == t;
            assert(0 <= k < s.len() && s[k].0 == t);
            if k < s.len() - 1 {
                assert((#[trigger] sd[k]).0 == t);
                assert(exists|j: int| 0 <= j < sd.len() && (#[trigger] sd[j]).0 == t);
                assert(price_seq_map(sd).contains_key(t));
            } else {
                assert(t == s.last().0);
            }
        }
        if price_keys_unique(s) {
            assert(price_keys_unique(sd));
            assert forall|k: int| 0 <= k < s.len() implies
                price_seq_map(s)[(#[trigger] s[k]).0] == s[k].1.as_nat() by {
                if k < s.len() - 1 {
                    assert((#[trigger] sd[k]).0 == s[k].0);
                    assert(s[k].0 != s.last().0);
                }
            }
        }
    }
}

/// Mapping from token address to its positive clearing price, scaled by
/// the reference token's decimal precision.
#[derive(Debug)]
pub struct PriceVector {
    pub entries: Vec<(Address, Uint256)>,
}

impl PriceVector {
    /// One record per token address.
    pub open spec fn wf(self) -> bool {
        price_keys_unique(self.entries@)
    }

    /// The mapping this vector stands for.
    pub open spec fn as_map(self) -> Map<Address, nat> {
        price_seq_map(self.entries@)
    }

    /// A vector with no prices.
    pub fn new() -> (r: Self)
        ensures
            r.wf(),
            r.as_map() == Map::<Address, nat>::empty(),
            r.entries@.len() == 0,
    {
        PriceVector { entries: Vec::new() }
    }

    /// Looks a token's price up.
    pub fn get(&self, t: &Address) -> (r: Option<Uint256>)
        requires
            self.wf(),
        ensures
            r is Some <==> self.as_map().contains_key(*t),
            r matches Some(v) ==> self.as_map()[*t] == v.as_nat(),
    {
        proof {
            lemma_price_seq_map(self.entries@);
        }
        let n = self.entries.len();
        for i in 0..n
            invariant
                self.wf(),
                n == self.entries@.len(),
                forall|k: int| 0 <= k < i ==> (#[trigger] self.entries@[k]).0 != *t,
        {
            if self.entries[i].0 == *t {
                proof {
                    lemma_price_seq_map(self.entries@);
                    assert((#[trigger] self.entries@[i as int]).0 == *t);
                    assert(price_seq_map(self.entries@)[self.entries@[i as int].0]
                        == self.entries@[i as int].1.as_nat());
                }
                return Some(self.entries[i].1);
            }
        }
        proof {
            lemma_price_seq_map(self.entries@);
        }
        None
    }

    /// Whether a token already has a price.
    pub fn contains(&self, t: &Address) -> (r: bool)
        requires
            self.wf(),
        ensures
            r == self.as_map().contains_key(*t),
    {
        self.get(t).is_some()
    }

    /// Records the price of a token that has none yet.
    pub fn insert_new(&mut self, t: Address, v: Uint256)
        requires
            old(self).wf(),
            !old(self).as_map().contains_key(t),
        ensures
            final(self).wf(),
            final(self).as_map() == old(self).as_map().insert(t, v.as_nat()),
            final(self).entries@ == old(self).entries@.push((t, v)),
    {
        proof {
            lemma_price_seq_map(self.entries@);
        }
        self.entries.push((t, v));
        proof {
            assert(self.entries@.drop_last() =~= old(self).entries@);
        }
    }
}

} // verus!
