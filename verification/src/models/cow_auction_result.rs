//! The passive auction-result notification: the rank a solution reached,
//! or a tagged reason it was rejected.  The pipeline only records these;
//! it never acts on them.

use vstd::prelude::*;
use crate::num::{Address, Uint256};

verus! {

/// The result a given solver achieved in the auction.
pub enum AuctionResult {
    /// The solution was valid and ranked at the given place; rank 1 won.
    Ranked(usize),
    /// The solution was invalid for some reason.
    Rejected(SolverRejectionReason),
}

/// Why a solution was rejected.
pub enum SolverRejectionReason {
    /// The solver did not return a successful response.
    RunError(SolverRunError),
    /// The solution candidate did not include any user orders.
    NoUserOrders,
    /// The solution violated a price constraint.
    PriceViolation,
    /// The solution uses tokens outside the allowed bufferable list;
    /// carries the tokens that were not allowed.
    NonBufferableTokensUsed(Vec<Address>),
    /// The solution contains duplicated execution-plan coordinates.
    InvalidExecutionPlans,
    /// The solution did not pass simulation; carries what is needed to
    /// re-create the simulation locally.
    SimulationFailure(TransactionWithError),
    /// The solution does not have a positive score.
    NonPositiveScore,
    /// The solution's score exceeds the maximum score.
    TooHighScore {
        surplus: Uint256,
        fees: Uint256,
        max_score: Uint256,
        submitted_score: Uint256,
    },
}

/// How a solver run failed.
pub enum SolverRunError {
    Timeout,
    Solving(String),
}

/// A failing settlement simulation: the transaction and the simulator's
/// error message.
pub struct TransactionWithError {
    pub transaction: SimulatedTransaction,
    pub error: String,
}

/// One storage-access record of a simulated transaction.
pub struct AccessListItemModel {
    pub address: Address,
    pub storage_keys: Vec<Uint256>,
}

/// Transaction data used for simulation of the settlement.
pub struct SimulatedTransaction {
    /// The simulation was done at the beginning of this block.
    pub block_number: u64,
    /// Index of the transaction inside the block.
    pub tx_index: u64,
    /// Whether internalized interactions were encoded or skipped.
    pub internalization: InternalizationStrategy,
    /// Which storage the settlement accesses; `None` when estimating
    /// the access list failed.
    pub access_list: Option<Vec<AccessListItemModel>>,
    /// Solver address.
    pub from: Address,
    /// Settlement contract address.
    pub to: Address,
    /// Transaction input data.
    pub data: Vec<u8>,
    pub max_fee_per_gas: Uint256,
    pub max_priority_fee_per_gas: Uint256,
}

/// Whether internalizable interactions are encoded as call data.
#[derive(Clone, Copy, Debug, PartialEq, Eq, Structural)]
pub enum InternalizationStrategy {
    EncodeAllInteractions,
    SkipInternalizableInteraction,
}

} // verus!
