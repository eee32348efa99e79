//! The order record the settlement contract's swap call carries.

use vstd::prelude::*;
use crate::num::{Address, Uint256};

verus! {

/// One order as the settlement contract consumes it: the traded pair,
/// the realized amounts, a validity deadline, the maker, and an opaque
/// unique identifier.
pub struct Order {
    pub token_in: Address,
    pub amount_in: Uint256,
    pub token_out: Address,
    pub amount_out: Uint256,
    pub valid_to: Uint256,
    pub maker: Address,
    pub uid: Vec<u8>,
}

} // verus!
