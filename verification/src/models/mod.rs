//! Data model: the auction snapshot coming in, the settled batch going
//! out, and the auction-result notification records.

pub mod batch_auction_model;
pub mod cow_auction_result;
pub mod settlement_contract_data;
