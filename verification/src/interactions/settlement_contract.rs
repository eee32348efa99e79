//! The settlement-contract swap call: renders one protocol order fill,
//! with its externally supplied maker signature, into the contract's
//! `swap` call data.  The signature bytes are opaque and not validated
//! here; the contract checks them at execution time.  The contract's
//! address and the call selector are configuration, supplied at process
//! start, never embedded here.

use vstd::prelude::*;
use crate::interactions::abi::{
    abi_bytes, pad_of, push_abi_bytes, push_word_address, push_word_u64, push_word_uint,
    word_of_address, word_of_u64, word_of_uint,
};
use crate::interactions::{EncodedInteraction, EncodedInteractionView, Interaction};
use crate::models::settlement_contract_data::Order;
use crate::num::{u256_from_u64, Address};

verus! {

/// The order record as one encoded argument tuple: six static words,
/// the offset word of the unique-identifier bytes, then those bytes.
pub open spec fn order_tuple_bytes(o: Order) -> Seq<u8> {
    word_of_address(o.token_in) + word_of_uint(o.amount_in) + word_of_address(o.token_out)
        + word_of_uint(o.amount_out) + word_of_uint(o.valid_to) + word_of_address(o.maker)
        + word_of_u64(224) + abi_bytes(o.uid@)
}

/// The whole `swap(order, signature)` call data: the selector, the two
/// argument offset words, the order tuple, and the signature bytes.
pub open spec fn swap_call_data(selector: Seq<u8>, o: Order, sig: Seq<u8>) -> Seq<u8> {
    selector + word_of_u64(64) + word_of_u64((64 + order_tuple_bytes(o).len()) as u64)
        + order_tuple_bytes(o) + abi_bytes(sig)
}

/// One protocol order fill to settle through the settlement contract's
/// `swap` call.
pub struct MooSettlementInteraction {
    /// The order as the contract consumes it.
    pub order: Order,
    /// The maker's signature over the order, opaque bytes.
    pub signature: Vec<u8>,
    /// The settlement contract's address (configuration).
    pub settlement_contract: Address,
    /// The 4-byte selector of the contract's `swap` method
    /// (configuration).
    pub swap_selector: [u8; 4],
}

impl Interaction for MooSettlementInteraction {
    open spec fn encoded_view(&self) -> Seq<EncodedInteractionView> {
        seq![
            EncodedInteractionView {
                target: self.settlement_contract,
                value: 0,
                call_data: swap_call_data(self.swap_selector@, self.order, self.signature@),
            },
        ]
    }

    open spec fn encodable(&self) -> bool {
        self.order.uid@.len() < 0x10000000 && self.signature@.len() < 0x10000000
    }

    fn encode(&self) -> (r: Vec<EncodedInteraction>)
    {
        let mut data: Vec<u8> = Vec::new();
        data.push(self.swap_selector[0]);
        data.push(self.swap_selector[1]);
        data.push(self.swap_selector[2]);
        data.push(self.swap_selector[3]);
        proof {
            assert(data@ =~= self.swap_selector@);
        }
        let uid_len = self.order.uid.len();
        let rem = uid_len % 32;
        let pad: usize = if rem == 0 {
            0
        } else {
            32 - rem
        };
        let tuple_len: usize = 256 + uid_len + pad;
        proof {
            assert(pad as nat == pad_of(self.order.uid@.len()));
            assert(order_tuple_bytes(self.order).len() == tuple_len);
        }
        push_word_u64(&mut data, 64);
        push_word_u64(&mut data, (64 + tuple_len) as u64);
        push_word_address(&mut data, &self.order.token_in);
        push_word_uint(&mut data, &self.order.amount_in);
        push_word_address(&mut data, &self.order.token_out);
        push_word_uint(&mut data, &self.order.amount_out);
        push_word_uint(&mut data, &self.order.valid_to);
        push_word_address(&mut data, &self.order.maker);
        push_word_u64(&mut data, 224);
        push_abi_bytes(&mut data, &self.order.uid);
        push_abi_bytes(&mut data, &self.signature);
        proof {
            assert(data@ =~= swap_call_data(
                self.swap_selector@,
                self.order,
                self.signature@,
            ));
        }
        let one = EncodedInteraction {
            target: self.settlement_contract,
            value: u256_from_u64(0),
            call_data: data,
        };
        let mut r: Vec<EncodedInteraction> = Vec::new();
        r.push(one);
        r
    }
}

} // verus!
