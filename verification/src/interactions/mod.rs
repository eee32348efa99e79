//! The interaction-encoding layer.
//!
//! Every settlement action can render itself into one or more flat
//! on-chain call descriptors (target address, native value, call-data
//! bytes).  Encoding is total for well-formed interactions and a pure
//! function of the interaction's own fields, so callers may serialize
//! the result directly into the settlement transaction.

pub mod abi;
pub mod bytes_hex;
pub mod settlement_contract;

use vstd::prelude::*;
use crate::interactions::abi::push_bytes;
use crate::num::{Address, Uint256};

verus! {

/// What one call descriptor stands for: the target address, the native
/// value as a number, and the call-data bytes.
pub struct EncodedInteractionView {
    pub target: Address,
    pub value: nat,
    pub call_data: Seq<u8>,
}

/// One flat on-chain call: target address, native-currency value, and
/// raw call-data bytes.
pub struct EncodedInteraction {
    pub target: Address,
    pub value: Uint256,
    pub call_data: Vec<u8>,
}

impl View for EncodedInteraction {
    type V = EncodedInteractionView;

    open spec fn view(&self) -> EncodedInteractionView {
        EncodedInteractionView {
            target: self.target,
            value: self.value.as_nat(),
            call_data: self.call_data@,
        }
    }
}

/// The capability every settlement action has: rendering itself into an
/// ordered sequence of call descriptors.
pub trait Interaction {
    /// The call descriptors this interaction stands for, as a function
    /// of its fields alone.
    spec fn encoded_view(&self) -> Seq<EncodedInteractionView>;

    /// Whether the interaction's byte fields are small enough for the
    /// encoding arithmetic to stay within the machine's word size.
    spec fn encodable(&self) -> bool;

    /// Renders the interaction.  Encoding is total for encodable
    /// interactions and deterministic: two calls yield byte-identical
    /// descriptors, since both equal [`Interaction::encoded_view`].
    fn encode(&self) -> (r: Vec<EncodedInteraction>)
        requires
            self.encodable(),
        ensures
            r@.len() == self.encoded_view().len(),
            forall|i: int| 0 <= i < r@.len() ==> (#[trigger] r@[i])@ == self.encoded_view()[i],
    ;
}

/// A byte-for-byte copy of a byte vector.
pub fn copy_bytes(b: &Vec<u8>) -> (r: Vec<u8>)
    requires
        b@.len() < usize::MAX,
    ensures
        r@ == b@,
{
    let mut r: Vec<u8> = Vec::new();
    push_bytes(&mut r, b);
    r
}

impl Interaction for EncodedInteraction {
    open spec fn encoded_view(&self) -> Seq<EncodedInteractionView> {
        seq![self@]
    }

    open spec fn encodable(&self) -> bool {
        self.call_data@.len() < usize::MAX
    }

    fn encode(&self) -> (r: Vec<EncodedInteraction>)
    {
        let copy = EncodedInteraction {
            target: self.target,
            value: self.value,
            call_data: copy_bytes(&self.call_data),
        };
        let mut r: Vec<EncodedInteraction> = Vec::new();
        r.push(copy);
        r
    }
}

/// A pre-encoded call carried through from the caller.
pub struct InteractionData {
    pub target: Address,
    pub value: Uint256,
    pub call_data: Vec<u8>,
}

impl Interaction for InteractionData {
    open spec fn encoded_view(&self) -> Seq<EncodedInteractionView> {
        seq![
            EncodedInteractionView {
                target: self.target,
                value: self.value.as_nat(),
                call_data: self.call_data@,
            },
        ]
    }

    open spec fn encodable(&self) -> bool {
        self.call_data@.len() < usize::MAX
    }

    fn encode(&self) -> (r: Vec<EncodedInteraction>)
    {
        let one = EncodedInteraction {
            target: self.target,
            value: self.value,
            call_data: copy_bytes(&self.call_data),
        };
        let mut r: Vec<EncodedInteraction> = Vec::new();
        r.push(one);
        r
    }
}

} // verus!
