use moo_solver::interactions::bytes_hex::{bytes_to_hex, hex_to_bytes};
use moo_solver::interactions::settlement_contract::MooSettlementInteraction;
use moo_solver::interactions::{EncodedInteraction, Interaction, InteractionData};
use moo_solver::models::batch_auction_model::ExecutionPlanCoordinatesModel;
use moo_solver::models::settlement_contract_data::Order;
use moo_solver::num::{Address, Uint256};
use moo_solver::solve::plan::assign_or_validate;
use moo_solver::solve::SolveError;

fn addr(n: u128) -> Address {
    Address { hi: 0, lo: n }
}

fn u(x: u64) -> Uint256 {
    Uint256 { l0: x, l1: 0, l2: 0, l3: 0 }
}

#[test]
fn hex_encodes_with_prefix() {
    assert_eq!(bytes_to_hex(&vec![0xde, 0xad, 0xbe, 0xef]), "0xdeadbeef");
    assert_eq!(bytes_to_hex(&Vec::new()), "0x");
    assert_eq!(bytes_to_hex(&vec![0x00, 0x01, 0x0f]), "0x00010f");
}

#[test]
fn hex_decodes_prefixed_strings() {
    assert_eq!(hex_to_bytes("0xdeadbeef"), Ok(vec![0xde, 0xad, 0xbe, 0xef]));
    assert_eq!(hex_to_bytes("0xDEADbeef"), Ok(vec![0xde, 0xad, 0xbe, 0xef]));
    assert_eq!(hex_to_bytes("0x"), Ok(Vec::new()));
    assert_eq!(hex_to_bytes("deadbeef"), Err(SolveError::MalformedInput));
    assert_eq!(hex_to_bytes("0xabc"), Err(SolveError::MalformedInput));
    assert_eq!(hex_to_bytes("0xzz"), Err(SolveError::MalformedInput));
    assert_eq!(hex_to_bytes(""), Err(SolveError::MalformedInput));
}

#[test]
fn hex_round_trip() {
    let bytes: Vec<u8> = (0u8..=255).collect();
    let s = bytes_to_hex(&bytes);
    assert_eq!(hex_to_bytes(&s), Ok(bytes));
}

fn sample_interaction() -> MooSettlementInteraction {
    MooSettlementInteraction {
        order: Order {
            token_in: addr(0x1111),
            amount_in: u(100),
            token_out: addr(0x2222),
            amount_out: u(200),
            valid_to: u(1_747_179_217),
            maker: addr(0x3333),
            uid: vec![1],
        },
        signature: vec![0xab; 65],
        settlement_contract: addr(0x4444),
        swap_selector: [0x12, 0x34, 0x56, 0x78],
    }
}

#[test]
fn encode_is_deterministic() {
    let interaction = sample_interaction();
    let first = interaction.encode();
    let second = interaction.encode();
    assert_eq!(first.len(), 1);
    assert_eq!(second.len(), 1);
    assert_eq!(first[0].target, second[0].target);
    assert_eq!(first[0].value, second[0].value);
    assert_eq!(first[0].call_data, second[0].call_data);
}

#[test]
fn swap_call_data_layout() {
    let interaction = sample_interaction();
    let encoded = interaction.encode();
    let data = &encoded[0].call_data;
    assert_eq!(encoded[0].target, addr(0x4444));
    assert_eq!(encoded[0].value, u(0));
    // selector, two offset words, seven tuple words, padded uid,
    // length word and padded signature.
    assert_eq!(data.len(), 4 + 32 + 32 + 224 + 32 + 32 + 32 + 96);
    assert_eq!(&data[0..4], &[0x12, 0x34, 0x56, 0x78]);
    // Offset of the order tuple: 0x40.
    assert_eq!(data[4 + 31], 0x40);
    assert!(data[4..4 + 31].iter().all(|b| *b == 0));
    // Offset of the signature: 0x40 + the 288-byte order tuple = 0x160.
    assert_eq!(data[36 + 30], 0x01);
    assert_eq!(data[36 + 31], 0x60);
    // token_in stands in the first tuple word, right-aligned.
    let token_in_word = &data[68..100];
    assert_eq!(token_in_word[30], 0x11);
    assert_eq!(token_in_word[31], 0x11);
    assert!(token_in_word[..30].iter().all(|b| *b == 0));
    // amount_in = 100 in the second word.
    assert_eq!(data[100 + 31], 100);
    // The uid offset word inside the tuple holds 224.
    assert_eq!(data[68 + 6 * 32 + 31], 224);
    // The uid: length 1, then the byte 1, padded to a word.
    assert_eq!(data[68 + 7 * 32 + 31], 1);
    assert_eq!(data[68 + 8 * 32], 1);
    // The signature: length 65, then 65 bytes of 0xab, padded.
    let sig_len_at = 4 + 0x160;
    assert_eq!(data[sig_len_at + 31], 65);
    assert_eq!(data[sig_len_at + 32], 0xab);
    assert_eq!(data[sig_len_at + 32 + 64], 0xab);
    assert_eq!(data[sig_len_at + 32 + 65], 0);
}

#[test]
fn flat_interactions_encode_themselves() {
    let flat = EncodedInteraction { target: addr(7), value: u(3), call_data: vec![9, 9] };
    let out = flat.encode();
    assert_eq!(out.len(), 1);
    assert_eq!(out[0].target, addr(7));
    assert_eq!(out[0].value, u(3));
    assert_eq!(out[0].call_data, vec![9, 9]);
    let carried = InteractionData { target: addr(8), value: u(0), call_data: vec![1] };
    let out2 = carried.encode();
    assert_eq!(out2.len(), 1);
    assert_eq!(out2[0].target, addr(8));
    assert_eq!(out2[0].call_data, vec![1]);
}

fn coord(sequence: u32, position: u32) -> ExecutionPlanCoordinatesModel {
    ExecutionPlanCoordinatesModel { sequence, position }
}

#[test]
fn plan_keeps_explicit_and_assigns_fresh() {
    let input = vec![Some(coord(0, 1)), None, Some(coord(2, 0)), None];
    let out = assign_or_validate(&input).expect("distinct explicit coordinates");
    assert_eq!(out.len(), 4);
    assert_eq!(out[0], coord(0, 1));
    assert_eq!(out[2], coord(2, 0));
    // Fresh coordinates take the first unused sequence, in build order.
    assert_eq!(out[1], coord(3, 0));
    assert_eq!(out[3], coord(3, 1));
    for i in 0..out.len() {
        for j in (i + 1)..out.len() {
            assert_ne!(out[i], out[j]);
        }
    }
}

#[test]
fn plan_rejects_duplicate_explicit_coordinates() {
    let input = vec![Some(coord(1, 1)), None, Some(coord(1, 1))];
    assert_eq!(assign_or_validate(&input), Err(SolveError::DuplicateExecutionPlan));
}

#[test]
fn plan_of_all_unassigned_counts_up() {
    let input = vec![None, None, None];
    let out = assign_or_validate(&input).expect("nothing can collide");
    assert_eq!(out, vec![coord(0, 0), coord(0, 1), coord(0, 2)]);
}

#[test]
fn long_uid_pads_to_whole_words() {
    let mut interaction = sample_interaction();
    interaction.order.uid = vec![0x55; 33];
    let encoded = interaction.encode();
    let data = &encoded[0].call_data;
    // The uid takes a length word plus two content words.
    assert_eq!(data.len(), 4 + 64 + 224 + 32 + 64 + 32 + 96);
    let uid_len_at = 68 + 7 * 32;
    assert_eq!(data[uid_len_at + 31], 33);
    assert_eq!(data[uid_len_at + 32], 0x55);
    assert_eq!(data[uid_len_at + 32 + 32], 0x55);
    assert_eq!(data[uid_len_at + 32 + 33], 0);
}
