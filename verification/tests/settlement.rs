use moo_solver::models::batch_auction_model::{
    BatchAuctionModel, CostModel, ExecutedAmmModel, FeeModel, OrderModel, TokenInfoModel,
    UpdatedAmmModel,
};
use moo_solver::num::{Address, Uint256};
use moo_solver::solve::{
    solve, MatchingDecision, OrderFill, RoundState, SolveError, SolverConfig,
};

fn addr(n: u128) -> Address {
    Address { hi: 0, lo: n }
}

fn u(x: u64) -> Uint256 {
    Uint256 { l0: x, l1: 0, l2: 0, l3: 0 }
}

fn info(priority: Option<u64>) -> TokenInfoModel {
    TokenInfoModel { decimals: Some(18), normalize_priority: priority, internal_buffer: None }
}

fn order(sell: Address, buy: Address, sell_amount: u64, buy_amount: u64, partial: bool) -> OrderModel {
    OrderModel {
        sell_token: sell,
        buy_token: buy,
        sell_amount: u(sell_amount),
        buy_amount: u(buy_amount),
        allow_partial_fill: partial,
        is_sell_order: true,
        fee: FeeModel { amount: u(0), token: sell },
        cost: CostModel { amount: u(0), token: sell },
        is_liquidity_order: false,
    }
}

fn fill(order_id: usize, sell: u64, buy: u64) -> OrderFill {
    OrderFill {
        order_id,
        exec_sell_amount: u(sell),
        exec_buy_amount: u(buy),
        exec_fee_amount: None,
        valid_to: u(1_747_179_217),
        maker: addr(0xd1f5),
        uid: vec![1],
        signature: vec![0x3b; 65],
    }
}

fn auction(orders: Vec<(usize, OrderModel)>, tokens: Vec<(Address, TokenInfoModel)>) -> BatchAuctionModel {
    BatchAuctionModel {
        tokens,
        orders,
        metadata: None,
        instance_name: None,
        time_limit: None,
        max_nr_exec_orders: None,
        auction_id: Some(1),
    }
}

fn config() -> SolverConfig {
    SolverConfig { settlement_contract: addr(0x6d64), swap_selector: [0x12, 0x34, 0x56, 0x78] }
}

#[test]
fn one_fill_settles_fully() {
    let a = addr(1);
    let b = addr(2);
    let snapshot = auction(
        vec![(7, order(a, b, 100, 200, false))],
        vec![(a, info(Some(5))), (b, info(Some(1)))],
    );
    let decision = MatchingDecision { fills: vec![fill(7, 100, 200)], amms: Vec::new() };
    let mut round = RoundState::Pending;
    let settled = solve(&snapshot, &decision, &config(), &mut round).expect("a clean fill settles");
    assert_eq!(round, RoundState::Executed);
    assert_eq!(settled.ref_token, Some(a));
    assert_eq!(settled.prices.get(&a), Some(u(1_000_000_000_000_000_000)));
    assert_eq!(settled.prices.get(&b), Some(u(500_000_000_000_000_000)));
    assert_eq!(settled.orders.len(), 1);
    assert_eq!(settled.orders[0].0, 7);
    assert_eq!(settled.orders[0].1.exec_sell_amount, u(100));
    assert_eq!(settled.orders[0].1.exec_buy_amount, u(200));
    assert_eq!(settled.orders[0].1.exec_fee_amount, None);
    assert_eq!(settled.approvals.len(), 1);
    assert_eq!(settled.approvals[0].token, a);
    assert_eq!(settled.approvals[0].spender, addr(0x6d64));
    assert_eq!(settled.approvals[0].amount, u(100));
    assert_eq!(settled.interaction_data.len(), 1);
    let data = &settled.interaction_data[0];
    assert_eq!(data.target, addr(0x6d64));
    assert_eq!(data.value, u(0));
    assert_eq!(&data.call_data[0..4], &[0x12, 0x34, 0x56, 0x78]);
    assert_eq!(data.exec_plan.coordinates.sequence, 0);
    assert_eq!(data.exec_plan.coordinates.position, 0);
    assert!(!data.exec_plan.internal);
    assert_eq!(data.inputs.len(), 1);
    assert_eq!(data.inputs[0].token, a);
    assert_eq!(data.inputs[0].amount, u(100));
    assert_eq!(data.outputs.len(), 1);
    assert_eq!(data.outputs[0].token, b);
    assert_eq!(data.outputs[0].amount, u(200));
}

#[test]
fn second_build_of_a_round_is_empty() {
    let a = addr(1);
    let b = addr(2);
    let snapshot = auction(
        vec![(7, order(a, b, 100, 200, false))],
        vec![(a, info(Some(5))), (b, info(Some(1)))],
    );
    let decision = MatchingDecision { fills: vec![fill(7, 100, 200)], amms: Vec::new() };
    let mut round = RoundState::Pending;
    let first = solve(&snapshot, &decision, &config(), &mut round).expect("first build");
    let second = solve(&snapshot, &decision, &config(), &mut round).expect("second build");
    assert_eq!(first.orders.len(), 1);
    assert!(second.orders.is_empty());
    assert!(second.ref_token.is_none());
    assert!(second.interaction_data.is_empty());
    assert!(second.approvals.is_empty());
}

#[test]
fn empty_decision_settles_empty_without_closing_the_round() {
    let snapshot = auction(Vec::new(), Vec::new());
    let decision = MatchingDecision { fills: Vec::new(), amms: Vec::new() };
    let mut round = RoundState::Pending;
    let settled = solve(&snapshot, &decision, &config(), &mut round).expect("nothing to do");
    assert!(settled.orders.is_empty());
    assert_eq!(round, RoundState::Pending);
}

#[test]
fn partial_fill_of_fill_or_kill_order_is_rejected() {
    let a = addr(1);
    let b = addr(2);
    let snapshot = auction(
        vec![(7, order(a, b, 100, 200, false))],
        vec![(a, info(Some(5))), (b, info(Some(1)))],
    );
    let decision = MatchingDecision { fills: vec![fill(7, 60, 120)], amms: Vec::new() };
    let mut round = RoundState::Pending;
    let err = solve(&snapshot, &decision, &config(), &mut round).expect_err("not the full amount");
    assert_eq!(err, SolveError::OrderConstraintViolation);
    assert_eq!(round, RoundState::Pending);
}

#[test]
fn partial_fill_of_partial_order_is_accepted() {
    let a = addr(1);
    let b = addr(2);
    let snapshot = auction(
        vec![(7, order(a, b, 100, 200, true))],
        vec![(a, info(Some(5))), (b, info(Some(1)))],
    );
    let decision = MatchingDecision { fills: vec![fill(7, 60, 120)], amms: Vec::new() };
    let mut round = RoundState::Pending;
    let settled = solve(&snapshot, &decision, &config(), &mut round).expect("partial is allowed");
    assert_eq!(settled.orders[0].1.exec_sell_amount, u(60));
}

#[test]
fn overfill_is_rejected() {
    let a = addr(1);
    let b = addr(2);
    let snapshot = auction(
        vec![(7, order(a, b, 100, 200, true))],
        vec![(a, info(Some(5))), (b, info(Some(1)))],
    );
    let decision = MatchingDecision { fills: vec![fill(7, 101, 200)], amms: Vec::new() };
    let mut round = RoundState::Pending;
    let err = solve(&snapshot, &decision, &config(), &mut round).expect_err("exceeds the order");
    assert_eq!(err, SolveError::OrderConstraintViolation);
}

#[test]
fn unknown_order_is_malformed() {
    let a = addr(1);
    let b = addr(2);
    let snapshot = auction(
        vec![(7, order(a, b, 100, 200, true))],
        vec![(a, info(Some(5))), (b, info(Some(1)))],
    );
    let decision = MatchingDecision { fills: vec![fill(8, 100, 200)], amms: Vec::new() };
    let mut round = RoundState::Pending;
    let err = solve(&snapshot, &decision, &config(), &mut round).expect_err("no such order");
    assert_eq!(err, SolveError::MalformedInput);
}

#[test]
fn repeated_fill_of_one_order_is_malformed() {
    let a = addr(1);
    let b = addr(2);
    let snapshot = auction(
        vec![(7, order(a, b, 100, 200, true))],
        vec![(a, info(Some(5))), (b, info(Some(1)))],
    );
    let decision = MatchingDecision {
        fills: vec![fill(7, 50, 100), fill(7, 50, 100)],
        amms: Vec::new(),
    };
    let mut round = RoundState::Pending;
    let err = solve(&snapshot, &decision, &config(), &mut round).expect_err("the same order twice");
    assert_eq!(err, SolveError::MalformedInput);
}

#[test]
fn zero_fill_amount_is_malformed() {
    let a = addr(1);
    let b = addr(2);
    let snapshot = auction(
        vec![(7, order(a, b, 100, 200, true))],
        vec![(a, info(Some(5))), (b, info(Some(1)))],
    );
    let decision = MatchingDecision { fills: vec![fill(7, 0, 0)], amms: Vec::new() };
    let mut round = RoundState::Pending;
    let err = solve(&snapshot, &decision, &config(), &mut round).expect_err("an unfilled fill");
    assert_eq!(err, SolveError::MalformedInput);
}

#[test]
fn approvals_merge_per_token() {
    let a = addr(1);
    let b = addr(2);
    let c = addr(3);
    let d = addr(4);
    let snapshot = auction(
        vec![(1, order(a, b, 100, 200, true)), (2, order(a, c, 50, 60, true)), (3, order(b, d, 80, 90, true))],
        vec![(a, info(Some(5))), (b, info(Some(1))), (c, info(None)), (d, info(None))],
    );
    let decision = MatchingDecision {
        fills: vec![fill(1, 100, 200), fill(2, 50, 60), fill(3, 80, 90)],
        amms: Vec::new(),
    };
    let mut round = RoundState::Pending;
    let settled = solve(&snapshot, &decision, &config(), &mut round).expect("three clean fills");
    // Two orders sell token a, one sells token b: two approvals, summed.
    assert_eq!(settled.approvals.len(), 2);
    let for_a = settled.approvals.iter().find(|x| x.token == a).expect("approval for a");
    let for_b = settled.approvals.iter().find(|x| x.token == b).expect("approval for b");
    assert_eq!(for_a.amount, u(150));
    assert_eq!(for_b.amount, u(80));
    assert!(settled.approvals.iter().all(|x| x.spender == addr(0x6d64)));
    // Coordinates are pairwise unique across all interactions.
    assert_eq!(settled.interaction_data.len(), 3);
    for i in 0..3 {
        for j in (i + 1)..3 {
            assert_ne!(
                settled.interaction_data[i].exec_plan.coordinates,
                settled.interaction_data[j].exec_plan.coordinates
            );
        }
    }
}

#[test]
fn amm_legs_are_priced_and_passed_through() {
    let a = addr(1);
    let b = addr(2);
    let c = addr(3);
    let snapshot = auction(
        vec![(1, order(a, b, 100, 200, true))],
        vec![(a, info(Some(5))), (b, info(Some(1)))],
    );
    let amm = UpdatedAmmModel {
        execution: vec![ExecutedAmmModel {
            sell_token: b,
            buy_token: c,
            exec_sell_amount: u(200),
            exec_buy_amount: u(400),
            exec_plan: None,
        }],
    };
    let decision = MatchingDecision { fills: vec![fill(1, 100, 200)], amms: vec![(0, amm)] };
    let mut round = RoundState::Pending;
    let settled = solve(&snapshot, &decision, &config(), &mut round).expect("pool leg extends the graph");
    assert_eq!(settled.prices.get(&c), Some(u(250_000_000_000_000_000)));
    assert_eq!(settled.amms.len(), 1);
    assert_eq!(settled.amms[0].0, 0);
    assert_eq!(settled.amms[0].1.execution.len(), 1);
}

#[test]
fn round_state_claims_once() {
    let mut round = RoundState::Pending;
    assert!(round.claim());
    assert!(!round.claim());
    assert_eq!(round, RoundState::Executed);
}

#[test]
fn error_descriptions_are_stable() {
    assert_eq!(SolveError::PriceGraphAmbiguous.description(), "can't deal with such a ring");
    assert_eq!(SolveError::PriceGraphDisconnected.description(), "disconnected token graph");
}

#[test]
fn realized_fee_is_carried_through() {
    let a = addr(1);
    let b = addr(2);
    let snapshot = auction(
        vec![(7, order(a, b, 100, 200, true))],
        vec![(a, info(Some(5))), (b, info(Some(1)))],
    );
    let mut filled = fill(7, 100, 200);
    filled.exec_fee_amount = Some(u(17));
    let decision = MatchingDecision { fills: vec![filled], amms: Vec::new() };
    let mut round = RoundState::Pending;
    let settled = solve(&snapshot, &decision, &config(), &mut round).expect("fee rides along");
    assert_eq!(settled.orders[0].1.exec_fee_amount, Some(u(17)));
}
