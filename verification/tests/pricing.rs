use moo_solver::models::batch_auction_model::{CostModel, FeeModel, OrderModel, PriceVector, TokenInfoModel};
use moo_solver::num::{u256_checked_add, u256_checked_div, u256_checked_mul, u256_eq, u256_exp10,
    u256_is_zero, u256_le, Address, Uint256};
use moo_solver::solve::propagation::{calculate_prices_for_order, propagate, TradeLeg};
use moo_solver::solve::{get_ref_token, SolveError};

fn addr(n: u128) -> Address {
    Address { hi: 0, lo: n }
}

fn u(x: u64) -> Uint256 {
    Uint256 { l0: x, l1: 0, l2: 0, l3: 0 }
}

fn leg(sell: Address, sell_amount: u64, buy: Address, buy_amount: u64) -> TradeLeg {
    TradeLeg {
        sell_token: sell,
        sell_amount: u(sell_amount),
        buy_token: buy,
        buy_amount: u(buy_amount),
    }
}

fn price_of(pv: &PriceVector, t: Address) -> Uint256 {
    pv.get(&t).expect("token must be priced")
}

#[test]
fn single_leg_prices_exactly() {
    let a = addr(1);
    let b = addr(2);
    let legs = vec![leg(a, 100, b, 200)];
    let pv = propagate(&a, 18, &legs).expect("single leg from the reference must price");
    assert_eq!(price_of(&pv, a), u(1_000_000_000_000_000_000));
    assert_eq!(price_of(&pv, b), u(500_000_000_000_000_000));
}

#[test]
fn connected_chain_prices_every_token_deterministically() {
    let a = addr(1);
    let b = addr(2);
    let c = addr(3);
    let d = addr(4);
    // The chain is given out of order: only repeated scanning prices it.
    let legs = vec![leg(c, 7, d, 9), leg(a, 10, b, 20), leg(b, 5, c, 15)];
    let pv1 = propagate(&a, 18, &legs).expect("connected chain must price");
    let pv2 = propagate(&a, 18, &legs).expect("re-run must price as well");
    for t in [a, b, c, d] {
        assert_eq!(price_of(&pv1, t), price_of(&pv2, t));
    }
    assert_eq!(price_of(&pv1, a), u(1_000_000_000_000_000_000));
    assert_eq!(price_of(&pv1, b), u(500_000_000_000_000_000));
    assert_eq!(price_of(&pv1, c), u(166_666_666_666_666_666));
    assert_eq!(pv1.entries.len(), 4);
}

#[test]
fn disconnected_graph_is_rejected() {
    let a = addr(1);
    let c = addr(30);
    let d = addr(40);
    let legs = vec![leg(c, 1, d, 1)];
    let err = propagate(&a, 18, &legs).expect_err("no leg reaches the reference");
    assert_eq!(err, SolveError::PriceGraphDisconnected);
}

#[test]
fn over_determined_cycle_is_rejected() {
    let a = addr(1);
    let b = addr(2);
    let legs = vec![leg(a, 100, b, 200), leg(b, 200, a, 100)];
    let err = propagate(&a, 18, &legs).expect_err("a ring is not revalidated");
    assert_eq!(err, SolveError::PriceGraphAmbiguous);
}

#[test]
fn price_truncating_to_zero_is_rejected() {
    let a = addr(1);
    let b = addr(2);
    // price[a] = 10^0 = 1, so price[b] = 1 * 1 / 1000 truncates to zero.
    let legs = vec![leg(a, 1, b, 1000)];
    let err = propagate(&a, 0, &legs).expect_err("a zero price is out of range");
    assert_eq!(err, SolveError::AmountOutOfRange);
}

#[test]
fn product_overflow_is_rejected() {
    let a = addr(1);
    let b = addr(2);
    // price[a] = 10^77; a sell amount of 13 pushes the product past 2^256.
    let legs = vec![leg(a, 13, b, 1)];
    let err = propagate(&a, 77, &legs).expect_err("the product leaves 256 bits");
    assert_eq!(err, SolveError::AmountOutOfRange);
}

#[test]
fn empty_leg_set_prices_only_the_reference() {
    let a = addr(9);
    let pv = propagate(&a, 6, &Vec::new()).expect("no legs, nothing to fail");
    assert_eq!(pv.entries.len(), 1);
    assert_eq!(price_of(&pv, a), u(1_000_000));
}

fn info(priority: Option<u64>) -> TokenInfoModel {
    TokenInfoModel { decimals: Some(18), normalize_priority: priority, internal_buffer: None }
}

#[test]
fn ref_token_takes_highest_priority() {
    let tokens = vec![(addr(5), info(Some(1))), (addr(3), info(Some(9))), (addr(7), info(None))];
    assert_eq!(get_ref_token(&tokens), Some(addr(3)));
}

#[test]
fn ref_token_tie_breaks_by_lowest_address() {
    let tokens = vec![(addr(9), info(Some(4))), (addr(2), info(Some(4))), (addr(5), info(Some(4)))];
    assert_eq!(get_ref_token(&tokens), Some(addr(2)));
}

#[test]
fn ref_token_of_empty_snapshot_is_none() {
    assert_eq!(get_ref_token(&Vec::new()), None);
}

#[test]
fn uint256_arithmetic_wrappers() {
    let big = Uint256 { l0: 0, l1: 0, l2: 0, l3: 1 << 63 };
    assert_eq!(u256_checked_mul(&big, &u(2)), None);
    assert_eq!(u256_checked_mul(&u(1 << 32), &u(1 << 32)), Some(Uint256 { l0: 0, l1: 1, l2: 0, l3: 0 }));
    assert_eq!(u256_checked_div(&u(7), &u(0)), None);
    assert_eq!(u256_checked_div(&u(7), &u(2)), Some(u(3)));
    assert_eq!(u256_checked_add(&u(3), &u(4)), Some(u(7)));
    let max = Uint256 { l0: u64::MAX, l1: u64::MAX, l2: u64::MAX, l3: u64::MAX };
    assert_eq!(u256_checked_add(&max, &u(1)), None);
    assert_eq!(u256_exp10(0), u(1));
    assert_eq!(u256_exp10(19), u(10_000_000_000_000_000_000));
    assert_eq!(u256_exp10(20), u256_checked_mul(&u256_exp10(19), &u(10)).unwrap());
    assert!(u256_le(&u(3), &u(3)));
    assert!(u256_le(&Uint256 { l0: u64::MAX, l1: 0, l2: 0, l3: 0 }, &Uint256 { l0: 0, l1: 1, l2: 0, l3: 0 }));
    assert!(!u256_le(&Uint256 { l0: 0, l1: 0, l2: 1, l3: 0 }, &Uint256 { l0: u64::MAX, l1: u64::MAX, l2: 0, l3: 0 }));
    assert!(u256_eq(&u(5), &u(5)));
    assert!(!u256_eq(&u(5), &Uint256 { l0: 5, l1: 1, l2: 0, l3: 0 }));
    assert!(u256_is_zero(&u(0)));
    assert!(!u256_is_zero(&Uint256 { l0: 0, l1: 0, l2: 0, l3: 1 }));
}

#[test]
fn single_order_step_fills_the_unknown_side() {
    let a = addr(1);
    let b = addr(2);
    let order = OrderModel {
        sell_token: a,
        buy_token: b,
        sell_amount: u(100),
        buy_amount: u(200),
        allow_partial_fill: false,
        is_sell_order: true,
        fee: FeeModel { amount: u(0), token: a },
        cost: CostModel { amount: u(0), token: a },
        is_liquidity_order: false,
    };
    let mut prices = PriceVector::new();
    prices.insert_new(a, u256_exp10(18));
    calculate_prices_for_order(&order, u(100), u(200), &mut prices).expect("one side is known");
    assert_eq!(prices.get(&b), Some(u(500_000_000_000_000_000)));
    // Both sides priced now: the ring is reported, prices unchanged.
    let again = calculate_prices_for_order(&order, u(100), u(200), &mut prices);
    assert_eq!(again, Err(SolveError::PriceGraphAmbiguous));
    // Neither side priced: the graph is disconnected.
    let mut empty = PriceVector::new();
    let missed = calculate_prices_for_order(&order, u(100), u(200), &mut empty);
    assert_eq!(missed, Err(SolveError::PriceGraphDisconnected));
}
