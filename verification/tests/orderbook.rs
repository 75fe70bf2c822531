use orderbook::contract::Contract;
use orderbook::errors::ObError;
use orderbook::order::{parse_side, side_str, status_str, OrderStatus, Side};

const BASE: u64 = 100;
const QUOTE: u64 = 200;
const OTHER_TOKEN: u64 = 300;
const SELLER: u64 = 1;
const BUYER: u64 = 2;
const STRANGER: u64 = 3;

fn setup() -> Contract {
    let mut c = Contract::new(BASE, QUOTE);
    assert_eq!(c.ft_on_transfer(SELLER, 1_000, BASE), 0);
    assert_eq!(c.ft_on_transfer(BUYER, 10_000, QUOTE), 0);
    c
}

fn supply(c: &Contract, token: u64) -> u128 {
    let mut s: u128 = 0;
    for a in [SELLER, BUYER, STRANGER] {
        s += c.get_balance(a, token);
    }
    for v in c.get_orders(0, u64::MAX) {
        if token == BASE {
            s += v.locked_base_remaining;
        } else if token == QUOTE {
            s += v.locked_quote_remaining;
        }
    }
    s
}

#[test]
fn parse_side_is_case_insensitive() {
    assert_eq!(parse_side("buy"), Some(Side::Buy));
    assert_eq!(parse_side("BUY"), Some(Side::Buy));
    assert_eq!(parse_side("bUy"), Some(Side::Buy));
    assert_eq!(parse_side("sell"), Some(Side::Sell));
    assert_eq!(parse_side("Sell"), Some(Side::Sell));
    assert_eq!(parse_side("sELL"), Some(Side::Sell));
    assert_eq!(parse_side("hold"), None);
    assert_eq!(parse_side(""), None);
    assert_eq!(parse_side("buyy"), None);
    assert_eq!(parse_side("sel"), None);
    assert_eq!(parse_side("b\u{00fc}y"), None);
}

#[test]
fn error_class_ignores_maker_taker_labels() {
    // The seller's floor (100/1) is violated by the proposed rate, and the
    // buyer's quote lock (50) cannot cover the payment either. Whichever
    // order carries the maker label, the price check decides first.
    let mut c = setup();
    let sell = c.place_order(SELLER, "sell".to_string(), 10, None, 100, 1, 0).unwrap();
    let buy = c
        .place_order(BUYER, "buy".to_string(), 10, Some(50), 200, 1, 0)
        .unwrap();
    assert_eq!(c.execute(sell, buy, 1, 60), Err(ObError::StateError));
    assert_eq!(c.execute(buy, sell, 1, 60), Err(ObError::StateError));
}

#[test]
fn supply_is_balances_plus_locks() {
    let mut c = setup();
    assert_eq!(c.supply(BASE), 1_000);
    assert_eq!(c.supply(QUOTE), 10_000);
    let sell = c.place_order(SELLER, "sell".to_string(), 10, None, 100, 1, 0).unwrap();
    let buy = c
        .place_order(BUYER, "buy".to_string(), 10, Some(1_000), 100, 1, 0)
        .unwrap();
    // Locked funds still count toward the supply.
    assert_eq!(c.supply(BASE), 1_000);
    assert_eq!(c.supply(QUOTE), 10_000);
    c.execute(sell, buy, 4, 400).unwrap();
    assert_eq!(c.supply(BASE), 1_000);
    assert_eq!(c.supply(QUOTE), 10_000);
    // Only a withdrawal takes funds out of the exchange.
    c.withdraw(SELLER, BASE, 100, None, None).unwrap();
    assert_eq!(c.supply(BASE), 900);
    assert_eq!(c.supply(QUOTE), 10_000);
}

#[test]
fn maker_role_carries_no_priority() {
    let mut c = setup();
    let sell = c.place_order(SELLER, "sell".to_string(), 10, None, 100, 1, 0).unwrap();
    let buy = c
        .place_order(BUYER, "buy".to_string(), 10, Some(1_000), 100, 1, 0)
        .unwrap();
    // The buy order as maker settles exactly like the sell order as maker.
    c.execute(buy, sell, 10, 1_000).unwrap();
    assert_eq!(c.get_order(sell).unwrap().status, "filled");
    assert_eq!(c.get_order(buy).unwrap().status, "filled");
    assert_eq!(c.get_balance(SELLER, QUOTE), 1_000);
    assert_eq!(c.get_balance(BUYER, BASE), 10);
}

#[test]
fn side_and_status_render() {
    assert_eq!(side_str(&Side::Buy), "buy");
    assert_eq!(side_str(&Side::Sell), "sell");
    assert_eq!(status_str(&OrderStatus::Open), "open");
    assert_eq!(status_str(&OrderStatus::Filled), "filled");
    assert_eq!(status_str(&OrderStatus::Cancelled), "cancelled");
}

#[test]
fn config_and_deposits() {
    let mut c = setup();
    assert_eq!(c.get_config(), (BASE, QUOTE));
    assert_eq!(c.get_balance(SELLER, BASE), 1_000);
    assert_eq!(c.get_balance(BUYER, QUOTE), 10_000);
    assert_eq!(c.get_balance(SELLER, QUOTE), 0);
    // A second deposit accumulates.
    assert_eq!(c.ft_on_transfer(SELLER, 500, BASE), 0);
    assert_eq!(c.get_balance(SELLER, BASE), 1_500);
}

#[test]
fn deposit_of_unconfigured_token_is_declined_in_full() {
    let mut c = setup();
    assert_eq!(c.ft_on_transfer(SELLER, 777, OTHER_TOKEN), 777);
    assert_eq!(c.get_balance(SELLER, OTHER_TOKEN), 0);
    assert_eq!(c.get_balance(SELLER, BASE), 1_000);
}

#[test]
fn placement_locks_funds_and_assigns_sequential_ids() {
    let mut c = setup();
    let sell = c.place_order(SELLER, "sell".to_string(), 10, None, 100, 1, 0).unwrap();
    assert_eq!(sell, 0);
    assert_eq!(c.get_balance(SELLER, BASE), 990);
    let buy = c
        .place_order(BUYER, "buy".to_string(), 10, Some(1_000), 100, 1, 0)
        .unwrap();
    assert_eq!(buy, 1);
    assert_eq!(c.get_balance(BUYER, QUOTE), 9_000);
    let so = c.get_order(sell).unwrap();
    assert_eq!(so.side, "sell");
    assert_eq!(so.status, "open");
    assert_eq!(so.amount_base, 10);
    assert_eq!(so.remaining_base, 10);
    assert_eq!(so.locked_base_remaining, 10);
    assert_eq!(so.locked_quote_remaining, 0);
    let bo = c.get_order(buy).unwrap();
    assert_eq!(bo.side, "buy");
    assert_eq!(bo.locked_quote_remaining, 1_000);
    assert_eq!(bo.locked_base_remaining, 0);
}

#[test]
fn placement_validation_errors() {
    let mut c = setup();
    let e = c.place_order(SELLER, "sell".to_string(), 0, None, 100, 1, 0);
    assert_eq!(e, Err(ObError::ValidationError));
    let e = c.place_order(SELLER, "sell".to_string(), 10, None, 0, 1, 0);
    assert_eq!(e, Err(ObError::ValidationError));
    let e = c.place_order(SELLER, "sell".to_string(), 10, None, 100, 0, 0);
    assert_eq!(e, Err(ObError::ValidationError));
    let e = c.place_order(SELLER, "hold".to_string(), 10, None, 100, 1, 0);
    assert_eq!(e, Err(ObError::ValidationError));
    let e = c.place_order(BUYER, "buy".to_string(), 10, None, 100, 1, 0);
    assert_eq!(e, Err(ObError::ValidationError));
    let e = c.place_order(BUYER, "buy".to_string(), 10, Some(0), 100, 1, 0);
    assert_eq!(e, Err(ObError::ValidationError));
    // Nothing was mutated by the rejected placements.
    assert_eq!(c.get_orders(0, u64::MAX).len(), 0);
    assert_eq!(c.get_balance(SELLER, BASE), 1_000);
    assert_eq!(c.get_balance(BUYER, QUOTE), 10_000);
}

#[test]
fn placement_insufficient_funds() {
    let mut c = setup();
    let e = c.place_order(SELLER, "sell".to_string(), 1_001, None, 100, 1, 0);
    assert_eq!(e, Err(ObError::InsufficientFundsError));
    let e = c.place_order(BUYER, "buy".to_string(), 10, Some(10_001), 100, 1, 0);
    assert_eq!(e, Err(ObError::InsufficientFundsError));
    assert_eq!(c.get_orders(0, u64::MAX).len(), 0);
    assert_eq!(c.get_balance(SELLER, BASE), 1_000);
    assert_eq!(c.get_balance(BUYER, QUOTE), 10_000);
}

#[test]
fn scenario_full_fill() {
    let mut c = setup();
    let sell = c.place_order(SELLER, "sell".to_string(), 10, None, 100, 1, 0).unwrap();
    let buy = c
        .place_order(BUYER, "buy".to_string(), 10, Some(1_000), 100, 1, 0)
        .unwrap();
    c.execute(sell, buy, 10, 1_000).unwrap();
    let so = c.get_order(sell).unwrap();
    let bo = c.get_order(buy).unwrap();
    assert_eq!(so.status, "filled");
    assert_eq!(bo.status, "filled");
    assert_eq!(so.remaining_base, 0);
    assert_eq!(bo.remaining_base, 0);
    assert_eq!(so.locked_base_remaining, 0);
    assert_eq!(bo.locked_quote_remaining, 0);
    assert_eq!(c.get_balance(SELLER, QUOTE), 1_000);
    assert_eq!(c.get_balance(BUYER, BASE), 10);
}

#[test]
fn scenario_partial_fill() {
    let mut c = setup();
    let sell = c.place_order(SELLER, "sell".to_string(), 10, None, 100, 1, 0).unwrap();
    let buy = c
        .place_order(BUYER, "buy".to_string(), 10, Some(1_000), 100, 1, 0)
        .unwrap();
    c.execute(sell, buy, 4, 400).unwrap();
    let so = c.get_order(sell).unwrap();
    let bo = c.get_order(buy).unwrap();
    assert_eq!(so.status, "open");
    assert_eq!(bo.status, "open");
    assert_eq!(so.remaining_base, 6);
    assert_eq!(bo.remaining_base, 6);
    assert_eq!(so.locked_base_remaining, 6);
    assert_eq!(bo.locked_quote_remaining, 600);
    c.execute(sell, buy, 6, 600).unwrap();
    assert_eq!(c.get_order(sell).unwrap().status, "filled");
    assert_eq!(c.get_order(buy).unwrap().status, "filled");
    assert_eq!(c.get_balance(SELLER, QUOTE), 1_000);
    assert_eq!(c.get_balance(BUYER, BASE), 10);
}

#[test]
fn scenario_price_violation() {
    let mut c = setup();
    let sell = c.place_order(SELLER, "sell".to_string(), 10, None, 100, 1, 0).unwrap();
    let buy = c
        .place_order(BUYER, "buy".to_string(), 10, Some(1_000), 100, 1, 0)
        .unwrap();
    let quote_before = c.get_balance(SELLER, QUOTE);
    let e = c.execute(sell, buy, 1, 50);
    assert_eq!(e, Err(ObError::StateError));
    let so = c.get_order(sell).unwrap();
    assert_eq!(so.status, "open");
    assert_eq!(so.remaining_base, 10);
    assert_eq!(so.locked_base_remaining, 10);
    assert_eq!(c.get_balance(SELLER, QUOTE), quote_before);
    assert_eq!(c.get_order(buy).unwrap().locked_quote_remaining, 1_000);
}

#[test]
fn execute_rejections() {
    let mut c = setup();
    let sell = c.place_order(SELLER, "sell".to_string(), 10, None, 100, 1, 0).unwrap();
    let buy = c
        .place_order(BUYER, "buy".to_string(), 10, Some(1_000), 100, 1, 0)
        .unwrap();
    let sell2 = c.place_order(SELLER, "sell".to_string(), 5, None, 100, 1, 0).unwrap();
    assert_eq!(c.execute(sell, sell, 1, 100), Err(ObError::ValidationError));
    assert_eq!(c.execute(sell, buy, 0, 100), Err(ObError::ValidationError));
    assert_eq!(c.execute(sell, buy, 1, 0), Err(ObError::ValidationError));
    assert_eq!(c.execute(sell, 77, 1, 100), Err(ObError::StateError));
    assert_eq!(c.execute(77, buy, 1, 100), Err(ObError::StateError));
    assert_eq!(c.execute(sell, sell2, 1, 100), Err(ObError::StateError));
    // The seller's base lock cannot cover the fill.
    assert_eq!(
        c.execute(sell, buy, 11, 1_100),
        Err(ObError::InsufficientFundsError)
    );
    // Paying above the buyer's price ceiling is a price violation.
    assert_eq!(c.execute(sell, buy, 10, 1_001), Err(ObError::StateError));
    // The buyer's quote lock cannot cover a payment within its ceiling.
    let buy2 = c
        .place_order(BUYER, "buy".to_string(), 10, Some(500), 100, 1, 0)
        .unwrap();
    assert_eq!(
        c.execute(sell, buy2, 6, 600),
        Err(ObError::InsufficientFundsError)
    );
    // Nothing changed.
    assert_eq!(c.get_order(sell).unwrap().remaining_base, 10);
    assert_eq!(c.get_order(buy).unwrap().remaining_base, 10);
    assert_eq!(c.get_balance(SELLER, QUOTE), 0);
}

#[test]
fn execute_rejects_price_product_overflow() {
    let mut c = setup();
    // Floor price 1/u128::MAX: nearly free, but the cross product
    // quote_paid * price_den does not fit and must be rejected, not clamped.
    let sell = c
        .place_order(SELLER, "sell".to_string(), 10, None, 1, u128::MAX, 0)
        .unwrap();
    let buy = c
        .place_order(BUYER, "buy".to_string(), 10, Some(1_000), 100, 1, 0)
        .unwrap();
    assert_eq!(c.execute(sell, buy, 1, 2), Err(ObError::StateError));
    assert_eq!(c.get_order(sell).unwrap().remaining_base, 10);
}

#[test]
fn execute_on_terminal_order_is_refused() {
    let mut c = setup();
    let sell = c.place_order(SELLER, "sell".to_string(), 10, None, 100, 1, 0).unwrap();
    let buy = c
        .place_order(BUYER, "buy".to_string(), 10, Some(1_000), 100, 1, 0)
        .unwrap();
    c.execute(sell, buy, 10, 1_000).unwrap();
    assert_eq!(c.execute(sell, buy, 1, 100), Err(ObError::StateError));
}

#[test]
fn cancellation_refunds_current_lock() {
    let mut c = setup();
    let sell = c.place_order(SELLER, "sell".to_string(), 10, None, 100, 1, 0).unwrap();
    let buy = c
        .place_order(BUYER, "buy".to_string(), 10, Some(1_000), 100, 1, 0)
        .unwrap();
    c.execute(sell, buy, 4, 400).unwrap();
    // The seller keeps 6 base locked; cancelling refunds exactly those 6.
    assert_eq!(c.get_balance(SELLER, BASE), 990);
    c.cancel_order(SELLER, sell).unwrap();
    assert_eq!(c.get_balance(SELLER, BASE), 996);
    // The buyer keeps 600 quote locked; cancelling refunds exactly those 600.
    assert_eq!(c.get_balance(BUYER, QUOTE), 9_000);
    c.cancel_order(BUYER, buy).unwrap();
    assert_eq!(c.get_balance(BUYER, QUOTE), 9_600);
}

#[test]
fn second_cancellation_fails_and_changes_nothing() {
    let mut c = setup();
    let sell = c.place_order(SELLER, "sell".to_string(), 10, None, 100, 1, 0).unwrap();
    c.cancel_order(SELLER, sell).unwrap();
    let base_after = c.get_balance(SELLER, BASE);
    assert_eq!(c.cancel_order(SELLER, sell), Err(ObError::StateError));
    assert_eq!(c.get_balance(SELLER, BASE), base_after);
    assert_eq!(c.get_order(sell).unwrap().status, "cancelled");
}

#[test]
fn cancellation_authorization_and_absence() {
    let mut c = setup();
    let sell = c.place_order(SELLER, "sell".to_string(), 10, None, 100, 1, 0).unwrap();
    assert_eq!(
        c.cancel_order(STRANGER, sell),
        Err(ObError::AuthorizationError)
    );
    assert_eq!(c.cancel_order(SELLER, 42), Err(ObError::StateError));
    assert_eq!(c.get_order(sell).unwrap().status, "open");
    assert_eq!(c.get_balance(SELLER, BASE), 990);
}

#[test]
fn cancelled_order_keeps_audit_fields() {
    let mut c = setup();
    let sell = c
        .place_order(SELLER, "sell".to_string(), 10, None, 100, 7, 123_000_000)
        .unwrap();
    c.cancel_order(SELLER, sell).unwrap();
    let v = c.get_order(sell).unwrap();
    assert_eq!(v.status, "cancelled");
    assert_eq!(v.remaining_base, 0);
    assert_eq!(v.locked_base_remaining, 0);
    assert_eq!(v.locked_quote_remaining, 0);
    assert_eq!(v.amount_base, 10);
    assert_eq!(v.price_num, 100);
    assert_eq!(v.price_den, 7);
    assert_eq!(v.owner_id, SELLER);
    assert_eq!(v.created_at, 123);
}

#[test]
fn conservation_across_operations() {
    let mut c = setup();
    let base0 = supply(&c, BASE);
    let quote0 = supply(&c, QUOTE);
    let sell = c.place_order(SELLER, "sell".to_string(), 10, None, 50, 1, 0).unwrap();
    assert_eq!(supply(&c, BASE), base0);
    assert_eq!(supply(&c, QUOTE), quote0);
    let buy = c
        .place_order(BUYER, "buy".to_string(), 10, Some(1_000), 100, 1, 0)
        .unwrap();
    assert_eq!(supply(&c, BASE), base0);
    assert_eq!(supply(&c, QUOTE), quote0);
    // Fill at 50 per unit: the buy order fills below its reserved spend and
    // keeps the surplus in its lock; the totals still balance.
    c.execute(sell, buy, 10, 500).unwrap();
    assert_eq!(c.get_order(buy).unwrap().status, "filled");
    assert_eq!(c.get_order(buy).unwrap().locked_quote_remaining, 500);
    assert_eq!(supply(&c, BASE), base0);
    assert_eq!(supply(&c, QUOTE), quote0);
    let sell2 = c.place_order(SELLER, "sell".to_string(), 7, None, 60, 1, 0).unwrap();
    c.cancel_order(SELLER, sell2).unwrap();
    assert_eq!(supply(&c, BASE), base0);
    assert_eq!(supply(&c, QUOTE), quote0);
}

#[test]
fn withdraw_requests_and_errors() {
    let mut c = setup();
    assert_eq!(
        c.withdraw(SELLER, BASE, 0, None, None),
        Err(ObError::ValidationError)
    );
    assert_eq!(
        c.withdraw(SELLER, BASE, 1_001, None, None),
        Err(ObError::InsufficientFundsError)
    );
    assert_eq!(c.get_balance(SELLER, BASE), 1_000);
    let req = c.withdraw(SELLER, BASE, 300, None, None).unwrap();
    assert_eq!(req.token_id, BASE);
    assert_eq!(req.amount, 300);
    assert_eq!(req.receiver_id, SELLER);
    assert!(req.msg.is_none());
    assert_eq!(c.get_balance(SELLER, BASE), 700);
    let req = c
        .withdraw(SELLER, BASE, 100, Some(STRANGER), Some("forward".to_string()))
        .unwrap();
    assert_eq!(req.receiver_id, STRANGER);
    assert_eq!(req.msg.as_deref(), Some("forward"));
    assert_eq!(c.get_balance(SELLER, BASE), 600);
    // A token the caller holds nothing of cannot be withdrawn.
    assert_eq!(
        c.withdraw(SELLER, OTHER_TOKEN, 1, None, None),
        Err(ObError::InsufficientFundsError)
    );
}

#[test]
fn listing_is_sliced_and_clipped() {
    let mut c = setup();
    let a = c.place_order(SELLER, "sell".to_string(), 1, None, 10, 1, 0).unwrap();
    let b = c.place_order(SELLER, "sell".to_string(), 2, None, 20, 1, 0).unwrap();
    let d = c.place_order(SELLER, "sell".to_string(), 3, None, 30, 1, 0).unwrap();
    assert_eq!((a, b, d), (0, 1, 2));
    let all = c.get_orders(0, u64::MAX);
    assert_eq!(all.len(), 3);
    assert_eq!(all[0].id, 0);
    assert_eq!(all[2].id, 2);
    let mid = c.get_orders(1, 1);
    assert_eq!(mid.len(), 1);
    assert_eq!(mid[0].id, 1);
    assert_eq!(mid[0].amount_base, 2);
    let tail = c.get_orders(1, 100);
    assert_eq!(tail.len(), 2);
    assert_eq!(c.get_orders(5, 10).len(), 0);
    assert_eq!(c.get_orders(3, 10).len(), 0);
}

#[test]
fn listing_by_owner_follows_placement_order() {
    let mut c = setup();
    c.ft_on_transfer(STRANGER, 100, BASE);
    let a = c.place_order(SELLER, "sell".to_string(), 1, None, 10, 1, 0).unwrap();
    let b = c.place_order(STRANGER, "sell".to_string(), 2, None, 20, 1, 0).unwrap();
    let d = c.place_order(SELLER, "sell".to_string(), 3, None, 30, 1, 0).unwrap();
    let mine = c.get_orders_by_owner(SELLER);
    assert_eq!(mine.len(), 2);
    assert_eq!(mine[0].id, a);
    assert_eq!(mine[1].id, d);
    let theirs = c.get_orders_by_owner(STRANGER);
    assert_eq!(theirs.len(), 1);
    assert_eq!(theirs[0].id, b);
    assert_eq!(c.get_orders_by_owner(BUYER).len(), 0);
    // Cancelled orders stay in the owner's listing.
    c.cancel_order(SELLER, a).unwrap();
    assert_eq!(c.get_orders_by_owner(SELLER).len(), 2);
}

#[test]
fn get_order_absent() {
    let c = Contract::new(BASE, QUOTE);
    assert!(c.get_order(0).is_none());
}
