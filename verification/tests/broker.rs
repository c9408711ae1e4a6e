// The venue: market and limit orders, clamping, commission, settlement.
// Money is in fixed-point units: prices scaled by 1000 (1.0 == 1000 units),
// a 0.001 commission rate is the rational 1/1000.

use backgambler::broker::SimulatedBroker;
use backgambler::data::Bar;
use backgambler::errors::ErrorRepr;
use backgambler::order::{FixedSizeOrderManager, Order, OrderKind, OrderStatus};
use backgambler::portfolio::SimplePortfolio;

fn market_order(sym: &str, qty: i32) -> Order {
    Order {
        sym: sym.to_string(),
        kind: OrderKind::Market,
        qty,
        time: 0,
        lifetime: None,
        status: OrderStatus::Created,
    }
}

#[test]
fn test_broker_market_order() {
    let mut bro = SimulatedBroker::new(1, 1000);
    let mut bar = Bar::default();
    bar.open = 10_000; // 10.0
    bar.vol = 10_000;
    bro.set_lastest_bar(&bar);

    let mut port = SimplePortfolio::new(1_000_000, FixedSizeOrderManager { size: 10 });
    let mut ord = market_order("test", 10);

    bro.exec_order(&ord, &mut port).unwrap();
    // 1000.0 - 10 * 10.0 * 1.001 == 899.9
    assert_eq!(port.cash, 899_900);
    assert_eq!(port.init_cash, 1_000_000);

    ord.qty = 1000;
    let fill = bro.exec_order(&ord, &mut port).unwrap();
    assert_eq!(fill.qty, 88);
    assert_eq!(fill.price, 10_000);
    // 1000.0 - 98 * 10.0 * 1.001 == 19.02, exactly in fixed point
    assert_eq!(port.cash, 19_020);

    ord.qty = -1000;
    let fill = bro.exec_order(&ord, &mut port).unwrap();
    assert_eq!(fill.qty, -98);
    assert_eq!(fill.price, 10_000);
    // total round-trip cost: 2 * 98 * 10.0 * 0.001 == 1.96
    assert_eq!(port.init_cash - port.cash, 1_960);
}

#[test]
fn test_broker_limit_order() {
    let mut bro = SimulatedBroker::new(1, 1000);
    let mut bar = Bar::default();
    bar.open = 10_000;
    bar.vol = 10_000;
    bro.set_lastest_bar(&bar);

    let mut port = SimplePortfolio::new(1_000_000, FixedSizeOrderManager { size: 10 });

    let mut ord = market_order("test", 10);
    ord.kind = OrderKind::Limit { limit: 9_000, stop: Some(12_000) };

    let rejected = bro.exec_order(&ord, &mut port).expect_err("NotSatisfied");
    assert_eq!(rejected, ErrorRepr::NotSatisfied);
    assert_eq!(port.cash, port.init_cash);

    bar.open = 8_000;
    bro.set_lastest_bar(&bar);
    ord.qty = 1000;

    let fill = bro.exec_order(&ord, &mut port).unwrap();
    assert_eq!(fill.qty, 124);
    assert_eq!(fill.price, 8_000);
    // 1000.0 - 124 * 8.0 * 1.001 == 7.008
    assert_eq!(port.cash, 7_008);

    ord.qty = -1000;
    ord.kind = OrderKind::Limit { limit: 12_000, stop: Some(8_000) };
    bar.open = 12_000;
    bro.set_lastest_bar(&bar);

    let fill = bro.exec_order(&ord, &mut port).unwrap();
    assert_eq!(fill.qty, -124);
    assert_eq!(fill.price, 12_000);
    // the limit sell settles through the wallet too:
    // 7.008 + 124 * 12.0 - 124 * 12.0 * 0.001 == 1493.52
    assert_eq!(port.cash, 1_493_520);
}

#[test]
fn broker_without_bar_cannot_price() {
    let mut bro = SimulatedBroker::default();
    let mut port = SimplePortfolio::new(1_000, FixedSizeOrderManager { size: 1 });
    let ord = market_order("test", 1);
    assert!(matches!(bro.exec_order(&ord, &mut port), Err(ErrorRepr::NotExists)));
    assert_eq!(port.cash, 1_000);
}

#[test]
fn broker_rejects_expired_order() {
    let mut bro = SimulatedBroker::default();
    let mut bar = Bar::default();
    bar.open = 10;
    bar.vol = 100;
    bro.set_lastest_bar(&bar);
    let mut port = SimplePortfolio::new(1_000, FixedSizeOrderManager { size: 1 });
    let mut ord = market_order("test", 1);
    ord.lifetime = Some(0);
    assert!(matches!(bro.exec_order(&ord, &mut port), Err(ErrorRepr::OrderExpired)));
}

#[test]
fn broker_buy_clamps_to_volume_and_cash() {
    let mut bro = SimulatedBroker::default();
    let mut bar = Bar::default();
    bar.open = 10;
    bar.vol = 3; // only three units trade this bar
    bro.set_lastest_bar(&bar);
    let mut port = SimplePortfolio::new(1_000, FixedSizeOrderManager { size: 1 });
    let ord = market_order("test", 50);
    let fill = bro.exec_order(&ord, &mut port).unwrap();
    assert_eq!(fill.qty, 3);
    assert_eq!(port.cash, 970);

    // with deep volume, cash is the binding constraint: 970 / 10 == 97
    bar.vol = 1_000_000;
    bro.set_lastest_bar(&bar);
    let fill = bro.exec_order(&ord, &mut port).unwrap();
    assert_eq!(fill.qty, 50); // the request itself is the minimum here
    assert_eq!(port.cash, 470);
}

#[test]
fn broker_sell_clamps_to_held_quantity() {
    let mut bro = SimulatedBroker::default();
    let mut bar = Bar::default();
    bar.open = 10;
    bar.vol = 1_000;
    bro.set_lastest_bar(&bar);
    let mut port = SimplePortfolio::new(1_000, FixedSizeOrderManager { size: 1 });

    let buy = market_order("test", 7);
    bro.exec_order(&buy, &mut port).unwrap();
    assert_eq!(port.cash, 930);

    let sell = market_order("test", -50);
    let fill = bro.exec_order(&sell, &mut port).unwrap();
    assert_eq!(fill.qty, -7);
    assert_eq!(port.cash, 1_000);
}

#[test]
fn broker_cash_conservation_per_fill() {
    let mut bro = SimulatedBroker::new(1, 1000);
    let mut bar = Bar::default();
    bar.open = 5_000;
    bar.vol = 10_000;
    bro.set_lastest_bar(&bar);
    let mut port = SimplePortfolio::new(500_000, FixedSizeOrderManager { size: 1 });

    for qty in [10, -4, 25, -31] {
        let before = port.cash;
        let ord = market_order("test", qty);
        let fill = bro.exec_order(&ord, &mut port).unwrap();
        let moved = fill.qty as i64 * fill.price + fill.cost;
        assert_eq!(port.cash, before - moved);
        assert!(port.cash >= 0);
    }
}

#[test]
fn broker_surfaces_capacity_breach_as_fatal() {
    // a sell credit that would push cash past ledger capacity is rejected
    // as a fatal error instead of being applied
    let mut bro = SimulatedBroker::default();
    bro.position = 1_000;
    let mut bar = Bar::default();
    bar.open = 2_199_023_255_552; // the ledger's money capacity
    bar.vol = 10_000;
    bro.set_lastest_bar(&bar);
    let mut port = SimplePortfolio::new(2_199_023_255_552, FixedSizeOrderManager { size: 1 });
    let ord = market_order("test", -1_000);
    assert!(matches!(bro.exec_order(&ord, &mut port), Err(ErrorRepr::Fatal)));
    assert_eq!(port.cash, 2_199_023_255_552);
    assert_eq!(bro.position, 1_000);
}
