// The ledger: fills routed to positions, the wallet, and the statistics.
// Money here is in whole units (scale 1).

use backgambler::data::Bar;
use backgambler::order::{Fill, FixedSizeOrderManager};
use backgambler::portfolio::{SimplePortfolio, Statistics};
use backgambler::position::Position;
use backgambler::ratio::Ratio;
use backgambler::strategy::{Decision, DecisionKind};

fn build_test_fill(qty: i32, price: i64, cost: i64) -> Fill {
    Fill { time: 0, qty, sym: "test".into(), price, cost }
}

#[test]
fn test_portfolio_handle_fill() {
    let mut p = SimplePortfolio::new(50, FixedSizeOrderManager { size: 10 });

    let fill = build_test_fill(10, 5, 0);
    assert!(matches!(p.update_from_fill(&fill), Ok(_)));
    assert_eq!(p.init_cash, 50);

    let pos = &p.positions[0];
    assert_eq!(pos.sym, "test");
    assert_eq!(pos.qty, 10);
    assert_eq!(pos.stats.qty_sold, 0);
    assert_eq!(pos.stats.qty_bought, 10);
    assert_eq!(pos.stats.value_sold, 0);
    assert_eq!(pos.stats.value_bought, 50);
    assert_eq!(pos.stats.cost, 0);

    let fill = build_test_fill(-5, 6, 1);
    assert!(matches!(p.update_from_fill(&fill), Ok(_)));
    let pos = &p.positions[0];
    assert_eq!(p.init_cash, 50);
    assert_eq!(pos.qty, 5);
    assert_eq!(pos.stats.qty_sold, 5);
    assert_eq!(pos.stats.qty_bought, 10);
    assert_eq!(pos.stats.value_sold, 30);
    assert_eq!(pos.stats.value_bought, 50);
    assert_eq!(pos.stats.cost, 1);
    // 29 + 80/15 * 5 - 50, exactly: 5 * 80/15 + 30 - 50 - 1 == 85/15
    assert_eq!(p.positions[0].pnl(), Ratio::new(85, 15));

    let stats = p.stats();
    // the aggregate reports each position's PnL floored
    assert_eq!(stats.pnl, p.positions[0].pnl().floor());

    let mut bar = Bar::default();
    bar.sym = "test".into();
    p.update_from_market(&bar).unwrap();
    assert_eq!(p.positions[0].latest_market_close, Some(bar.close));
}

#[test]
fn wallet_pay_rejects_overdraft() {
    let mut p = SimplePortfolio::new(100, FixedSizeOrderManager { size: 1 });
    assert_eq!(p.pay(30), Some(70));
    assert_eq!(p.balance(), 70);
    assert_eq!(p.pay(71), None);
    assert_eq!(p.balance(), 70);
    // a negative amount is a credit
    assert_eq!(p.pay(-30), Some(100));
    assert_eq!(p.balance(), 100);
    p.set_balance(5);
    assert_eq!(p.balance(), 5);
}

#[test]
fn stats_ranks_positions_by_pnl_ratio() {
    let mut p = SimplePortfolio::new(1_000, FixedSizeOrderManager { size: 1 });

    // winner: buys 10 @ 10, marked at 20
    p.update_from_fill(&Fill { time: 0, qty: 10, sym: "win".into(), price: 10, cost: 0 })
        .unwrap();
    let mut bar = Bar::default();
    bar.sym = "win".into();
    bar.close = 20;
    p.update_from_market(&bar).unwrap();

    // loser: buys 10 @ 10, marked at 4
    p.update_from_fill(&Fill { time: 0, qty: 10, sym: "lose".into(), price: 10, cost: 0 })
        .unwrap();
    let mut bar = Bar::default();
    bar.sym = "lose".into();
    bar.close = 4;
    p.update_from_market(&bar).unwrap();

    let stats = p.stats();
    assert_eq!(stats.positions.len(), 2);
    assert_eq!(stats.positions[0].sym, "win");
    assert_eq!(stats.positions[1].sym, "lose");
    // total PnL: (10*20 - 100) + (10*4 - 100) == 40
    assert_eq!(stats.pnl, 40);
    assert_eq!(stats.init_cash, 1_000);
    assert_eq!(stats.pnl_ratio, Ratio::new(40, 1_000));
}

#[test]
fn stats_ranking_is_stable_for_equal_ratios() {
    let mut p = SimplePortfolio::new(1_000, FixedSizeOrderManager { size: 1 });
    for sym in ["first", "second", "third"] {
        p.update_from_fill(&Fill { time: 0, qty: 1, sym: sym.into(), price: 10, cost: 0 })
            .unwrap();
    }
    let stats = p.stats();
    // every ratio is equal (zero); first-use order is kept
    assert_eq!(stats.positions[0].sym, "first");
    assert_eq!(stats.positions[1].sym, "second");
    assert_eq!(stats.positions[2].sym, "third");
}

#[test]
fn allocate_order_uses_registered_position() {
    let mut p = SimplePortfolio::new(1_000, FixedSizeOrderManager { size: 10 });
    p.update_from_fill(&build_test_fill(4, 5, 0)).unwrap();

    let d = Decision { sym: "test".into(), kind: DecisionKind::Sell, time: 3 };
    let ord = p.allocate_order(&d).unwrap().unwrap();
    assert_eq!(ord.qty, -4);
    assert_eq!(ord.time, 3);

    let d = Decision { sym: "other".into(), kind: DecisionKind::Sell, time: 3 };
    assert!(matches!(p.allocate_order(&d), Ok(None)));
}

#[test]
fn rejected_fill_keeps_position_registration() {
    let mut p = SimplePortfolio::new(50, FixedSizeOrderManager { size: 1 });
    let fill = build_test_fill(-1, 10, 0);
    assert!(matches!(p.update_from_fill(&fill), Err(_)));
    // the symbol was registered on the way, with an empty position
    assert_eq!(p.positions.len(), 1);
    assert_eq!(p.positions[0].qty, 0);
    // cash is untouched by the ledger path
    assert_eq!(p.cash, 50);
}

#[test]
fn portfolio_marks_unknown_symbol_by_registering_it() {
    let mut p = SimplePortfolio::new(50, FixedSizeOrderManager { size: 1 });
    let mut bar = Bar::default();
    bar.sym = "fresh".into();
    bar.close = 7;
    p.update_from_market(&bar).unwrap();
    assert_eq!(p.positions.len(), 1);
    assert_eq!(p.positions[0].latest_market_close, Some(7));
}
