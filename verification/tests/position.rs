// The per-symbol ledger: quantity invariant, cumulative totals, exact PnL.
// Money here is in whole units (scale 1).

use backgambler::data::Bar;
use backgambler::errors::ErrorRepr;
use backgambler::order::Fill;
use backgambler::position::Position;
use backgambler::ratio::Ratio;

fn build_test_fill(qty: i32, price: i64, cost: i64) -> Fill {
    Fill { time: 0, qty, sym: "test".into(), price, cost }
}

#[test]
fn test_position() {
    let mut pos = Position::default();
    let fill = build_test_fill(-1, 10, 1);
    assert!(matches!(pos.update_from_fill(&fill), Err(_)));

    let fill = build_test_fill(10, 10, 1);
    assert!(matches!(pos.update_from_fill(&fill), Ok(_)));
    assert_eq!(pos.qty, 10);
    assert_eq!(pos.stats.qty_sold, 0);
    assert_eq!(pos.stats.qty_bought, 10);
    assert_eq!(pos.stats.value_sold, 0);
    assert_eq!(pos.stats.value_bought, 100);
    assert_eq!(pos.stats.cost, 1);
    assert_eq!(pos.latest_market_close, None);

    let fill = build_test_fill(-5, 20, 2);
    let mut bar = Bar::default();
    bar.close = 20;
    assert!(matches!(pos.update_from_fill(&fill), Ok(_)));

    pos.latest_market_close = Some(bar.close);
    assert_eq!(pos.qty, 5);
    assert_eq!(pos.stats.qty_sold, 5);
    assert_eq!(pos.stats.qty_bought, 10);
    assert_eq!(pos.stats.value_sold, 100);
    assert_eq!(pos.stats.value_bought, 100);
    assert_eq!(pos.stats.cost, 3);
    assert_eq!(pos.latest_market_close, Some(bar.close));

    assert_eq!(pos.pnl(), Ratio::new(97, 1));

    let fill = build_test_fill(-6, 10, 1);
    assert!(matches!(pos.update_from_fill(&fill), Err(_)));

    let fill = build_test_fill(-5, 8, 1);
    assert!(matches!(pos.update_from_fill(&fill), Ok(_)));
    assert_eq!(pos.qty, 0);
    assert_eq!(pos.stats.qty_sold, 10);
    assert_eq!(pos.stats.qty_bought, 10);
    assert_eq!(pos.stats.value_sold, 140);
    assert_eq!(pos.stats.value_bought, 100);
    assert_eq!(pos.stats.cost, 4);
}

#[test]
fn position_quantity_tracks_fill_sum() {
    let mut pos = Position::default();
    let quantities: [i32; 6] = [4, 10, -3, -12, -11, 7];
    let mut sum: i32 = 0;
    let mut applied: usize = 0;
    for q in quantities {
        match pos.update_from_fill(&build_test_fill(q, 5, 0)) {
            Ok(()) => {
                sum += q;
                applied += 1;
            },
            Err(_) => assert!(sum + q < 0),
        }
        // the held quantity is always the sum of the applied signed fills
        assert_eq!(pos.qty, sum);
        assert_eq!(pos.stats.transactions.len(), applied);
        assert!(pos.qty >= 0);
    }
    assert_eq!(sum, 7);
}

#[test]
fn position_mark_to_market_updates_pnl() {
    let mut pos = Position::default();
    pos.update_from_fill(&build_test_fill(10, 10, 0)).unwrap();
    let mut bar = Bar::default();
    bar.close = 12;
    pos.update_from_market(bar);
    assert_eq!(pos.latest_market_close, Some(12));
    // 10 * 12 + 0 - 100 - 0 == 20
    assert_eq!(pos.stats.pnl, Ratio::new(20, 1));
    assert_eq!(pos.stats.max_pnl, Some(Ratio::new(20, 1)));

    let mut bar = Bar::default();
    bar.close = 7;
    pos.update_from_market(bar);
    // 10 * 7 - 100 == -30
    assert_eq!(pos.stats.pnl, Ratio::new(-30, 1));
    assert_eq!(pos.stats.min_pnl, Some(Ratio::new(-30, 1)));
    assert_eq!(pos.stats.max_pnl, Some(Ratio::new(20, 1)));
}

#[test]
fn ratio_floor_and_order() {
    assert_eq!(Ratio::new(7, 2).floor(), 3);
    assert_eq!(Ratio::new(-7, 2).floor(), -4);
    assert_eq!(Ratio::new(6, 3).floor(), 2);
    assert_eq!(Ratio::new(0, 5).floor(), 0);
    assert!(Ratio::new(1, 3).lt(&Ratio::new(1, 2)));
    assert!(Ratio::new(2, 4).le(&Ratio::new(1, 2)));
    assert!(Ratio::new(1, 2).le(&Ratio::new(2, 4)));
    assert!(Ratio::new(-1, 2).lt(&Ratio::new(0, 7)));
}

#[test]
fn position_surfaces_capacity_breach_as_fatal() {
    let mut pos = Position::default();
    // a commission total past ledger capacity is rejected as fatal,
    // leaving the position untouched
    pos.update_from_fill(&build_test_fill(1, 1, 2_199_023_255_551)).unwrap();
    let before_qty = pos.qty;
    let r = pos.update_from_fill(&build_test_fill(1, 1, 2));
    assert!(matches!(r, Err(ErrorRepr::Fatal)));
    assert_eq!(pos.qty, before_qty);
    assert_eq!(pos.stats.cost, 2_199_023_255_551);
}
