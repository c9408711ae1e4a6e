// Order allocation: fixed-size, fixed-value and plain sizing.

use backgambler::errors::ErrorRepr;
use backgambler::order::{
    FixedSizeOrderManager, FixedValueOrderManager, Order, OrderKind, OrderManager, OrderStatus,
    SimpleOrderManager,
};
use backgambler::position::Position;
use backgambler::strategy::{Decision, DecisionKind};

fn decision(sym: &str, kind: DecisionKind, time: i64) -> Decision {
    Decision { sym: sym.to_string(), kind, time }
}

#[test]
fn test_default_make_order() {
    let time: i64 = 1_700_000_000;
    let sym = "test".to_string();

    let d = decision(&sym, DecisionKind::Hold, time);
    let mut m = FixedSizeOrderManager { size: 10 };
    assert!(matches!(m.make_order(&d, None), Ok(None)));

    let d = decision(&sym, DecisionKind::Buy, time);
    let ord = m.make_order(&d, None).expect("should be Ok").expect("should be Some");
    assert_eq!(ord.time, time);
    assert_eq!(ord.sym, sym);
    assert_eq!(ord.qty, 10);
    assert_eq!(ord.time, time);
    assert!(matches!(ord.kind, OrderKind::Market));
    assert!(matches!(ord.status, OrderStatus::Created));

    let d = decision(&sym, DecisionKind::Sell, time);
    let mut p = Position::default();
    p.qty = 10;
    let ord = m.make_order(&d, Some(&p)).unwrap().unwrap();
    assert_eq!(ord.time, time);
    assert_eq!(ord.sym, sym);
    assert_eq!(ord.qty, -10);
    assert_eq!(ord.time, time);
    assert!(matches!(ord.kind, OrderKind::Market));
}

#[test]
fn fixed_size_sell_clamps_to_held() {
    let mut m = FixedSizeOrderManager { size: 10 };
    let d = decision("test", DecisionKind::Sell, 0);
    let mut p = Position::default();
    p.qty = 3;
    let ord = m.make_order(&d, Some(&p)).unwrap().unwrap();
    assert_eq!(ord.qty, -3);

    // selling with nothing held makes no order (quantity zero)
    p.qty = 0;
    assert!(matches!(m.make_order(&d, Some(&p)), Ok(None)));
    assert!(matches!(m.make_order(&d, None), Ok(None)));
}

#[test]
fn fixed_size_close_flattens() {
    let mut m = FixedSizeOrderManager { size: 10 };
    let d = decision("test", DecisionKind::Close, 0);
    let mut p = Position::default();
    p.qty = 7;
    let ord = m.make_order(&d, Some(&p)).unwrap().unwrap();
    assert_eq!(ord.qty, -7);
}

#[test]
fn fixed_value_buy_sizes_by_latest_close() {
    let mut m = FixedValueOrderManager { val: 1_000 };
    let d = decision("test", DecisionKind::Buy, 0);

    let mut p = Position::default();
    p.latest_market_close = Some(9);
    // floor(1000 / 9) == 111
    let ord = m.make_order(&d, Some(&p)).unwrap().unwrap();
    assert_eq!(ord.qty, 111);

    // buying needs a price to size against
    p.latest_market_close = None;
    assert!(matches!(m.make_order(&d, Some(&p)), Err(ErrorRepr::NotExists)));
    assert!(matches!(m.make_order(&d, None), Err(ErrorRepr::NotExists)));

    let d = decision("test", DecisionKind::Sell, 0);
    p.qty = 42;
    let ord = m.make_order(&d, Some(&p)).unwrap().unwrap();
    assert_eq!(ord.qty, -42);
}

#[test]
fn order_expiry_flag() {
    let mut ord = Order {
        sym: "test".to_string(),
        kind: OrderKind::Market,
        qty: 1,
        time: 0,
        lifetime: None,
        status: OrderStatus::Created,
    };
    assert!(!ord.is_expired());
    ord.lifetime = Some(2);
    assert!(!ord.is_expired());
    ord.lifetime = Some(0);
    assert!(ord.is_expired());
}

#[test]
fn simple_manager_refuses_sell_before_buy() {
    let mut m = SimpleOrderManager { size: 10 };
    let d = decision("test", DecisionKind::Hold, 0);
    assert!(matches!(m.make_order(&d, None), Ok(None)));

    let d = decision("test", DecisionKind::Buy, 0);
    let ord = m.make_order(&d, None).unwrap().unwrap();
    assert_eq!(ord.qty, 10);

    let d = decision("test", DecisionKind::Sell, 0);
    assert!(matches!(m.make_order(&d, None), Err(ErrorRepr::OutOfBounds)));

    let mut p = Position::default();
    p.qty = 10;
    let ord = m.make_order(&d, Some(&p)).unwrap().unwrap();
    assert_eq!(ord.qty, -10);
    assert!(matches!(ord.kind, OrderKind::Market));
}
