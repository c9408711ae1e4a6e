// The simulation loop and the fleet: ordering, one-bar lag, lifetime decay,
// determinism. Prices are scaled by 1000 (1.0 == 1000 units).

use backgambler::broker::SimulatedBroker;
use backgambler::data::Bar;
use backgambler::event::Event;
use backgambler::gambler::{Casino, EventHook, Gambler};
use backgambler::order::{Fill, FixedSizeOrderManager, Order, OrderKind, OrderStatus};
use backgambler::portfolio::SimplePortfolio;
use backgambler::strategy::{Decision, DecisionKind, DecisionMaker};

#[derive(Clone)]
struct TestStrategy {
    idx: i32,
}

impl DecisionMaker for TestStrategy {
    fn make_decision(&mut self, data: &Bar) -> Decision {
        self.idx += 1;
        Decision {
            time: data.time,
            sym: data.sym.clone(),
            kind: if self.idx % 2 == 1 {
                DecisionKind::Buy
            } else {
                DecisionKind::Sell
            },
        }
    }
}

struct PrintHook;

impl EventHook for PrintHook {
    fn on_event(&mut self, sym: &String, event: &Event) {
        println!(">>> ({}) event: {:?}", sym, event);
    }
}

fn build_bar(open: i64, close: i64, time: i64) -> Bar {
    Bar { sym: "test".into(), time, open, close, high: 0, low: 0, vol: 10_000 }
}

fn test_gambler_setup() -> Gambler<TestStrategy, FixedSizeOrderManager, PrintHook> {
    let portfolio = SimplePortfolio::new(10_000_000, FixedSizeOrderManager { size: 100 });
    let bars = vec![
        build_bar(5_000, 6_000, 1),
        build_bar(7_000, 8_000, 2),
        build_bar(1_000, 2_000, 3),
        build_bar(1_000, 2_000, 4),
    ];
    Gambler::new(
        "test".into(),
        TestStrategy { idx: 0 },
        bars,
        SimulatedBroker::new(1, 1000),
        portfolio,
    )
}

#[test]
fn test_gambler() {
    let mut g = test_gambler_setup();
    g.add_event_hook(PrintHook);
    assert!(g.run().is_ok());

    assert_eq!(g.portfolio.init_cash, 10_000_000);
    // 10000.0 - 700.0 + 100.0 - 100.0 - 0.9 == 9299.1, exactly in fixed point
    assert_eq!(g.portfolio.cash, 9_299_100);
}

#[test]
fn test_casino() {
    let mut g = test_gambler_setup();
    g.add_event_hook(PrintHook);

    let mut casino = Casino::new(vec![g]);
    assert!(casino.run().is_ok());

    let p = &casino.gamblers[0].portfolio;
    assert_eq!(p.init_cash, 10_000_000);
    assert_eq!(p.cash, 9_299_100);
}

#[test]
fn replaying_identical_bars_is_deterministic() {
    let mut g1 = test_gambler_setup();
    let mut g2 = test_gambler_setup();
    assert!(g1.run().is_ok());
    assert!(g2.run().is_ok());
    assert_eq!(g1.portfolio.cash, g2.portfolio.cash);
    assert_eq!(g1.portfolio.positions.len(), g2.portfolio.positions.len());
    for (a, b) in g1.portfolio.positions.iter().zip(g2.portfolio.positions.iter()) {
        assert_eq!(a.sym, b.sym);
        assert_eq!(a.qty, b.qty);
        assert_eq!(a.stats.pnl, b.stats.pnl);
        assert_eq!(a.stats.pnl_ratio, b.stats.pnl_ratio);
        assert_eq!(a.stats.transactions.len(), b.stats.transactions.len());
    }
}

/// Records every order notification the strategy receives.
struct RecordingStrategy {
    seen: Vec<(i64, OrderStatus)>,
    now: i64,
}

impl DecisionMaker for RecordingStrategy {
    fn make_decision(&mut self, data: &Bar) -> Decision {
        Decision { time: data.time, sym: data.sym.clone(), kind: DecisionKind::Hold }
    }

    fn on_data(&mut self, data: &Bar) {
        self.now = data.time;
    }

    fn on_order(&mut self, order: &Order) {
        self.seen.push((self.now, order.status));
    }
}

struct NoHook;

impl EventHook for NoHook {
    fn on_event(&mut self, _sym: &String, _event: &Event) {
    }
}

#[test]
fn unsatisfied_order_expires_after_lifetime_attempts() {
    let bars = vec![
        build_bar(5_000, 5_000, 1),
        build_bar(5_000, 5_000, 2),
        build_bar(5_000, 5_000, 3),
        build_bar(5_000, 5_000, 4),
    ];
    let portfolio = SimplePortfolio::new(1_000_000, FixedSizeOrderManager { size: 1 });
    let mut g: Gambler<RecordingStrategy, FixedSizeOrderManager, NoHook> = Gambler::new(
        "test".into(),
        RecordingStrategy { seen: Vec::new(), now: 0 },
        bars,
        SimulatedBroker::new(0, 1),
        portfolio,
    );
    // a limit buy far below every open, with two retries of lifetime budget:
    // evaluated (and unsatisfied) at bars 1 and 2, found expired at bar 3
    g.deferred_event_q.push_back(Event::Order(Order {
        sym: "test".into(),
        kind: OrderKind::Limit { limit: 1_000, stop: None },
        qty: 1,
        time: 0,
        lifetime: Some(2),
        status: OrderStatus::Created,
    }));
    assert!(g.run().is_ok());

    let expired: Vec<&(i64, OrderStatus)> =
        g.strategy.seen.iter().filter(|(_, st)| matches!(st, OrderStatus::Expired)).collect();
    assert_eq!(expired.len(), 1);
    assert_eq!(expired[0].0, 3);
    // nothing is retained once the order expired
    assert_eq!(g.unfulfilled_orders.len(), 0);
    assert_eq!(g.portfolio.cash, 1_000_000);
}

/// Sees every fill the moment it is handled, with the bar it happened on.
struct FillWatcher {
    fills: Vec<(i64, i32, i64)>,
    decisions_made: Vec<i64>,
    now: i64,
}

impl DecisionMaker for FillWatcher {
    fn make_decision(&mut self, data: &Bar) -> Decision {
        self.decisions_made.push(data.time);
        Decision { time: data.time, sym: data.sym.clone(), kind: DecisionKind::Buy }
    }

    fn on_data(&mut self, data: &Bar) {
        self.now = data.time;
    }

    fn on_fill(&mut self, fill: &Fill) {
        self.fills.push((self.now, fill.qty, fill.price));
    }
}

#[test]
fn decisions_execute_no_earlier_than_the_next_bar() {
    let bars = vec![
        build_bar(10, 10, 1),
        build_bar(20, 20, 2),
        build_bar(30, 30, 3),
    ];
    let portfolio = SimplePortfolio::new(1_000_000, FixedSizeOrderManager { size: 1 });
    let mut g: Gambler<FillWatcher, FixedSizeOrderManager, NoHook> = Gambler::new(
        "test".into(),
        FillWatcher { fills: Vec::new(), decisions_made: Vec::new(), now: 0 },
        bars,
        SimulatedBroker::new(0, 1),
        portfolio,
    );
    assert!(g.run().is_ok());

    assert_eq!(g.strategy.decisions_made, vec![1, 2, 3]);
    // each buy decided at bar T fills at bar T+1, at T+1's open price
    assert_eq!(g.strategy.fills, vec![(2, 1, 20), (3, 1, 30)]);
}
