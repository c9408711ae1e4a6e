//! Decisions and the decision-maker capability.

use vstd::prelude::*;
use crate::data::Bar;
use crate::order::{Fill, Order};

verus! {

/// A strategy's directional intent for one symbol at one time.
#[derive(Clone, Copy, Debug, PartialEq, Eq, Structural)]
pub enum DecisionKind {
    Hold,
    Buy,
    Sell,
    Close,
}

/// Mathematical model of a decision.
#[verifier::ext_equal]
pub ghost struct DecisionV {
    pub sym: Seq<char>,
    pub kind: DecisionKind,
    pub time: int,
}

/// The strategy's output for one bar: what to do about one symbol.
#[derive(Debug)]
pub struct Decision {
    pub sym: String,
    pub kind: DecisionKind,
    pub time: i64,
}

impl View for Decision {
    type V = DecisionV;

    open spec fn view(&self) -> DecisionV {
        DecisionV { sym: self.sym@, kind: self.kind, time: self.time as int }
    }
}

impl Clone for Decision {
    fn clone(&self) -> (r: Self)
        ensures
            r == *self,
    {
        Decision { sym: self.sym.clone(), kind: self.kind, time: self.time }
    }
}

/// The decision-making capability the simulation loop consumes. It is
/// external to the verified core: implementations are free Rust, and the
/// engine promises nothing about what they decide, only when they are
/// invoked.
pub trait DecisionMaker {
    /// Produce the decision for the bar just observed. Called once per bar,
    /// only after every deferred order of earlier bars has been settled.
    fn make_decision(&mut self, data: &Bar) -> Decision;

    /// Notification: a fill was applied to the portfolio.
    fn on_fill(&mut self, fill: &Fill) {
    }

    /// Notification: an order was created, completed or expired.
    fn on_order(&mut self, order: &Order) {
    }

    /// Notification: a new bar was absorbed, before deferred processing.
    fn on_data(&mut self, data: &Bar) {
    }
}

} // verus!
