//! The events that live in the simulation loop's two queues while one bar is
//! processed.

use vstd::prelude::*;
use crate::data::{Bar, BarV};
use crate::order::{Fill, FillV, Order, OrderV};
use crate::strategy::{Decision, DecisionV};

verus! {

/// Mathematical model of an event.
#[verifier::ext_equal]
pub ghost enum EventV {
    Market(BarV),
    Decision(DecisionV),
    Order(OrderV),
    Fill(FillV),
}

impl EventV {
    /// Events carried by the deferred queue hold capacity-respecting values.
    pub open spec fn wf(self) -> bool {
        match self {
            EventV::Market(b) => b.wf(),
            EventV::Decision(_) => true,
            EventV::Order(o) => o.wf(),
            EventV::Fill(f) => f.wf(),
        }
    }
}

/// One scheduled happening: a new bar, a strategy decision, an order to
/// execute, or a fill to apply.
#[derive(Debug)]
pub enum Event {
    Market(Bar),
    Decision(Decision),
    Order(Order),
    Fill(Fill),
}

impl View for Event {
    type V = EventV;

    open spec fn view(&self) -> EventV {
        match self {
            Event::Market(b) => EventV::Market(b@),
            Event::Decision(d) => EventV::Decision(d@),
            Event::Order(o) => EventV::Order(o@),
            Event::Fill(f) => EventV::Fill(f@),
        }
    }
}

} // verus!
