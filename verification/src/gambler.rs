//! The simulation loop and the fleet runner.
//!
//! Per bar, the loop: absorbs the bar into the venue, marks the ledger to
//! market, settles every order deferred from earlier bars (applying resulting
//! fills immediately), and only then asks the strategy for today's decision,
//! whose order is queued for the next bar's deferred pass — a strict one-bar
//! lag between decision and earliest execution.

use vstd::prelude::*;
use crate::broker::{spec_exec_order, BrokerV, ExecOutcomeV, SimulatedBroker};
use crate::data::{Bar, BarV};
use crate::errors::ErrorRepr;
use crate::event::{Event, EventV};
use crate::order::{
    spec_decrement_lifetime, Fill, FillV, Order, OrderManager, OrderStatus, OrderV,
};
use crate::portfolio::{
    spec_portfolio_apply_fill, spec_portfolio_mark, spec_position_at, PortfolioV, SimplePortfolio,
};
use crate::strategy::{Decision, DecisionMaker, DecisionV};
use std::collections::VecDeque;

verus! {

/// An observer of engine events, invoked synchronously, inline, immediately
/// after each event is handled, in handling order. Hooks see events and
/// mutate only themselves; the engine promises nothing about their state.
pub trait EventHook {
    fn on_event(&mut self, sym: &String, event: &Event);
}

/// One executed order and the fill it produced.
#[verifier::ext_equal]
pub ghost struct ExecRecV {
    pub ord: OrderV,
    pub fill: FillV,
}

/// The deterministic core of one simulation loop: the venue, the ledger and
/// the two order stores that carry work across bars.
#[verifier::ext_equal]
pub ghost struct CoreV<M> {
    pub broker: BrokerV,
    pub portfolio: PortfolioV<M>,
    pub deferred: Seq<EventV>,
    pub unfulfilled: Seq<OrderV>,
}

impl<M: OrderManager> CoreV<M> {
    /// Venue, ledger and allocator well-formed; the deferred queue holds only
    /// well-formed order and fill events; pending retries are well-formed.
    pub open spec fn wf(self) -> bool {
        &&& self.broker.wf()
        &&& self.portfolio.wf()
        &&& self.portfolio.manager.wf()
        &&& forall|i: int|
            0 <= i < self.deferred.len() ==> (#[trigger] self.deferred[i]).wf() && (
            self.deferred[i] is Order || self.deferred[i] is Fill)
        &&& forall|i: int| 0 <= i < self.unfulfilled.len() ==> (#[trigger] self.unfulfilled[i]).wf()
    }
}

/// An unsatisfied order as it is retained for the next bar: its lifetime
/// budget decremented, saturating at zero.
pub open spec fn spec_retry_order(o: OrderV) -> OrderV {
    OrderV { lifetime: spec_decrement_lifetime(o.lifetime), ..o }
}

/// The termination measure of the deferred drain: an order event weighs two
/// (it may enqueue one fill), anything else one.
pub open spec fn event_weight(e: EventV) -> nat {
    match e {
        EventV::Order(_) => 2nat,
        _ => 1nat,
    }
}

/// The weight of a whole queue.
pub open spec fn drain_weight(q: Seq<EventV>) -> nat
    decreases q.len(),
{
    if q.len() == 0 {
        0
    } else {
        event_weight(q[0]) + drain_weight(q.drop_first())
    }
}

/// Appending an event adds its weight.
pub proof fn lemma_drain_weight_push(q: Seq<EventV>, e: EventV)
    ensures
        drain_weight(q.push(e)) == drain_weight(q) + event_weight(e),
    decreases q.len(),
{
    if q.len() == 0 {
        assert(q.push(e)[0] == e);
        assert(q.push(e).drop_first() =~= q);
    } else {
        assert(q.push(e)[0] == q[0]);
        assert(q.push(e).drop_first() =~= q.drop_first().push(e));
        lemma_drain_weight_push(q.drop_first(), e);
    }
}

/// What one deferred drain leaves behind: the venue and ledger after all
/// settlements, the unprocessed remainder of the queue (empty unless a fatal
/// error stopped the drain), the retries it accumulated, the executions it
/// logged, and the fatal error, if any.
#[verifier::ext_equal]
pub ghost struct DrainOutV<M> {
    pub broker: BrokerV,
    pub portfolio: PortfolioV<M>,
    pub rest: Seq<EventV>,
    pub retries: Seq<OrderV>,
    pub log: Seq<ExecRecV>,
    pub fatal: Option<ErrorRepr>,
}

/// The deferred queue fully drained, front to back: an order event attempts
/// execution at the venue — an unsatisfied one is retained with its lifetime
/// decremented, an expired one is dropped, an accepted one settles and its
/// fill is appended to this same queue; a fill event is applied to the
/// ledger (a rejection is recorded-and-skipped, as the loop recovers from
/// it); a fatal error stops the drain.
pub open spec fn spec_drain<M: OrderManager>(b: BrokerV, p: PortfolioV<M>, q: Seq<EventV>) -> DrainOutV<
    M,
>
    decreases drain_weight(q),
{
    if q.len() == 0 {
        DrainOutV {
            broker: b,
            portfolio: p,
            rest: q,
            retries: Seq::empty(),
            log: Seq::empty(),
            fatal: None,
        }
    } else {
        let rest = q.drop_first();
        match q[0] {
            EventV::Order(o) => match spec_exec_order(b, o, p.cash) {
                ExecOutcomeV::Rejected { err } => {
                    if err is NotSatisfied {
                        let sub = spec_drain(b, p, rest);
                        DrainOutV { retries: seq![spec_retry_order(o)] + sub.retries, ..sub }
                    } else if err is OrderExpired {
                        spec_drain(b, p, rest)
                    } else {
                        DrainOutV {
                            broker: b,
                            portfolio: p,
                            rest,
                            retries: Seq::empty(),
                            log: Seq::empty(),
                            fatal: Some(err),
                        }
                    }
                },
                ExecOutcomeV::Filled { fill, cash, position } => {
                    proof {
                        lemma_drain_weight_push(rest, EventV::Fill(fill));
                    }
                    let sub = spec_drain(
                        BrokerV { position, ..b },
                        PortfolioV { cash, ..p },
                        rest.push(EventV::Fill(fill)),
                    );
                    DrainOutV { log: seq![ExecRecV { ord: o, fill }] + sub.log, ..sub }
                },
            },
            EventV::Fill(f) => spec_drain(b, spec_portfolio_apply_fill(p, f).0, rest),
            _ => spec_drain(b, p, rest),
        }
    }
}

/// The deferred events a bar starts with: what the last decision queued,
/// then the unsatisfied orders retained from earlier bars (in the reversed
/// order the retained stack pops them).
pub open spec fn spec_pending_queue<M>(c: CoreV<M>) -> Seq<EventV> {
    c.deferred + c.unfulfilled.reverse().map_values(|o: OrderV| EventV::Order(o))
}

/// A bar absorbed and the deferred queue drained: the venue re-prices, the
/// ledger marks to market, then every pending order executes against this
/// bar's open.
pub open spec fn spec_absorb_drain<M: OrderManager>(c: CoreV<M>, bar: BarV) -> (
    CoreV<M>,
    Seq<ExecRecV>,
    Option<ErrorRepr>,
) {
    let q0 = spec_pending_queue(c);
    let b1 = BrokerV { latest: Some(bar), ..c.broker };
    match spec_portfolio_mark(c.portfolio, bar) {
        Err(e) => (
            CoreV { broker: b1, portfolio: c.portfolio, deferred: q0, unfulfilled: Seq::empty() },
            Seq::empty(),
            Some(e),
        ),
        Ok(p1) => {
            let dr = spec_drain(b1, p1, q0);
            (
                CoreV {
                    broker: dr.broker,
                    portfolio: dr.portfolio,
                    deferred: dr.rest,
                    unfulfilled: dr.retries,
                },
                dr.log,
                dr.fatal,
            )
        },
    }
}

/// Today's decision turned into at most one order, queued for the next
/// bar's deferred pass; an allocator error is surfaced as fatal.
pub open spec fn spec_place_decision<M: OrderManager>(c: CoreV<M>, d: DecisionV) -> (
    CoreV<M>,
    Option<ErrorRepr>,
) {
    match c.portfolio.manager.spec_make_order(d, spec_position_at(c.portfolio, d.sym)) {
        Err(e) => (c, Some(e)),
        Ok(None) => (c, None),
        Ok(Some(o)) => (
            CoreV { deferred: c.deferred.push(EventV::Order(o)), ..c },
            None,
        ),
    }
}

/// One bar processed to completion: absorb and drain, then — only after the
/// deferred queue is empty — place the day's decision.
pub open spec fn spec_process_bar<M: OrderManager>(c: CoreV<M>, bar: BarV, d: DecisionV) -> (
    CoreV<M>,
    Seq<ExecRecV>,
    Option<ErrorRepr>,
) {
    let (c1, log, f) = spec_absorb_drain(c, bar);
    if f is Some {
        (c1, log, f)
    } else {
        let (c2, f2) = spec_place_decision(c1, d);
        (c2, log, f2)
    }
}

/// What a whole run leaves behind.
#[verifier::ext_equal]
pub ghost struct RunOutV<M> {
    pub state: CoreV<M>,
    pub log: Seq<ExecRecV>,
    pub fatal: Option<ErrorRepr>,
}

/// The bars processed in order, consuming one decision per completed bar,
/// stopping at the first fatal error.
pub open spec fn spec_run<M: OrderManager>(c: CoreV<M>, bars: Seq<BarV>, ds: Seq<DecisionV>) -> RunOutV<
    M,
>
    decreases bars.len(),
{
    if bars.len() == 0 {
        RunOutV { state: c, log: Seq::empty(), fatal: None }
    } else {
        let (c1, log1, f1) = spec_process_bar(c, bars[0], ds[0]);
        if f1 is Some {
            RunOutV { state: c1, log: log1, fatal: f1 }
        } else {
            let rest = spec_run(c1, bars.drop_first(), ds.drop_first());
            RunOutV { state: rest.state, log: log1 + rest.log, fatal: rest.fatal }
        }
    }
}

/// One simulation loop: a symbol, the strategy capability, the venue, the
/// bar series and a cursor into it, the ledger, the two event queues, the
/// retained unsatisfied orders, and the observers.
pub struct Gambler<S, M, H> {
    pub sym: String,
    pub strategy: S,
    pub broker: SimulatedBroker,
    pub data: Vec<Bar>,
    pub cursor: usize,
    pub portfolio: SimplePortfolio<M>,
    pub event_q: VecDeque<Event>,
    pub deferred_event_q: VecDeque<Event>,
    pub unfulfilled_orders: Vec<Order>,
    pub event_hooks: Vec<H>,
    /// Every decision the strategy has produced, in order.
    pub decisions: Ghost<Seq<DecisionV>>,
    /// Every execution the venue has accepted, in order: the order as it was
    /// submitted and the fill it produced.
    pub exec_log: Ghost<Seq<ExecRecV>>,
}

impl<S: DecisionMaker, M: OrderManager, H: EventHook> Gambler<S, M, H> {
    /// The deterministic core this loop drives.
    pub open spec fn model(self) -> CoreV<M> {
        CoreV {
            broker: self.broker@,
            portfolio: self.portfolio@,
            deferred: self.deferred_event_q@.map_values(|e: Event| e@),
            unfulfilled: self.unfulfilled_orders@.map_values(|o: Order| o@),
        }
    }

    /// The bar series, as values.
    pub open spec fn bars(self) -> Seq<BarV> {
        self.data@.map_values(|b: Bar| b@)
    }

    /// Core well-formed, the cursor within the series, every bar
    /// well-formed, and the immediate queue empty between bars.
    pub open spec fn wf(self) -> bool {
        &&& self.model().wf()
        &&& self.cursor <= self.data@.len()
        &&& forall|i: int| 0 <= i < self.bars().len() ==> (#[trigger] self.bars()[i]).wf()
        &&& self.event_q@.len() == 0
    }

    /// A fresh loop over `data`, with empty queues and logs.
    pub fn new(
        sym: String,
        strategy: S,
        data: Vec<Bar>,
        broker: SimulatedBroker,
        portfolio: SimplePortfolio<M>,
    ) -> (r: Gambler<S, M, H>)
        requires
            broker@.wf(),
            portfolio@.wf(),
            portfolio@.manager.wf(),
            forall|i: int| 0 <= i < data@.len() ==> (#[trigger] data@[i]@).wf(),
        ensures
            r.wf(),
            r.sym == sym,
            r.strategy == strategy,
            r.broker == broker,
            r.data == data,
            r.cursor == 0,
            r.portfolio == portfolio,
            r.model() == (CoreV {
                broker: broker@,
                portfolio: portfolio@,
                deferred: Seq::<EventV>::empty(),
                unfulfilled: Seq::<OrderV>::empty(),
            }),
            r.decisions@ == Seq::<DecisionV>::empty(),
            r.exec_log@ == Seq::<ExecRecV>::empty(),
            r.event_hooks@.len() == 0,
    {
        let r = Gambler {
            sym,
            strategy,
            broker,
            data,
            cursor: 0,
            portfolio,
            event_q: VecDeque::new(),
            deferred_event_q: VecDeque::new(),
            unfulfilled_orders: Vec::new(),
            event_hooks: Vec::new(),
            decisions: Ghost(Seq::empty()),
            exec_log: Ghost(Seq::empty()),
        };
        proof {
            assert(r.model().deferred =~= Seq::<EventV>::empty());
            assert(r.model().unfulfilled =~= Seq::<OrderV>::empty());
            assert(r.model() =~= (CoreV {
                broker: r.broker@,
                portfolio: r.portfolio@,
                deferred: Seq::<EventV>::empty(),
                unfulfilled: Seq::<OrderV>::empty(),
            }));
        }
        r
    }

    /// Register an observer; it sees every event from now on.
    pub fn add_event_hook(&mut self, hook: H)
        ensures
            final(self).event_hooks@ == old(self).event_hooks@.push(hook),
            final(self).sym == old(self).sym,
            final(self).strategy == old(self).strategy,
            final(self).broker == old(self).broker,
            final(self).data == old(self).data,
            final(self).cursor == old(self).cursor,
            final(self).portfolio == old(self).portfolio,
            final(self).event_q == old(self).event_q,
            final(self).deferred_event_q == old(self).deferred_event_q,
            final(self).unfulfilled_orders == old(self).unfulfilled_orders,
            final(self).decisions == old(self).decisions,
            final(self).exec_log == old(self).exec_log,
    {
        self.event_hooks.push(hook);
    }

    /// Hand one event to every registered observer, in registration order.
    pub fn call_event_hook(&mut self, event: &Event)
        ensures
            final(self).sym == old(self).sym,
            final(self).strategy == old(self).strategy,
            final(self).broker == old(self).broker,
            final(self).data == old(self).data,
            final(self).cursor == old(self).cursor,
            final(self).portfolio == old(self).portfolio,
            final(self).event_q == old(self).event_q,
            final(self).deferred_event_q == old(self).deferred_event_q,
            final(self).unfulfilled_orders == old(self).unfulfilled_orders,
            final(self).decisions == old(self).decisions,
            final(self).exec_log == old(self).exec_log,
            final(self).event_hooks@.len() == old(self).event_hooks@.len(),
    {
        let n = self.event_hooks.len();
        let mut i: usize = 0;
        while i < n
            invariant
                n == self.event_hooks@.len(),
                i <= n,
                self.sym == old(self).sym,
                self.strategy == old(self).strategy,
                self.broker == old(self).broker,
                self.data == old(self).data,
                self.cursor == old(self).cursor,
                self.portfolio == old(self).portfolio,
                self.event_q == old(self).event_q,
                self.deferred_event_q == old(self).deferred_event_q,
                self.unfulfilled_orders == old(self).unfulfilled_orders,
                self.decisions == old(self).decisions,
                self.exec_log == old(self).exec_log,
            decreases n - i,
        {
            let hook = &mut self.event_hooks[i];
            hook.on_event(&self.sym, event);
            i = i + 1;
        }
    }

    /// Move every retained unsatisfied order into the deferred queue (the
    /// retained stack pops from the back, so they arrive reversed), giving
    /// them right of way at this bar's price before any new decision.
    #[verifier::loop_isolation(false)]
    fn enqueue_unfulfilled_orders(&mut self)
        ensures
            final(self).model() == (CoreV {
                deferred: spec_pending_queue(old(self).model()),
                unfulfilled: Seq::<OrderV>::empty(),
                ..old(self).model()
            }),
            final(self).sym == old(self).sym,
            final(self).strategy == old(self).strategy,
            final(self).broker == old(self).broker,
            final(self).data == old(self).data,
            final(self).cursor == old(self).cursor,
            final(self).portfolio == old(self).portfolio,
            final(self).event_q == old(self).event_q,
            final(self).event_hooks == old(self).event_hooks,
            final(self).decisions == old(self).decisions,
            final(self).exec_log == old(self).exec_log,
    {
        let ghost u0 = old(self).unfulfilled_orders@.map_values(|o: Order| o@);
        let ghost d0 = old(self).deferred_event_q@.map_values(|e: Event| e@);
        while self.unfulfilled_orders.len() > 0
            invariant
                self.sym == old(self).sym,
                self.strategy == old(self).strategy,
                self.broker == old(self).broker,
                self.data == old(self).data,
                self.cursor == old(self).cursor,
                self.portfolio == old(self).portfolio,
                self.event_q == old(self).event_q,
                self.event_hooks == old(self).event_hooks,
                self.decisions == old(self).decisions,
                self.exec_log == old(self).exec_log,
                u0 == old(self).unfulfilled_orders@.map_values(|o: Order| o@),
                self.unfulfilled_orders@.len() <= u0.len(),
                d0 == old(self).deferred_event_q@.map_values(|e: Event| e@),
                self.unfulfilled_orders@.map_values(|o: Order| o@) == u0.take(
                    self.unfulfilled_orders@.len() as int,
                ),
                self.deferred_event_q@.map_values(|e: Event| e@) == d0 + u0.skip(
                    self.unfulfilled_orders@.len() as int,
                ).reverse().map_values(|o: OrderV| EventV::Order(o)),
            decreases self.unfulfilled_orders@.len(),
        {
            let ghost n_before = self.unfulfilled_orders@.len() as int;
            let ghost pre_unf = self.unfulfilled_orders@;
            let ghost pre_def = self.deferred_event_q@;
            let ord = match self.unfulfilled_orders.pop() {
                Some(o) => o,
                None => {
                    return;
                },
            };
            self.deferred_event_q.push_back(Event::Order(ord));
            proof {
                let n_after = n_before - 1;
                assert(0 <= n_after < u0.len());
                assert(pre_unf.map_values(|o: Order| o@) == u0.take(n_before));
                assert(self.unfulfilled_orders@ == pre_unf.drop_last());
                assert(self.unfulfilled_orders@.map_values(|o: Order| o@) =~= u0.take(n_after));
                assert(pre_unf.map_values(|o: Order| o@)[n_after] == pre_unf[n_after]@);
                assert(ord@ == u0[n_after]);
                assert(u0.skip(n_after).reverse() =~= u0.skip(n_before).reverse() + seq![
                    u0[n_after],
                ]);
                assert(self.deferred_event_q@ == pre_def.push(Event::Order(ord)));
                assert(self.deferred_event_q@.map_values(|e: Event| e@) =~= pre_def.map_values(
                    |e: Event| e@,
                ).push(EventV::Order(ord@)));
                assert(self.deferred_event_q@.map_values(|e: Event| e@) =~= d0 + u0.skip(
                    n_after,
                ).reverse().map_values(|o: OrderV| EventV::Order(o)));
            }
        }
        proof {
            assert(self.unfulfilled_orders@.map_values(|o: Order| o@) =~= Seq::<OrderV>::empty());
            assert(u0.skip(0) =~= u0);
            assert(self.model() =~= (CoreV {
                deferred: spec_pending_queue(old(self).model()),
                unfulfilled: Seq::<OrderV>::empty(),
                ..old(self).model()
            }));
        }
    }

    /// Apply one fill to the ledger and notify the strategy on success; a
    /// rejected fill is skipped (the loop recovers from it).
    fn on_fill(&mut self, fill: &Fill)
        requires
            old(self).portfolio@.wf(),
            fill@.wf(),
        ensures
            final(self).portfolio@ == spec_portfolio_apply_fill(old(self).portfolio@, fill@).0,
            final(self).portfolio@.wf(),
            final(self).portfolio@.manager == old(self).portfolio@.manager,
            final(self).sym == old(self).sym,
            final(self).broker == old(self).broker,
            final(self).data == old(self).data,
            final(self).cursor == old(self).cursor,
            final(self).event_q == old(self).event_q,
            final(self).deferred_event_q == old(self).deferred_event_q,
            final(self).unfulfilled_orders == old(self).unfulfilled_orders,
            final(self).event_hooks == old(self).event_hooks,
            final(self).decisions == old(self).decisions,
            final(self).exec_log == old(self).exec_log,
    {
        let applied = self.portfolio.update_from_fill(fill);
        match applied {
            Ok(_) => {
                self.strategy.on_fill(fill);
            },
            Err(_) => {},
        }
    }

    /// Try one order at the venue: an unsatisfied order is retained with its
    /// lifetime decremented; an expired one is marked `Expired` and dropped
    /// (the strategy is told); an accepted one is marked `Completed`, its
    /// settlement is logged, and its fill joins the deferred queue; any
    /// other venue error is surfaced as fatal.
    fn on_order(&mut self, ord: &mut Order) -> (r: Result<(), ErrorRepr>)
        requires
            old(self).broker@.wf(),
            old(self).portfolio@.wf(),
            old(ord)@.wf(),
        ensures
            final(self).broker@.wf(),
            final(self).portfolio@.wf(),
            final(self).sym == old(self).sym,
            final(self).data == old(self).data,
            final(self).cursor == old(self).cursor,
            final(self).event_q == old(self).event_q,
            final(self).event_hooks@.len() == old(self).event_hooks@.len(),
            final(self).decisions == old(self).decisions,
            final(self).portfolio@.init_cash == old(self).portfolio@.init_cash,
            final(self).portfolio@.positions == old(self).portfolio@.positions,
            final(self).portfolio@.manager == old(self).portfolio@.manager,
            final(self).broker@.latest == old(self).broker@.latest,
            final(self).broker@.commission_num == old(self).broker@.commission_num,
            final(self).broker@.commission_den == old(self).broker@.commission_den,
            match spec_exec_order(old(self).broker@, old(ord)@, old(self).portfolio@.cash) {
                ExecOutcomeV::Rejected { err } => {
                    if err is NotSatisfied {
                        &&& r is Ok
                        &&& *final(ord) == *old(ord)
                        &&& final(self).broker@ == old(self).broker@
                        &&& final(self).portfolio@ == old(self).portfolio@
                        &&& final(self).deferred_event_q == old(self).deferred_event_q
                        &&& final(self).unfulfilled_orders@.map_values(|o: Order| o@) == old(
                            self,
                        ).unfulfilled_orders@.map_values(|o: Order| o@).push(
                            spec_retry_order(old(ord)@),
                        )
                        &&& final(self).exec_log == old(self).exec_log
                    } else if err is OrderExpired {
                        &&& r is Ok
                        &&& final(ord)@ == (OrderV { status: OrderStatus::Expired, ..old(ord)@ })
                        &&& final(self).broker@ == old(self).broker@
                        &&& final(self).portfolio@ == old(self).portfolio@
                        &&& final(self).deferred_event_q == old(self).deferred_event_q
                        &&& final(self).unfulfilled_orders == old(self).unfulfilled_orders
                        &&& final(self).exec_log == old(self).exec_log
                    } else {
                        &&& r == Err::<(), ErrorRepr>(err)
                        &&& *final(ord) == *old(ord)
                        &&& final(self).broker@ == old(self).broker@
                        &&& final(self).portfolio@ == old(self).portfolio@
                        &&& final(self).deferred_event_q == old(self).deferred_event_q
                        &&& final(self).unfulfilled_orders == old(self).unfulfilled_orders
                        &&& final(self).exec_log == old(self).exec_log
                    }
                },
                ExecOutcomeV::Filled { fill, cash, position } => {
                    &&& r is Ok
                    &&& fill.wf()
                    &&& final(ord)@ == (OrderV { status: OrderStatus::Completed, ..old(ord)@ })
                    &&& final(self).broker@ == (BrokerV { position, ..old(self).broker@ })
                    &&& final(self).portfolio@ == (PortfolioV { cash, ..old(self).portfolio@ })
                    &&& final(self).deferred_event_q@.map_values(|e: Event| e@) == old(
                        self,
                    ).deferred_event_q@.map_values(|e: Event| e@).push(EventV::Fill(fill))
                    &&& final(self).unfulfilled_orders == old(self).unfulfilled_orders
                    &&& final(self).exec_log@ == old(self).exec_log@.push(
                        ExecRecV { ord: old(ord)@, fill },
                    )
                },
            },
    {
        let ghost o0 = ord@;
        let outcome = self.broker.exec_order(ord, &mut self.portfolio);
        match outcome {
            Ok(fill) => {
                ord.status = OrderStatus::Completed;
                self.strategy.on_order(ord);
                proof {
                    assert(self.portfolio@ =~= (PortfolioV {
                        cash: self.portfolio@.cash,
                        ..old(self).portfolio@
                    }));
                }
                self.exec_log = Ghost(self.exec_log@.push(ExecRecV { ord: o0, fill: fill@ }));
                self.deferred_event_q.push_back(Event::Fill(fill));
                Ok(())
            },
            Err(e) => {
                if matches!(e, ErrorRepr::NotSatisfied) {
                    let mut retry = ord.clone();
                    retry.lifetime = match retry.lifetime {
                        Some(l) => Some(if l >= 1 {
                            l - 1
                        } else {
                            0
                        }),
                        None => None,
                    };
                    proof {
                        assert(retry@ =~= spec_retry_order(o0));
                    }
                    self.unfulfilled_orders.push(retry);
                    Ok(())
                } else if matches!(e, ErrorRepr::OrderExpired) {
                    ord.status = OrderStatus::Expired;
                    self.strategy.on_order(ord);
                    Ok(())
                } else {
                    Err(e)
                }
            },
        }
    }

    /// Turn a decision into at most one order via the allocator; a created
    /// order (the strategy is told) joins the deferred queue, to execute no
    /// earlier than the next bar. An allocator error is surfaced as fatal.
    fn on_decision(&mut self, decision: &Decision) -> (r: Result<(), ErrorRepr>)
        requires
            old(self).portfolio@.wf(),
            old(self).portfolio@.manager.wf(),
        ensures
            final(self).portfolio@ == old(self).portfolio@,
            final(self).sym == old(self).sym,
            final(self).broker == old(self).broker,
            final(self).data == old(self).data,
            final(self).cursor == old(self).cursor,
            final(self).event_q == old(self).event_q,
            final(self).unfulfilled_orders == old(self).unfulfilled_orders,
            final(self).event_hooks@.len() == old(self).event_hooks@.len(),
            final(self).decisions == old(self).decisions,
            final(self).exec_log == old(self).exec_log,
            ({
                let (c2, f) = spec_place_decision(old(self).model(), decision@);
                &&& final(self).model() == c2
                &&& match f {
                    Some(e) => r == Err::<(), ErrorRepr>(e),
                    None => r is Ok,
                }
            }),
            ({
                let df0 = old(self).model().deferred;
                let df1 = final(self).model().deferred;
                (forall|i: int|
                    0 <= i < df0.len() ==> (#[trigger] df0[i]).wf() && (df0[i] is Order
                        || df0[i] is Fill)) ==> (forall|i: int|
                    0 <= i < df1.len() ==> (#[trigger] df1[i]).wf() && (df1[i] is Order
                        || df1[i] is Fill))
            }),
    {
        let opt = match self.portfolio.allocate_order(decision) {
            Ok(o) => o,
            Err(e) => {
                proof {
                    assert(self.model() =~= old(self).model());
                }
                return Err(e);
            },
        };
        match opt {
            Some(new_ord) => {
                self.strategy.on_order(&new_ord);
                self.deferred_event_q.push_back(Event::Order(new_ord));
                proof {
                    assert(self.model().deferred =~= old(self).model().deferred.push(
                        self.deferred_event_q@.last()@,
                    ));
                    assert(self.model() =~= (CoreV {
                        deferred: old(self).model().deferred.push(
                            self.deferred_event_q@.last()@,
                        ),
                        ..old(self).model()
                    }));
                }
                Ok(())
            },
            None => {
                proof {
                    assert(self.model() =~= old(self).model());
                }
                Ok(())
            },
        }
    }

    /// Fully drain the deferred queue against the current bar: orders
    /// attempt execution at today's price, their fills are applied to the
    /// ledger in the same pass, unsatisfied orders are retained for the next
    /// bar, and every handled event is handed to the observers.
    fn drain_deferred(&mut self) -> (r: Result<(), ErrorRepr>)
        requires
            old(self).broker@.wf(),
            old(self).portfolio@.wf(),
            old(self).portfolio@.manager.wf(),
            ({
                let df = old(self).model().deferred;
                forall|i: int|
                    0 <= i < df.len() ==> (#[trigger] df[i]).wf() && (df[i] is Order
                        || df[i] is Fill)
            }),
            ({
                let uf = old(self).model().unfulfilled;
                forall|i: int| 0 <= i < uf.len() ==> (#[trigger] uf[i]).wf()
            }),
        ensures
            final(self).sym == old(self).sym,
            final(self).data == old(self).data,
            final(self).cursor == old(self).cursor,
            final(self).event_q == old(self).event_q,
            final(self).decisions == old(self).decisions,
            final(self).broker@.wf(),
            final(self).portfolio@.wf(),
            final(self).portfolio@.manager == old(self).portfolio@.manager,
            final(self).broker@.latest == old(self).broker@.latest,
            final(self).broker@.commission_num == old(self).broker@.commission_num,
            final(self).broker@.commission_den == old(self).broker@.commission_den,
            ({
                let df = final(self).model().deferred;
                forall|i: int|
                    0 <= i < df.len() ==> (#[trigger] df[i]).wf() && (df[i] is Order
                        || df[i] is Fill)
            }),
            ({
                let uf = final(self).model().unfulfilled;
                forall|i: int| 0 <= i < uf.len() ==> (#[trigger] uf[i]).wf()
            }),
            ({
                let out = spec_drain(
                    old(self).broker@,
                    old(self).portfolio@,
                    old(self).model().deferred,
                );
                &&& final(self).broker@ == out.broker
                &&& final(self).portfolio@ == out.portfolio
                &&& final(self).model().deferred == out.rest
                &&& final(self).model().unfulfilled == old(self).model().unfulfilled
                    + out.retries
                &&& final(self).exec_log@ == old(self).exec_log@ + out.log
                &&& match out.fatal {
                    Some(e) => r == Err::<(), ErrorRepr>(e),
                    None => r is Ok && final(self).deferred_event_q@.len() == 0,
                }
            }),
    {
        let ghost b0 = old(self).broker@;
        let ghost p0 = old(self).portfolio@;
        let ghost q0 = old(self).model().deferred;
        let ghost u0 = old(self).model().unfulfilled;
        let ghost l0 = old(self).exec_log@;
        proof {
            assert(u0 + spec_drain(b0, p0, q0).retries =~= self.model().unfulfilled + spec_drain(
                self.broker@,
                self.portfolio@,
                self.model().deferred,
            ).retries);
            assert(l0 + spec_drain(b0, p0, q0).log =~= self.exec_log@ + spec_drain(
                self.broker@,
                self.portfolio@,
                self.model().deferred,
            ).log);
        }
        loop
            invariant
                self.sym == old(self).sym,
                self.data == old(self).data,
                self.cursor == old(self).cursor,
                self.event_q == old(self).event_q,
                self.decisions == old(self).decisions,
                b0 == old(self).broker@,
                p0 == old(self).portfolio@,
                q0 == old(self).model().deferred,
                u0 == old(self).model().unfulfilled,
                l0 == old(self).exec_log@,
                self.broker@.wf(),
                self.portfolio@.wf(),
                self.portfolio@.manager == p0.manager,
                self.broker@.latest == b0.latest,
                self.broker@.commission_num == b0.commission_num,
                self.broker@.commission_den == b0.commission_den,
                ({
                    let df = self.model().deferred;
                    forall|i: int|
                        0 <= i < df.len() ==> (#[trigger] df[i]).wf() && (df[i] is Order
                            || df[i] is Fill)
                }),
                ({
                    let uf = self.model().unfulfilled;
                    forall|i: int| 0 <= i < uf.len() ==> (#[trigger] uf[i]).wf()
                }),
                ({
                    let full = spec_drain(b0, p0, q0);
                    let sub = spec_drain(self.broker@, self.portfolio@, self.model().deferred);
                    &&& full.broker == sub.broker
                    &&& full.portfolio == sub.portfolio
                    &&& full.rest == sub.rest
                    &&& full.fatal == sub.fatal
                    &&& u0 + full.retries == self.model().unfulfilled + sub.retries
                    &&& l0 + full.log == self.exec_log@ + sub.log
                }),
            ensures
                self.deferred_event_q@.len() == 0,
                self.sym == old(self).sym,
                self.data == old(self).data,
                self.cursor == old(self).cursor,
                self.event_q == old(self).event_q,
                self.decisions == old(self).decisions,
                self.broker@.wf(),
                self.portfolio@.wf(),
                self.portfolio@.manager == p0.manager,
                self.broker@.latest == b0.latest,
                self.broker@.commission_num == b0.commission_num,
                self.broker@.commission_den == b0.commission_den,
                ({
                    let uf = self.model().unfulfilled;
                    forall|i: int| 0 <= i < uf.len() ==> (#[trigger] uf[i]).wf()
                }),
                ({
                    let full = spec_drain(b0, p0, q0);
                    let sub = spec_drain(self.broker@, self.portfolio@, self.model().deferred);
                    &&& full.broker == sub.broker
                    &&& full.portfolio == sub.portfolio
                    &&& full.rest == sub.rest
                    &&& full.fatal == sub.fatal
                    &&& u0 + full.retries == self.model().unfulfilled + sub.retries
                    &&& l0 + full.log == self.exec_log@ + sub.log
                }),
            decreases drain_weight(self.deferred_event_q@.map_values(|e: Event| e@)),
        {
            if self.deferred_event_q.len() == 0 {
                break;
            }
            let ghost qcur = self.deferred_event_q@.map_values(|e: Event| e@);
            let ghost bpre = self.broker@;
            let ghost ppre = self.portfolio@;
            let ghost upre = self.model().unfulfilled;
            let ghost lpre = self.exec_log@;
            let popped = self.deferred_event_q.pop_front();
            let mut evt = match popped {
                Some(e) => e,
                None => {
                    break ;
                },
            };
            proof {
                assert(evt@ == qcur[0]);
                assert(self.deferred_event_q@.map_values(|e: Event| e@) =~= qcur.drop_first());
            }
            match &mut evt {
                Event::Order(ord) => {
                    let ghost o = ord@;
                    let step = self.on_order(ord);
                    proof {
                        let outc = spec_exec_order(bpre, o, ppre.cash);
                        let subcur = spec_drain(bpre, ppre, qcur);
                        let rest = qcur.drop_first();
                        match outc {
                            ExecOutcomeV::Rejected { err } => {
                                if err is NotSatisfied {
                                    let rr = spec_retry_order(o);
                                    let subnew = spec_drain(bpre, ppre, rest);
                                    assert(subcur =~= (DrainOutV {
                                        retries: seq![rr] + subnew.retries,
                                        ..subnew
                                    }));
                                    assert(self.model().unfulfilled =~= upre.push(rr));
                                    assert(upre + (seq![rr] + subnew.retries) =~= upre.push(rr)
                                        + subnew.retries);
                                } else if err is OrderExpired {
                                    assert(subcur =~= spec_drain(bpre, ppre, rest));
                                } else {
                                }
                            },
                            ExecOutcomeV::Filled { fill, cash, position } => {
                                let bnew = BrokerV { position, ..bpre };
                                let pnew = PortfolioV { cash, ..ppre };
                                let subnew = spec_drain(bnew, pnew, rest.push(EventV::Fill(fill)));
                                let rec = ExecRecV { ord: o, fill };
                                lemma_drain_weight_push(rest, EventV::Fill(fill));
                                assert(subcur =~= (DrainOutV {
                                    log: seq![rec] + subnew.log,
                                    ..subnew
                                }));
                                assert(self.broker@ =~= bnew);
                                assert(self.portfolio@ =~= pnew);
                                assert(self.model().deferred =~= rest.push(EventV::Fill(fill)));
                                assert(self.exec_log@ =~= lpre.push(rec));
                                assert(lpre + (seq![rec] + subnew.log) =~= lpre.push(rec)
                                    + subnew.log);
                            },
                        }
                    }
                    match step {
                        Err(e) => {
                            proof {
                                let subcur = spec_drain(bpre, ppre, qcur);
                                assert(u0 + spec_drain(b0, p0, q0).retries =~= self.model().unfulfilled);
                                assert(l0 + spec_drain(b0, p0, q0).log =~= self.exec_log@);
                            }
                            return Err(e);
                        },
                        Ok(_) => {},
                    }
                },
                Event::Fill(fill) => {
                    self.on_fill(fill);
                    proof {
                        let subcur = spec_drain(bpre, ppre, qcur);
                        assert(subcur =~= spec_drain(
                            bpre,
                            spec_portfolio_apply_fill(ppre, qcur[0]->Fill_0).0,
                            qcur.drop_first(),
                        ));
                    }
                },
                _ => {
                },
            }
            self.call_event_hook(&evt);
        }
        proof {
            assert(self.model().deferred =~= Seq::<EventV>::empty());
            let full = spec_drain(b0, p0, q0);
            let sub = spec_drain(self.broker@, self.portfolio@, self.model().deferred);
            assert(sub.retries =~= Seq::<OrderV>::empty());
            assert(sub.log =~= Seq::<ExecRecV>::empty());
            assert(self.model().unfulfilled =~= u0 + full.retries);
            assert(self.exec_log@ =~= l0 + full.log);
        }
        Ok(())
    }

    /// What a completed `run` guarantees: the loop consumed the bar series
    /// from the cursor on, recorded one decision per completed bar, and left
    /// the core exactly where replaying those bars and decisions through the
    /// model puts it — with the first fatal error, if any, surfaced.
    pub open spec fn spec_run_post(g0: Self, g1: Self, r: Result<(), ErrorRepr>) -> bool {
        let ds = g1.decisions@.skip(g0.decisions@.len() as int);
        let out = spec_run(g0.model(), g0.bars().skip(g0.cursor as int), ds);
        &&& g1.wf()
        &&& g1.sym == g0.sym
        &&& g1.data == g0.data
        &&& g1.decisions@.len() >= g0.decisions@.len()
        &&& g1.decisions@.take(g0.decisions@.len() as int) == g0.decisions@
        &&& g1.model() == out.state
        &&& g1.exec_log@ == g0.exec_log@ + out.log
        &&& match out.fatal {
            Some(e) => r == Err::<(), ErrorRepr>(e),
            None => r is Ok && g1.cursor == g1.data@.len(),
        }
    }

    /// Drive the loop over the remaining bars. Each bar: enqueue the market
    /// event; give retained orders right of way; absorb the bar into the
    /// venue and the ledger; drain the deferred queue at today's open; only
    /// then ask the strategy for today's decision and queue its order for
    /// the next bar. The immediate queue holds exactly the market event and
    /// then the day's decision; observers see both, in handling order. The
    /// first fatal error stops the run and is returned.
    pub fn run(&mut self) -> (r: Result<(), ErrorRepr>)
        requires
            old(self).wf(),
        ensures
            Self::spec_run_post(*old(self), *final(self), r),
    {
        proof {
            assert(self.decisions@.take(old(self).decisions@.len() as int) =~= old(
                self,
            ).decisions@);
            assert(self.decisions@.skip(old(self).decisions@.len() as int)
                =~= Seq::<DecisionV>::empty());
            assert(old(self).bars().subrange(old(self).cursor as int, old(self).cursor as int)
                =~= Seq::<BarV>::empty());
            assert(self.exec_log@ =~= old(self).exec_log@ + Seq::<ExecRecV>::empty());
        }
        while self.cursor < self.data.len()
            invariant
                self.wf(),
                self.sym == old(self).sym,
                self.data == old(self).data,
                old(self).cursor <= self.cursor <= self.data@.len(),
                self.decisions@.len() >= old(self).decisions@.len(),
                self.decisions@.take(old(self).decisions@.len() as int) == old(self).decisions@,
                ({
                    let ds = self.decisions@.skip(old(self).decisions@.len() as int);
                    let done = old(self).bars().subrange(
                        old(self).cursor as int,
                        self.cursor as int,
                    );
                    let out = spec_run(old(self).model(), done, ds);
                    &&& ds.len() == self.cursor - old(self).cursor
                    &&& out.fatal is None
                    &&& out.state == self.model()
                    &&& self.exec_log@ == old(self).exec_log@ + out.log
                }),
            decreases self.data@.len() - self.cursor,
        {
            let ghost c_pre = self.model();
            let ghost ds_pre = self.decisions@.skip(old(self).decisions@.len() as int);
            let ghost done_pre = old(self).bars().subrange(
                old(self).cursor as int,
                self.cursor as int,
            );
            let ghost bar_v = self.bars()[self.cursor as int];
            let bar = self.data[self.cursor].clone();
            self.cursor = self.cursor + 1;
            self.event_q.push_back(Event::Market(bar));
            self.enqueue_unfulfilled_orders();
            proof {
                lemma_pending_queue_wf(c_pre);
            }
            let popped = self.event_q.pop_front();
            proof {
                assert(popped matches Some(e) && e@ == EventV::Market(bar_v));
            }
            let evt = match popped {
                Some(e) => e,
                // unreachable: the market event was just queued
                None => {
                    return Err(ErrorRepr::Fatal);
                },
            };
            let bar_ref = match &evt {
                Event::Market(b) => b,
                // unreachable: the immediate queue held exactly the market event
                _ => {
                    return Err(ErrorRepr::Fatal);
                },
            };
            self.broker.set_lastest_bar(bar_ref);
            let marked = self.portfolio.update_from_market(bar_ref);
            match marked {
                Err(e) => {
                    proof {
                        assert(spec_absorb_drain(c_pre, bar_v).2 == Some(e));
                        assert(self.model() =~= spec_absorb_drain(c_pre, bar_v).0);
                        lemma_spec_run_snoc_nodecision(
                            old(self).model(),
                            done_pre,
                            ds_pre,
                            bar_v,
                        );
                        assert(old(self).bars().subrange(
                            old(self).cursor as int,
                            self.cursor as int,
                        ) =~= done_pre.push(bar_v));
                        assert(self.exec_log@ =~= old(self).exec_log@ + spec_run(
                            old(self).model(),
                            done_pre.push(bar_v),
                            ds_pre,
                        ).log);
                        assert(old(self).bars().skip(old(self).cursor as int) =~= done_pre.push(
                            bar_v,
                        ) + old(self).bars().skip(self.cursor as int));
                        assert(self.decisions@.skip(old(self).decisions@.len() as int)
                            =~= ds_pre);
                        lemma_spec_run_stops_at_fatal(
                            old(self).model(),
                            done_pre.push(bar_v),
                            old(self).bars().skip(self.cursor as int),
                            ds_pre,
                        );
                    }
                    return Err(e);
                },
                Ok(_) => {},
            }
            self.strategy.on_data(bar_ref);
            let drained = self.drain_deferred();
            proof {
                assert(self.model() =~= spec_absorb_drain(c_pre, bar_v).0);
            }
            match drained {
                Err(e) => {
                    proof {
                        assert(spec_absorb_drain(c_pre, bar_v).2 == Some(e));
                        lemma_spec_run_snoc_nodecision(
                            old(self).model(),
                            done_pre,
                            ds_pre,
                            bar_v,
                        );
                        assert(old(self).bars().subrange(
                            old(self).cursor as int,
                            self.cursor as int,
                        ) =~= done_pre.push(bar_v));
                        assert(self.exec_log@ =~= old(self).exec_log@ + spec_run(
                            old(self).model(),
                            done_pre.push(bar_v),
                            ds_pre,
                        ).log);
                        assert(old(self).bars().skip(old(self).cursor as int) =~= done_pre.push(
                            bar_v,
                        ) + old(self).bars().skip(self.cursor as int));
                        assert(self.decisions@.skip(old(self).decisions@.len() as int)
                            =~= ds_pre);
                        lemma_spec_run_stops_at_fatal(
                            old(self).model(),
                            done_pre.push(bar_v),
                            old(self).bars().skip(self.cursor as int),
                            ds_pre,
                        );
                    }
                    return Err(e);
                },
                Ok(_) => {},
            }
            let decision = self.strategy.make_decision(bar_ref);
            proof {
                self.decisions@ = self.decisions@.push(decision@);
            }
            self.event_q.push_back(Event::Decision(decision));
            self.call_event_hook(&evt);
            let popped2 = self.event_q.pop_front();
            proof {
                assert(popped2 matches Some(e) && e@ is Decision);
            }
            let evt2 = match popped2 {
                Some(e) => e,
                // unreachable: the decision event was just queued
                None => {
                    return Err(ErrorRepr::Fatal);
                },
            };
            let ghost c_mid = self.model();
            let ghost d_v = self.decisions@.last();
            match &evt2 {
                Event::Decision(dref) => {
                    let placed = self.on_decision(dref);
                    proof {
                        assert(spec_process_bar(c_pre, bar_v, d_v).0 =~= self.model());
                        lemma_spec_run_snoc(old(self).model(), done_pre, ds_pre, bar_v, d_v);
                        assert(old(self).bars().subrange(
                            old(self).cursor as int,
                            self.cursor as int,
                        ) =~= done_pre.push(bar_v));
                        assert(self.decisions@.skip(old(self).decisions@.len() as int)
                            =~= ds_pre.push(d_v));
                        assert(self.decisions@.take(old(self).decisions@.len() as int)
                            =~= old(self).decisions@);
                        assert(self.exec_log@ =~= old(self).exec_log@ + spec_run(
                            old(self).model(),
                            done_pre.push(bar_v),
                            ds_pre.push(d_v),
                        ).log);
                    }
                    match placed {
                        Err(e) => {
                            proof {
                                assert(old(self).bars().skip(old(self).cursor as int)
                                    =~= done_pre.push(bar_v) + old(self).bars().skip(
                                    self.cursor as int,
                                ));
                                lemma_spec_run_stops_at_fatal(
                                    old(self).model(),
                                    done_pre.push(bar_v),
                                    old(self).bars().skip(self.cursor as int),
                                    ds_pre.push(d_v),
                                );
                            }
                            return Err(e);
                        },
                        Ok(_) => {},
                    }
                },
                // unreachable: the immediate queue held exactly the decision
                _ => {
                    return Err(ErrorRepr::Fatal);
                },
            }
            self.call_event_hook(&evt2);
        }
        proof {
            assert(old(self).bars().subrange(old(self).cursor as int, self.cursor as int)
                =~= old(self).bars().skip(old(self).cursor as int));
        }
        Ok(())
    }
}

/// A run that ends fatally ignores any bars after the fatal bar.
proof fn lemma_spec_run_stops_at_fatal<M: OrderManager>(
    c: CoreV<M>,
    done: Seq<BarV>,
    later: Seq<BarV>,
    ds: Seq<DecisionV>,
)
    requires
        spec_run(c, done, ds).fatal is Some,
    ensures
        spec_run(c, done + later, ds) == spec_run(c, done, ds),
    decreases done.len(),
{
    if done.len() == 0 {
    } else {
        assert((done + later)[0] == done[0]);
        assert((done + later).drop_first() =~= done.drop_first() + later);
        let (c1, log1, f1) = spec_process_bar(c, done[0], ds[0]);
        if f1 is None {
            lemma_spec_run_stops_at_fatal(c1, done.drop_first(), later, ds.drop_first());
            assert(spec_run(c, done + later, ds) =~= spec_run(c, done, ds));
        }
    }
}

/// Every event the pending queue of a well-formed core starts a bar with is
/// a well-formed order or fill event.
proof fn lemma_pending_queue_wf<M: OrderManager>(c: CoreV<M>)
    requires
        c.wf(),
    ensures
        ({
            let q = spec_pending_queue(c);
            forall|i: int|
                0 <= i < q.len() ==> (#[trigger] q[i]).wf() && (q[i] is Order || q[i] is Fill)
        }),
{
    let q = spec_pending_queue(c);
    let tail = c.unfulfilled.reverse().map_values(|o: OrderV| EventV::Order(o));
    assert forall|i: int| 0 <= i < q.len() implies (#[trigger] q[i]).wf() && (q[i] is Order
        || q[i] is Fill) by {
        if i < c.deferred.len() {
            assert(q[i] == c.deferred[i]);
        } else {
            let j = i - c.deferred.len();
            assert(q[i] == tail[j]);
            assert(tail[j] == EventV::Order(c.unfulfilled.reverse()[j]));
            assert(c.unfulfilled.reverse()[j] == c.unfulfilled[c.unfulfilled.len() - 1 - j]);
        }
    }
}

/// Extending a fatal-free run by one bar appends that bar's processing, the
/// bar consuming one more decision.
proof fn lemma_spec_run_snoc<M: OrderManager>(
    c: CoreV<M>,
    bars: Seq<BarV>,
    ds: Seq<DecisionV>,
    b: BarV,
    d: DecisionV,
)
    requires
        ds.len() == bars.len(),
        spec_run(c, bars, ds).fatal is None,
    ensures
        ({
            let r = spec_run(c, bars, ds);
            let (c2, lg, f) = spec_process_bar(r.state, b, d);
            spec_run(c, bars.push(b), ds.push(d)) == (RunOutV {
                state: c2,
                log: r.log + lg,
                fatal: f,
            })
        }),
    decreases bars.len(),
{
    let r = spec_run(c, bars, ds);
    let (c2, lg, f) = spec_process_bar(r.state, b, d);
    if bars.len() == 0 {
        reveal_with_fuel(spec_run, 3);
        assert(bars.push(b)[0] == b);
        assert(ds.push(d)[0] == d);
        assert(bars.push(b).drop_first() =~= Seq::<BarV>::empty());
        assert(ds.push(d).drop_first() =~= Seq::<DecisionV>::empty());
        assert(r.state == c && r.log =~= Seq::<ExecRecV>::empty());
        if f is None {
            assert(Seq::<ExecRecV>::empty() + lg =~= lg);
            assert(spec_run(c, bars.push(b), ds.push(d)).log =~= lg + Seq::<ExecRecV>::empty());
            assert(lg + Seq::<ExecRecV>::empty() =~= lg);
            assert(spec_run(c, bars.push(b), ds.push(d)) =~= (RunOutV {
                state: c2,
                log: r.log + lg,
                fatal: f,
            }));
        } else {
            assert(Seq::<ExecRecV>::empty() + lg =~= lg);
            assert(spec_run(c, bars.push(b), ds.push(d)) =~= (RunOutV {
                state: c2,
                log: r.log + lg,
                fatal: f,
            }));
        }
    } else {
        assert(bars.push(b)[0] == bars[0]);
        assert(ds.push(d)[0] == ds[0]);
        assert(bars.push(b).drop_first() =~= bars.drop_first().push(b));
        assert(ds.push(d).drop_first() =~= ds.drop_first().push(d));
        let (c1, log1, f1) = spec_process_bar(c, bars[0], ds[0]);
        assert(f1 is None);
        let rsub = spec_run(c1, bars.drop_first(), ds.drop_first());
        lemma_spec_run_snoc(c1, bars.drop_first(), ds.drop_first(), b, d);
        let (c2x, lgx, fx) = spec_process_bar(rsub.state, b, d);
        assert(rsub.state == r.state && log1 + rsub.log =~= r.log);
        assert((log1 + rsub.log) + lgx =~= log1 + (rsub.log + lgx));
        assert(spec_run(c, bars.push(b), ds.push(d)) =~= (RunOutV {
            state: c2,
            log: r.log + lg,
            fatal: f,
        }));
    }
}

/// Extending a fatal-free run by one bar whose absorb-and-drain phase fails:
/// the run stops there, and no decision is consumed.
proof fn lemma_spec_run_snoc_nodecision<M: OrderManager>(
    c: CoreV<M>,
    bars: Seq<BarV>,
    ds: Seq<DecisionV>,
    b: BarV,
)
    requires
        ds.len() == bars.len(),
        spec_run(c, bars, ds).fatal is None,
        spec_absorb_drain(spec_run(c, bars, ds).state, b).2 is Some,
    ensures
        ({
            let r = spec_run(c, bars, ds);
            let (c1, lg, f) = spec_absorb_drain(r.state, b);
            spec_run(c, bars.push(b), ds) == (RunOutV { state: c1, log: r.log + lg, fatal: f })
        }),
    decreases bars.len(),
{
    let r = spec_run(c, bars, ds);
    let (c1, lg, f) = spec_absorb_drain(r.state, b);
    if bars.len() == 0 {
        reveal_with_fuel(spec_run, 3);
        assert(bars.push(b)[0] == b);
        assert(r.state == c && r.log =~= Seq::<ExecRecV>::empty());
        assert(Seq::<ExecRecV>::empty() + lg =~= lg);
        assert(spec_run(c, bars.push(b), ds) =~= (RunOutV {
            state: c1,
            log: r.log + lg,
            fatal: f,
        }));
    } else {
        assert(bars.push(b)[0] == bars[0]);
        assert(bars.push(b).drop_first() =~= bars.drop_first().push(b));
        let (cx, log1, f1) = spec_process_bar(c, bars[0], ds[0]);
        assert(f1 is None);
        let rsub = spec_run(cx, bars.drop_first(), ds.drop_first());
        lemma_spec_run_snoc_nodecision(cx, bars.drop_first(), ds.drop_first(), b);
        assert(rsub.state == r.state && log1 + rsub.log =~= r.log);
        let (c1x, lgx, fx) = spec_absorb_drain(rsub.state, b);
        assert((log1 + rsub.log) + lgx =~= log1 + (rsub.log + lgx));
        assert(spec_run(c, bars.push(b), ds) =~= (RunOutV {
            state: c1,
            log: r.log + lg,
            fatal: f,
        }));
    }
}

/// Orders executed by a drain all come from its input queue, and every fill
/// settles at the absorbed bar's open price and time.
proof fn lemma_drain_no_look_ahead<M: OrderManager>(b: BrokerV, p: PortfolioV<M>, q: Seq<EventV>)
    requires
        b.latest is Some,
    ensures
        ({
            let out = spec_drain(b, p, q);
            &&& forall|k: int|
                0 <= k < out.log.len() ==> q.contains(EventV::Order(#[trigger] out.log[k].ord))
            &&& forall|k: int|
                0 <= k < out.log.len() ==> (#[trigger] out.log[k]).fill.price == b.latest->0.open
                    && out.log[k].fill.time == b.latest->0.time
        }),
    decreases drain_weight(q),
{
    let out = spec_drain(b, p, q);
    if q.len() == 0 {
    } else {
        let rest = q.drop_first();
        match q[0] {
            EventV::Order(o) => match spec_exec_order(b, o, p.cash) {
                ExecOutcomeV::Rejected { err } => {
                    if err is NotSatisfied || err is OrderExpired {
                        lemma_drain_no_look_ahead(b, p, rest);
                        assert forall|k: int| 0 <= k < out.log.len() implies q.contains(
                            EventV::Order(#[trigger] out.log[k].ord),
                        ) by {
                            let sub = spec_drain(b, p, rest);
                            assert(rest.contains(EventV::Order(out.log[k].ord)));
                            let w = choose|w: int|
                                0 <= w < rest.len() && rest[w] == EventV::Order(out.log[k].ord);
                            assert(q[w + 1] == EventV::Order(out.log[k].ord));
                        }
                    }
                },
                ExecOutcomeV::Filled { fill, cash, position } => {
                    let bnew = BrokerV { position, ..b };
                    let pnew = PortfolioV { cash, ..p };
                    let q2 = rest.push(EventV::Fill(fill));
                    lemma_drain_weight_push(rest, EventV::Fill(fill));
                    lemma_drain_no_look_ahead(bnew, pnew, q2);
                    let sub = spec_drain(bnew, pnew, q2);
                    assert forall|k: int| 0 <= k < out.log.len() implies q.contains(
                        EventV::Order(#[trigger] out.log[k].ord),
                    ) by {
                        if k == 0 {
                            assert(q[0] == EventV::Order(out.log[0].ord));
                        } else {
                            assert(out.log[k] == sub.log[k - 1]);
                            assert(q2.contains(EventV::Order(sub.log[k - 1].ord)));
                            let w = choose|w: int|
                                0 <= w < q2.len() && q2[w] == EventV::Order(sub.log[k - 1].ord);
                            assert(w < rest.len());
                            assert(q[w + 1] == EventV::Order(out.log[k].ord));
                        }
                    }
                    assert forall|k: int| 0 <= k < out.log.len() implies (#[trigger] out.log[k]).fill.price
                        == b.latest->0.open && out.log[k].fill.time == b.latest->0.time by {
                        if k > 0 {
                            assert(out.log[k] == sub.log[k - 1]);
                        }
                    }
                },
            },
            EventV::Fill(f) => {
                lemma_drain_no_look_ahead(b, spec_portfolio_apply_fill(p, f).0, rest);
                assert forall|k: int| 0 <= k < out.log.len() implies q.contains(
                    EventV::Order(#[trigger] out.log[k].ord),
                ) by {
                    let sub = spec_drain(b, spec_portfolio_apply_fill(p, f).0, rest);
                    assert(rest.contains(EventV::Order(out.log[k].ord)));
                    let w = choose|w: int|
                        0 <= w < rest.len() && rest[w] == EventV::Order(out.log[k].ord);
                    assert(q[w + 1] == EventV::Order(out.log[k].ord));
                }
            },
            _ => {
                lemma_drain_no_look_ahead(b, p, rest);
                assert forall|k: int| 0 <= k < out.log.len() implies q.contains(
                    EventV::Order(#[trigger] out.log[k].ord),
                ) by {
                    let sub = spec_drain(b, p, rest);
                    assert(rest.contains(EventV::Order(out.log[k].ord)));
                    let w = choose|w: int|
                        0 <= w < rest.len() && rest[w] == EventV::Order(out.log[k].ord);
                    assert(q[w + 1] == EventV::Order(out.log[k].ord));
                }
            },
        }
    }
}

/// No look-ahead: every order executed while a bar is processed was already
/// pending — queued by an earlier bar's decision or retained unsatisfied —
/// before the bar began, and its fill settles at this bar's open price and
/// time. The order allocated from this bar's own decision is only queued for
/// the next bar, never executed against this bar's price: it is not in the
/// execution log, so its earliest possible execution is the following bar.
pub proof fn lemma_no_look_ahead<M: OrderManager>(c: CoreV<M>, bar: BarV, d: DecisionV)
    ensures
        ({
            let (c1, log, f) = spec_process_bar(c, bar, d);
            &&& forall|k: int|
                0 <= k < log.len() ==> c.deferred.contains(
                    EventV::Order(#[trigger] log[k].ord),
                ) || c.unfulfilled.contains(log[k].ord)
            &&& forall|k: int|
                0 <= k < log.len() ==> (#[trigger] log[k]).fill.price == bar.open
                    && log[k].fill.time == bar.time
        }),
{
    let (c1, log, f) = spec_process_bar(c, bar, d);
    let q0 = spec_pending_queue(c);
    let b1 = BrokerV { latest: Some(bar), ..c.broker };
    match spec_portfolio_mark(c.portfolio, bar) {
        Err(e) => {},
        Ok(p1) => {
            lemma_drain_no_look_ahead(b1, p1, q0);
            let tail = c.unfulfilled.reverse().map_values(|o: OrderV| EventV::Order(o));
            assert forall|k: int| 0 <= k < log.len() implies c.deferred.contains(
                EventV::Order(#[trigger] log[k].ord),
            ) || c.unfulfilled.contains(log[k].ord) by {
                assert(q0.contains(EventV::Order(log[k].ord)));
                let w = choose|w: int|
                    0 <= w < q0.len() && q0[w] == EventV::Order(log[k].ord);
                if w < c.deferred.len() {
                    assert(c.deferred[w] == EventV::Order(log[k].ord));
                } else {
                    let j = w - c.deferred.len();
                    assert(q0[w] == tail[j]);
                    assert(tail[j] == EventV::Order(c.unfulfilled.reverse()[j]));
                    assert(c.unfulfilled.reverse()[j] == c.unfulfilled[c.unfulfilled.len() - 1
                        - j]);
                }
            }
        },
    }
}

/// What the logged fills settled, summed: each fill moved
/// `qty * price + cost` out of cash.
pub open spec fn sum_settlements(log: Seq<ExecRecV>) -> int
    decreases log.len(),
{
    if log.len() == 0 {
        0
    } else {
        log[0].fill.qty * log[0].fill.price + log[0].fill.cost + sum_settlements(
            log.drop_first(),
        )
    }
}

/// Settlement sums add over concatenation.
proof fn lemma_sum_settlements_concat(a: Seq<ExecRecV>, b: Seq<ExecRecV>)
    ensures
        sum_settlements(a + b) == sum_settlements(a) + sum_settlements(b),
    decreases a.len(),
{
    if a.len() == 0 {
        assert(a + b =~= b);
    } else {
        assert((a + b)[0] == a[0]);
        assert((a + b).drop_first() =~= a.drop_first() + b);
        lemma_sum_settlements_concat(a.drop_first(), b);
    }
}

/// Cash moves only when a fill settles: over one drain, the final cash is
/// the initial cash minus the settlements of every logged fill.
proof fn lemma_drain_cash_conservation<M: OrderManager>(
    b: BrokerV,
    p: PortfolioV<M>,
    q: Seq<EventV>,
)
    ensures
        spec_drain(b, p, q).portfolio.cash == p.cash - sum_settlements(spec_drain(b, p, q).log),
    decreases drain_weight(q),
{
    if q.len() == 0 {
    } else {
        let rest = q.drop_first();
        match q[0] {
            EventV::Order(o) => match spec_exec_order(b, o, p.cash) {
                ExecOutcomeV::Rejected { err } => {
                    if err is NotSatisfied || err is OrderExpired {
                        lemma_drain_cash_conservation(b, p, rest);
                    }
                },
                ExecOutcomeV::Filled { fill, cash, position } => {
                    lemma_drain_weight_push(rest, EventV::Fill(fill));
                    let bnew = BrokerV { position, ..b };
                    let pnew = PortfolioV { cash, ..p };
                    let q2 = rest.push(EventV::Fill(fill));
                    lemma_drain_cash_conservation(bnew, pnew, q2);
                    let sub = spec_drain(bnew, pnew, q2);
                    let rec = ExecRecV { ord: o, fill };
                    assert((seq![rec] + sub.log).drop_first() =~= sub.log);
                    assert((seq![rec] + sub.log)[0] == rec);
                },
            },
            EventV::Fill(f) => {
                lemma_drain_cash_conservation(b, spec_portfolio_apply_fill(p, f).0, rest);
                assert(spec_portfolio_apply_fill(p, f).0.cash == p.cash);
            },
            _ => {
                lemma_drain_cash_conservation(b, p, rest);
            },
        }
    }
}

/// Cash conservation over one bar: marking to market and placing a decision
/// leave cash alone, so the bar's cash movement is exactly its fills'
/// settlements.
proof fn lemma_bar_cash_conservation<M: OrderManager>(c: CoreV<M>, bar: BarV, d: DecisionV)
    ensures
        ({
            let (c1, log, f) = spec_process_bar(c, bar, d);
            c1.portfolio.cash == c.portfolio.cash - sum_settlements(log)
        }),
{
    let q0 = spec_pending_queue(c);
    let b1 = BrokerV { latest: Some(bar), ..c.broker };
    match spec_portfolio_mark(c.portfolio, bar) {
        Err(e) => {},
        Ok(p1) => {
            assert(p1.cash == c.portfolio.cash);
            lemma_drain_cash_conservation(b1, p1, q0);
        },
    }
}

/// Cash conservation over a whole replay: for any fill sequence a run
/// produces, the final cash is the initial cash minus
/// `qty * price + cost` summed over exactly the logged fills.
pub proof fn lemma_run_cash_conservation<M: OrderManager>(
    c: CoreV<M>,
    bars: Seq<BarV>,
    ds: Seq<DecisionV>,
)
    ensures
        spec_run(c, bars, ds).state.portfolio.cash == c.portfolio.cash - sum_settlements(
            spec_run(c, bars, ds).log,
        ),
    decreases bars.len(),
{
    if bars.len() == 0 {
    } else {
        let (c1, log1, f1) = spec_process_bar(c, bars[0], ds[0]);
        lemma_bar_cash_conservation(c, bars[0], ds[0]);
        if f1 is None {
            lemma_run_cash_conservation(c1, bars.drop_first(), ds.drop_first());
            lemma_sum_settlements_concat(log1, spec_run(c1, bars.drop_first(), ds.drop_first()).log);
        }
    }
}

/// The logged fills' signed quantities, summed.
pub open spec fn sum_filled_qty(log: Seq<ExecRecV>) -> int
    decreases log.len(),
{
    if log.len() == 0 {
        0
    } else {
        log[0].fill.qty + sum_filled_qty(log.drop_first())
    }
}

/// Filled-quantity sums add over concatenation.
proof fn lemma_sum_filled_qty_concat(a: Seq<ExecRecV>, b: Seq<ExecRecV>)
    ensures
        sum_filled_qty(a + b) == sum_filled_qty(a) + sum_filled_qty(b),
    decreases a.len(),
{
    if a.len() == 0 {
        assert(a + b =~= b);
    } else {
        assert((a + b)[0] == a[0]);
        assert((a + b).drop_first() =~= a.drop_first() + b);
        lemma_sum_filled_qty_concat(a.drop_first(), b);
    }
}

/// Over one drain, the venue's feasibility counter moves by exactly the
/// logged fills' signed quantities.
proof fn lemma_drain_position_conservation<M: OrderManager>(
    b: BrokerV,
    p: PortfolioV<M>,
    q: Seq<EventV>,
)
    ensures
        spec_drain(b, p, q).broker.position == b.position + sum_filled_qty(spec_drain(b, p, q).log),
    decreases drain_weight(q),
{
    if q.len() == 0 {
    } else {
        let rest = q.drop_first();
        match q[0] {
            EventV::Order(o) => match spec_exec_order(b, o, p.cash) {
                ExecOutcomeV::Rejected { err } => {
                    if err is NotSatisfied || err is OrderExpired {
                        lemma_drain_position_conservation(b, p, rest);
                    }
                },
                ExecOutcomeV::Filled { fill, cash, position } => {
                    lemma_drain_weight_push(rest, EventV::Fill(fill));
                    let bnew = BrokerV { position, ..b };
                    let pnew = PortfolioV { cash, ..p };
                    let q2 = rest.push(EventV::Fill(fill));
                    lemma_drain_position_conservation(bnew, pnew, q2);
                    let sub = spec_drain(bnew, pnew, q2);
                    let rec = ExecRecV { ord: o, fill };
                    assert((seq![rec] + sub.log).drop_first() =~= sub.log);
                    assert((seq![rec] + sub.log)[0] == rec);
                },
            },
            EventV::Fill(f) => {
                lemma_drain_position_conservation(b, spec_portfolio_apply_fill(p, f).0, rest);
            },
            _ => {
                lemma_drain_position_conservation(b, p, rest);
            },
        }
    }
}

/// Over a whole replay, the venue's feasibility counter is the initial one
/// plus the logged fills' signed quantities: the venue's own mini-ledger
/// agrees with what actually traded.
pub proof fn lemma_run_position_conservation<M: OrderManager>(
    c: CoreV<M>,
    bars: Seq<BarV>,
    ds: Seq<DecisionV>,
)
    ensures
        spec_run(c, bars, ds).state.broker.position == c.broker.position + sum_filled_qty(
            spec_run(c, bars, ds).log,
        ),
    decreases bars.len(),
{
    if bars.len() == 0 {
    } else {
        let (c1, log1, f1) = spec_process_bar(c, bars[0], ds[0]);
        let q0 = spec_pending_queue(c);
        let b1 = BrokerV { latest: Some(bars[0]), ..c.broker };
        match spec_portfolio_mark(c.portfolio, bars[0]) {
            Err(e) => {},
            Ok(p1) => {
                lemma_drain_position_conservation(b1, p1, q0);
            },
        }
        if f1 is None {
            lemma_run_position_conservation(c1, bars.drop_first(), ds.drop_first());
            lemma_sum_filled_qty_concat(log1, spec_run(c1, bars.drop_first(), ds.drop_first()).log);
        }
    }
}

/// Determinism: an identically configured core replaying the identical bar
/// sequence with the identical decision sequence produces the identical
/// final state, execution log and outcome — and therefore identical
/// statistics, including the ranked position list, which is a pure function
/// of the final ledger with no hidden iteration order.
pub proof fn lemma_replay_deterministic<M: OrderManager>(
    c1: CoreV<M>,
    c2: CoreV<M>,
    bars1: Seq<BarV>,
    bars2: Seq<BarV>,
    ds1: Seq<DecisionV>,
    ds2: Seq<DecisionV>,
)
    requires
        c1 == c2,
        bars1 == bars2,
        ds1 == ds2,
    ensures
        spec_run(c1, bars1, ds1) == spec_run(c2, bars2, ds2),
        crate::portfolio::spec_portfolio_stats(spec_run(c1, bars1, ds1).state.portfolio)
            == crate::portfolio::spec_portfolio_stats(spec_run(c2, bars2, ds2).state.portfolio),
{
}

/// The fleet: a set of simulation loops run to completion, one after the
/// other. State already applied by earlier loops is kept even when a later
/// one fails; the first fatal error is surfaced to the caller.
pub struct Casino<S, M, H> {
    pub gamblers: Vec<Gambler<S, M, H>>,
    /// The outcome of each loop's last run, in loop order.
    pub outcomes: Ghost<Seq<Result<(), ErrorRepr>>>,
}

impl<S: DecisionMaker, M: OrderManager, H: EventHook> Casino<S, M, H> {
    /// A fleet over the given loops.
    pub fn new(gamblers: Vec<Gambler<S, M, H>>) -> (r: Self)
        ensures
            r.gamblers == gamblers,
            r.outcomes@ == Seq::<Result<(), ErrorRepr>>::empty(),
    {
        Casino { gamblers, outcomes: Ghost(Seq::empty()) }
    }

    /// Run every loop to completion, in order. Each loop's outcome satisfies
    /// its run contract; when the fleet reports success, every loop
    /// succeeded, and the first error reported is the surfaced one.
    pub fn run(&mut self) -> (r: Result<(), ErrorRepr>)
        requires
            forall|i: int|
                0 <= i < old(self).gamblers@.len() ==> (#[trigger] old(self).gamblers@[i]).wf(),
        ensures
            final(self).gamblers@.len() == old(self).gamblers@.len(),
            final(self).outcomes@.len() == old(self).gamblers@.len(),
            forall|i: int|
                0 <= i < old(self).gamblers@.len() ==> Gambler::spec_run_post(
                    old(self).gamblers@[i],
                    #[trigger] final(self).gamblers@[i],
                    final(self).outcomes@[i],
                ),
            r is Ok ==> forall|i: int|
                0 <= i < final(self).outcomes@.len() ==> (#[trigger] final(self).outcomes@[i])
                    is Ok,
            r is Err ==> exists|i: int|
                {
                    &&& 0 <= i < final(self).outcomes@.len()
                    &&& (#[trigger] final(self).outcomes@[i]) == Err::<(), ErrorRepr>(r->Err_0)
                    &&& forall|j: int| 0 <= j < i ==> (#[trigger] final(self).outcomes@[j]) is Ok
                },
    {
        let mut first_err: Option<ErrorRepr> = None;
        let n = self.gamblers.len();
        let mut i: usize = 0;
        self.outcomes = Ghost(Seq::empty());
        while i < n
            invariant
                n == self.gamblers@.len(),
                n == old(self).gamblers@.len(),
                i <= n,
                self.outcomes@.len() == i as int,
                forall|k: int| i <= k < n ==> self.gamblers@[k] == old(self).gamblers@[k],
                forall|k: int|
                    0 <= k < i ==> Gambler::spec_run_post(
                        old(self).gamblers@[k],
                        #[trigger] self.gamblers@[k],
                        self.outcomes@[k],
                    ),
                first_err is None ==> forall|k: int|
                    0 <= k < i ==> (#[trigger] self.outcomes@[k]) is Ok,
                first_err matches Some(e) ==> exists|k: int|
                    {
                        &&& 0 <= k < i
                        &&& (#[trigger] self.outcomes@[k]) == Err::<(), ErrorRepr>(e)
                        &&& forall|j: int| 0 <= j < k ==> (#[trigger] self.outcomes@[j]) is Ok
                    },
                forall|k: int|
                    i <= k < old(self).gamblers@.len() ==> (#[trigger] old(self).gamblers@[k]).wf(),
            decreases n - i,
        {
            let ghost pre = self.gamblers@;
            let ghost pre_out = self.outcomes@;
            let ghost fe_pre = first_err;
            proof {
                assert(self.gamblers@[i as int] == old(self).gamblers@[i as int]);
                assert(old(self).gamblers@[i as int].wf());
            }
            let g = &mut self.gamblers[i];
            let res = g.run();
            self.outcomes = Ghost(self.outcomes@.push(res));
            match res {
                Err(e) => {
                    if first_err.is_none() {
                        first_err = Some(e);
                    }
                },
                Ok(_) => {},
            }
            proof {
                assert forall|k: int| i + 1 <= k < n implies self.gamblers@[k] == old(
                    self,
                ).gamblers@[k] by {
                    assert(self.gamblers@[k] == pre[k]);
                }
                assert(Gambler::spec_run_post(
                    old(self).gamblers@[i as int],
                    self.gamblers@[i as int],
                    self.outcomes@[i as int],
                ));
                match first_err {
                    Some(e) => {
                        match fe_pre {
                            Some(e0) => {
                                let w = choose|k: int|
                                    {
                                        &&& 0 <= k < i
                                        &&& (#[trigger] pre_out[k]) == Err::<(), ErrorRepr>(e0)
                                        &&& forall|j: int|
                                            0 <= j < k ==> (#[trigger] pre_out[j]) is Ok
                                    };
                                assert(self.outcomes@[w] == Err::<(), ErrorRepr>(e));
                                assert(forall|j: int|
                                    0 <= j < w ==> (#[trigger] self.outcomes@[j]) is Ok);
                            },
                            None => {
                                assert(self.outcomes@[i as int] == Err::<(), ErrorRepr>(e));
                                assert(forall|j: int|
                                    0 <= j < i ==> (#[trigger] self.outcomes@[j]) is Ok);
                            },
                        }
                    },
                    None => {},
                }
            }
            i = i + 1;
        }
        match first_err {
            Some(e) => Err(e),
            None => Ok(()),
        }
    }
}

} // verus!
