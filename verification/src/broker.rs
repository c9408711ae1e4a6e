//! The simulated execution venue: orders become fills under price, volume,
//! cash and limit constraints, and every accepted fill settles against the
//! wallet through exactly one path.

use vstd::prelude::*;
use crate::{money_ok, qty_ok, MONEY_BOUND, QTY_BOUND};
use crate::data::{Bar, BarV};
use crate::errors::ErrorRepr;
use crate::order::{Fill, FillV, Order, OrderKind, OrderKindV, OrderV};
use crate::portfolio::{PortfolioV, SimplePortfolio};

verus! {

/// Mathematical model of the venue: the latest absorbed bar, the commission
/// rate as an exact rational `num/den`, and the internal feasibility counter
/// that bounds sell sizes (the authoritative position lives in the ledger).
#[verifier::ext_equal]
pub ghost struct BrokerV {
    pub latest: Option<BarV>,
    pub commission_num: int,
    pub commission_den: int,
    pub position: int,
}

impl BrokerV {
    /// The commission rate is a rational in `[0, 1]`; the feasibility counter
    /// is a valid non-negative quantity; any absorbed bar is well-formed.
    pub open spec fn wf(self) -> bool {
        &&& 1 <= self.commission_den
        &&& 0 <= self.commission_num <= self.commission_den
        &&& 0 <= self.position <= QTY_BOUND
        &&& match self.latest {
            Some(b) => b.wf(),
            None => true,
        }
    }
}

/// Commission charged on `qty_abs` units at `price` under rate `num/den`:
/// the value times the rate, rounded down.
pub open spec fn spec_commission(qty_abs: int, price: int, num: int, den: int) -> int {
    (qty_abs * price * num) / den
}

/// The commission is between zero and the traded value.
proof fn lemma_commission_bounds(q: int, p: int, num: int, den: int)
    requires
        0 <= q,
        0 <= p,
        0 <= num <= den,
        1 <= den,
    ensures
        0 <= spec_commission(q, p, num, den) <= q * p,
{
    let v = q * p;
    assert(0 <= v && v * num <= v * den && 0 <= v * num) by (nonlinear_arith)
        requires
            0 <= q,
            0 <= p,
            0 <= num <= den,
            v == q * p,
    ;
    vstd::arithmetic::div_mod::lemma_div_pos_is_pos(v * num, den);
    vstd::arithmetic::div_mod::lemma_div_is_ordered(v * num, v * den, den);
    vstd::arithmetic::div_mod::lemma_div_multiples_vanish(v, den);
    assert(v * den == den * v) by (nonlinear_arith);
}

/// The commission grows with the quantity.
proof fn lemma_commission_monotone(q1: int, q2: int, p: int, num: int, den: int)
    requires
        0 <= q1 <= q2,
        0 <= p,
        0 <= num,
        1 <= den,
    ensures
        spec_commission(q1, p, num, den) <= spec_commission(q2, p, num, den),
{
    assert(q1 * p * num <= q2 * p * num) by (nonlinear_arith)
        requires
            0 <= q1 <= q2,
            0 <= p,
            0 <= num,
    ;
    vstd::arithmetic::div_mod::lemma_div_is_ordered(q1 * p * num, q2 * p * num, den);
}

/// Whatever is at most the quotient, scaled back up, is at most the
/// dividend.
proof fn lemma_le_div_mul(a: int, x: int, p: int)
    requires
        1 <= p,
        a <= x / p,
    ensures
        a * p <= x,
{
    vstd::arithmetic::div_mod::lemma_fundamental_div_mod(x, p);
    vstd::arithmetic::div_mod::lemma_mod_division_less_than_divisor(x, p);
    assert(a * p <= x) by (nonlinear_arith)
        requires
            a <= x / p,
            x == p * (x / p) + x % p,
            0 <= x % p,
            1 <= p,
    ;
}

/// The outcome of evaluating one order at the venue.
#[verifier::ext_equal]
pub ghost enum ExecOutcomeV {
    Rejected { err: ErrorRepr },
    Filled { fill: FillV, cash: int, position: int },
}

/// The quantity the venue actually trades. A buy is clamped by the bar's
/// volume and by what cash affords after the commission projected for the
/// requested quantity, and never below zero; a sell is clamped to the
/// feasibility counter.
pub open spec fn spec_clamped_qty(b: BrokerV, o: OrderV, cash: int) -> int {
    let bar = b.latest->0;
    let price = bar.open;
    if o.qty > 0 {
        let proj = spec_commission(o.qty, price, b.commission_num, b.commission_den);
        let by_vol = if bar.vol <= o.qty {
            bar.vol
        } else {
            o.qty
        };
        let clamped = if price > 0 {
            let afford = (cash - proj) / price;
            if afford <= by_vol {
                afford
            } else {
                by_vol
            }
        } else {
            by_vol
        };
        if clamped >= 0 {
            clamped
        } else {
            0
        }
    } else {
        if o.qty >= -b.position {
            o.qty
        } else {
            -b.position
        }
    }
}

/// Whether the venue admits a trade of (clamped) quantity `qty` at `price`
/// under the order's kind: market orders always; a limit buy only at or
/// under the limit; a limit sell only at or over the limit, or at or under
/// the stop when one is set.
pub open spec fn spec_admitted(kind: OrderKindV, qty: int, price: int) -> bool {
    match kind {
        OrderKindV::Market => true,
        OrderKindV::Limit { limit, stop } => {
            ||| (qty < 0 && (price >= limit || (stop matches Some(s) && price <= s)))
            ||| (qty > 0 && price <= limit)
        },
    }
}

/// One order evaluated against the venue and the wallet's cash, exactly:
/// an expired order is rejected first; without a bar nothing can be priced;
/// the quantity is clamped, the commission recomputed from it, the limit
/// condition tested; an admitted trade settles `qty * price + cost` against
/// cash (a debit for buys, a credit for sells) unless a capacity bound of
/// the ledger would be breached.
pub open spec fn spec_exec_order(b: BrokerV, o: OrderV, cash: int) -> ExecOutcomeV {
    if o.lifetime == Some(0int) {
        ExecOutcomeV::Rejected { err: ErrorRepr::OrderExpired }
    } else if b.latest is None {
        ExecOutcomeV::Rejected { err: ErrorRepr::NotExists }
    } else {
        let bar = b.latest->0;
        let price = bar.open;
        let qty = spec_clamped_qty(b, o, cash);
        let qty_abs = if qty >= 0 {
            qty
        } else {
            -qty
        };
        let cost = spec_commission(qty_abs, price, b.commission_num, b.commission_den);
        if !spec_admitted(o.kind, qty, price) {
            ExecOutcomeV::Rejected { err: ErrorRepr::NotSatisfied }
        } else if b.position + qty > QTY_BOUND || cash - (qty * price + cost) > MONEY_BOUND {
            ExecOutcomeV::Rejected { err: ErrorRepr::Fatal }
        } else {
            ExecOutcomeV::Filled {
                fill: FillV { sym: o.sym, qty, price, cost, time: bar.time },
                cash: cash - (qty * price + cost),
                position: b.position + qty,
            }
        }
    }
}

/// The simulated venue: the latest absorbed bar, a commission rate
/// `commission_num / commission_den`, and the internal feasibility counter
/// used only to bound sell sizes.
#[derive(Debug)]
pub struct SimulatedBroker {
    pub latest: Option<Bar>,
    pub commission_num: u32,
    pub commission_den: u32,
    pub position: i32,
}

impl View for SimulatedBroker {
    type V = BrokerV;

    open spec fn view(&self) -> BrokerV {
        BrokerV {
            latest: match self.latest {
                Some(ref b) => Some(b@),
                None => None,
            },
            commission_num: self.commission_num as int,
            commission_den: self.commission_den as int,
            position: self.position as int,
        }
    }
}

impl SimulatedBroker {
    /// A venue charging the commission rate `num / den`, with no bar absorbed
    /// yet and an empty feasibility counter.
    pub fn new(num: u32, den: u32) -> (r: SimulatedBroker)
        requires
            1 <= den,
            num <= den,
        ensures
            r@ == (BrokerV {
                latest: None::<BarV>,
                commission_num: num as int,
                commission_den: den as int,
                position: 0,
            }),
            r@.wf(),
    {
        SimulatedBroker { latest: None, commission_num: num, commission_den: den, position: 0 }
    }
}

impl Default for SimulatedBroker {
    /// A commission-free venue with no bar absorbed yet.
    fn default() -> (r: SimulatedBroker)
        ensures
            r@ == (BrokerV {
                latest: None::<BarV>,
                commission_num: 0,
                commission_den: 1,
                position: 0,
            }),
            r@.wf(),
    {
        SimulatedBroker { latest: None, commission_num: 0, commission_den: 1, position: 0 }
    }
}

impl SimulatedBroker {
    /// Absorb a bar: it becomes the venue's reference price for every order
    /// evaluated until the next one.
    pub fn set_lastest_bar(&mut self, bar: &Bar)
        requires
            bar@.wf(),
        ensures
            final(self)@ == (BrokerV { latest: Some(bar@), ..old(self)@ }),
    {
        self.latest = Some(bar.clone());
        proof {
            assert(self@ =~= (BrokerV { latest: Some(bar@), ..old(self)@ }));
        }
    }

    /// Evaluate one order at the latest bar's open and settle any accepted
    /// fill against the wallet — a debit for buys, a credit for sells — in
    /// this one place. The outcome is exactly `spec_exec_order`; for every
    /// accepted fill, `cash_after == cash_before - (qty * price + cost)` and
    /// cash stays non-negative.
    pub fn exec_order<T>(&mut self, order: &Order, wallet: &mut SimplePortfolio<T>) -> (r: Result<
        Fill,
        ErrorRepr,
    >)
        requires
            old(self)@.wf(),
            order@.wf(),
            old(wallet)@.wf(),
        ensures
            final(self)@.wf(),
            final(wallet)@.wf(),
            final(wallet)@.init_cash == old(wallet)@.init_cash,
            final(wallet)@.positions == old(wallet)@.positions,
            final(wallet)@.manager == old(wallet)@.manager,
            final(self)@.latest == old(self)@.latest,
            final(self)@.commission_num == old(self)@.commission_num,
            final(self)@.commission_den == old(self)@.commission_den,
            match spec_exec_order(old(self)@, order@, old(wallet)@.cash) {
                ExecOutcomeV::Rejected { err } => {
                    &&& r == Err::<Fill, ErrorRepr>(err)
                    &&& final(self)@ == old(self)@
                    &&& final(wallet)@ == old(wallet)@
                },
                ExecOutcomeV::Filled { fill, cash, position } => {
                    &&& r matches Ok(f) && f@ == fill
                    &&& fill.wf()
                    &&& final(wallet)@.cash == cash
                    &&& final(self)@.position == position
                    &&& cash == old(wallet)@.cash - (fill.qty * fill.price + fill.cost)
                    &&& 0 <= cash
                },
            },
    {
        if order.is_expired() {
            return Err(ErrorRepr::OrderExpired);
        }
        let (price, time, vol) = match &self.latest {
            Some(b) => (b.open, b.time, b.vol),
            None => {
                return Err(ErrorRepr::NotExists);
            },
        };
        let cash = wallet.balance();
        let num = self.commission_num as i128;
        let den = self.commission_den as i128;
        let mut qty: i64 = order.qty as i64;
        if qty > 0 {
            proof {
                lemma_commission_bounds(
                    order@.qty,
                    price as int,
                    num as int,
                    den as int,
                );
                crate::position::lemma_abs_mul_bound(
                    order@.qty,
                    price as int,
                    QTY_BOUND as int,
                    MONEY_BOUND as int,
                );
                crate::position::lemma_abs_mul_bound(
                    order@.qty * (price as int),
                    num as int,
                    QTY_BOUND as int * MONEY_BOUND as int,
                    u32::MAX as int,
                );
            }
            let proj: i128 = (qty as i128 * price as i128 * num) / den;
            if vol < qty as u64 {
                qty = vol as i64;
            }
            if price > 0 {
                let avail: i128 = cash as i128 - proj;
                if avail < 0 {
                    proof {
                        let av = avail as int;
                        let pr = price as int;
                        vstd::arithmetic::div_mod::lemma_fundamental_div_mod(av, pr);
                        vstd::arithmetic::div_mod::lemma_mod_division_less_than_divisor(av, pr);
                        let q = av / pr;
                        let rm = av % pr;
                        assert(q < 0) by (nonlinear_arith)
                            requires
                                av == pr * q + rm,
                                0 <= rm,
                                rm < pr,
                                av < 0,
                                pr > 0,
                        ;
                    }
                    qty = 0;
                } else {
                    let af = avail / price as i128;
                    if af < qty as i128 {
                        qty = af as i64;
                    }
                }
            }
        } else if qty < 0 {
            if qty < -(self.position as i64) {
                qty = -(self.position as i64);
            }
        }
        let ghost clamped = spec_clamped_qty(old(self)@, order@, old(wallet)@.cash);
        proof {
            assert(qty as int == clamped);
            assert(qty_ok(qty as int));
        }
        let qty_abs: i64 = if qty >= 0 {
            qty
        } else {
            -qty
        };
        proof {
            lemma_commission_bounds(qty_abs as int, price as int, num as int, den as int);
            crate::position::lemma_abs_mul_bound(
                qty_abs as int,
                price as int,
                QTY_BOUND as int,
                MONEY_BOUND as int,
            );
            crate::position::lemma_abs_mul_bound(
                qty_abs as int * (price as int),
                num as int,
                QTY_BOUND as int * MONEY_BOUND as int,
                u32::MAX as int,
            );
            crate::position::lemma_abs_mul_bound(
                qty as int,
                price as int,
                QTY_BOUND as int,
                MONEY_BOUND as int,
            );
        }
        let cost128: i128 = (qty_abs as i128 * price as i128 * num) / den;
        let cost: i64 = cost128 as i64;
        let admitted = match order.kind {
            OrderKind::Market => true,
            OrderKind::Limit { limit, stop } => {
                if qty < 0 {
                    price >= limit || (match stop {
                        Some(s) => price <= s,
                        None => false,
                    })
                } else if qty > 0 {
                    price <= limit
                } else {
                    false
                }
            },
        };
        if !admitted {
            return Err(ErrorRepr::NotSatisfied);
        }
        let newpos: i64 = self.position as i64 + qty;
        if newpos > QTY_BOUND as i64 {
            return Err(ErrorRepr::Fatal);
        }
        proof {
            // An admitted buy is affordable: the clamp kept qty * price within
            // cash net of the projected commission, and the recomputed cost is
            // no more than that projection.
            if qty > 0 {
                let proj = spec_commission(
                    order@.qty,
                    price as int,
                    num as int,
                    den as int,
                );
                lemma_commission_monotone(
                    qty as int,
                    order@.qty,
                    price as int,
                    num as int,
                    den as int,
                );
                if price > 0 {
                    lemma_le_div_mul(
                        qty as int,
                        old(wallet)@.cash - proj,
                        price as int,
                    );
                } else {
                    assert(qty as int * price as int == 0) by (nonlinear_arith)
                        requires
                            price as int == 0,
                    ;
                }
                lemma_commission_bounds(order@.qty, price as int, num as int, den as int);
            } else {
                // A sell's settlement is a credit: the commission never
                // exceeds the traded value.
                assert(qty as int * price as int + cost as int <= 0) by (nonlinear_arith)
                    requires
                        qty <= 0,
                        price >= 0,
                        0 <= cost as int <= (-(qty as int)) * price as int,
                ;
            }
        }
        let payment128: i128 = qty as i128 * price as i128 + cost as i128;
        let payment: i64 = payment128 as i64;
        proof {
            assert(0 <= old(wallet)@.cash - payment as int);
        }
        match wallet.pay(payment) {
            None => {
                proof {
                    assert(old(wallet)@.cash - payment as int > MONEY_BOUND);
                }
                Err(ErrorRepr::Fatal)
            },
            Some(_rem) => {
                self.position = newpos as i32;
                let fill = Fill { sym: order.sym.clone(), qty: qty as i32, price, cost, time };
                proof {
                    assert(self@ =~= (BrokerV {
                        position: old(self)@.position + qty as int,
                        ..old(self)@
                    }));
                }
                Ok(fill)
            },
        }
    }
}

/// Cash conservation at the venue: every accepted fill moves cash by exactly
/// `-(qty * price + cost)`, and never below zero.
pub proof fn lemma_cash_conservation(b: BrokerV, o: OrderV, cash: int)
    requires
        b.wf(),
        o.wf(),
        0 <= cash,
    ensures
        spec_exec_order(b, o, cash) matches ExecOutcomeV::Filled { fill, cash: after, .. } ==> {
            &&& after == cash - (fill.qty * fill.price + fill.cost)
            &&& 0 <= after
        },
{
    if b.latest is Some && o.lifetime != Some(0int) {
        let bar = b.latest->0;
        let price = bar.open;
        let qty = spec_clamped_qty(b, o, cash);
        let qty_abs = if qty >= 0 {
            qty
        } else {
            -qty
        };
        let cost = spec_commission(qty_abs, price, b.commission_num, b.commission_den);
        lemma_commission_bounds(qty_abs, price, b.commission_num, b.commission_den);
        if qty > 0 {
            let proj = spec_commission(o.qty, price, b.commission_num, b.commission_den);
            lemma_commission_monotone(qty, o.qty, price, b.commission_num, b.commission_den);
            if price > 0 {
                lemma_le_div_mul(qty, cash - proj, price);
            } else {
                assert(qty * price == 0) by (nonlinear_arith)
                    requires
                        price == 0,
                ;
            }
            lemma_commission_bounds(o.qty, price, b.commission_num, b.commission_den);
        } else {
            assert(qty * price + cost <= 0) by (nonlinear_arith)
                requires
                    qty <= 0,
                    price >= 0,
                    0 <= cost <= (-qty) * price,
            ;
        }
    }
}

} // verus!
