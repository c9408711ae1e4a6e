//! Orders, fills, and the order allocators that size them.

use vstd::prelude::*;
use crate::{money_ok, qty_ok, MONEY_BOUND, QTY_BOUND};
use crate::errors::ErrorRepr;
use crate::position::{Position, PositionV};
use crate::strategy::{Decision, DecisionKind, DecisionV};

verus! {

/// Mathematical model of an order kind.
#[verifier::ext_equal]
pub ghost enum OrderKindV {
    Market,
    Limit { limit: int, stop: Option<int> },
}

impl OrderKindV {
    /// Limit and stop prices are within ledger capacity.
    pub open spec fn wf(self) -> bool {
        match self {
            OrderKindV::Market => true,
            OrderKindV::Limit { limit, stop } => money_ok(limit) && match stop {
                Some(s) => money_ok(s),
                None => true,
            },
        }
    }
}

/// How an order may execute: at the venue's reference price, or only when a
/// limit (and optional stop) condition holds.
#[derive(Clone, Copy, Debug)]
pub enum OrderKind {
    Market,
    Limit { limit: i64, stop: Option<i64> },
}

impl View for OrderKind {
    type V = OrderKindV;

    open spec fn view(&self) -> OrderKindV {
        match *self {
            OrderKind::Market => OrderKindV::Market,
            OrderKind::Limit { limit, stop } => OrderKindV::Limit {
                limit: limit as int,
                stop: match stop {
                    Some(s) => Some(s as int),
                    None => None,
                },
            },
        }
    }
}

/// The lifecycle state of an order.
#[derive(Clone, Copy, Debug, PartialEq, Eq, Structural)]
pub enum OrderStatus {
    Created,
    Completed,
    PartialCompleted,
    Expired,
    Canceled,
}

impl Default for OrderStatus {
    /// A fresh order starts out `Created`.
    fn default() -> (r: Self)
        ensures
            r == OrderStatus::Created,
    {
        OrderStatus::Created
    }
}

/// Mathematical model of an order.
#[verifier::ext_equal]
pub ghost struct OrderV {
    pub sym: Seq<char>,
    pub kind: OrderKindV,
    pub qty: int,
    pub time: int,
    pub lifetime: Option<int>,
    pub status: OrderStatus,
}

impl OrderV {
    /// Quantity and any limit prices are within ledger capacity.
    pub open spec fn wf(self) -> bool {
        &&& qty_ok(self.qty)
        &&& self.kind.wf()
        &&& match self.lifetime {
            Some(l) => l >= 0,
            None => true,
        }
    }
}

/// A sized, typed execution request. Positive quantity buys, negative sells.
/// `lifetime`, when set, is the number of bars an unsatisfied order may keep
/// retrying before it expires.
#[derive(Debug)]
pub struct Order {
    pub sym: String,
    pub kind: OrderKind,
    pub qty: i32,
    pub time: i64,
    pub lifetime: Option<usize>,
    pub status: OrderStatus,
}

impl View for Order {
    type V = OrderV;

    open spec fn view(&self) -> OrderV {
        OrderV {
            sym: self.sym@,
            kind: self.kind@,
            qty: self.qty as int,
            time: self.time as int,
            lifetime: match self.lifetime {
                Some(l) => Some(l as int),
                None => None,
            },
            status: self.status,
        }
    }
}

impl Clone for Order {
    fn clone(&self) -> (r: Self)
        ensures
            r == *self,
    {
        Order {
            sym: self.sym.clone(),
            kind: self.kind,
            qty: self.qty,
            time: self.time,
            lifetime: self.lifetime,
            status: self.status,
        }
    }
}

impl Order {
    /// An order is expired exactly when its lifetime budget has hit zero.
    pub fn is_expired(&self) -> (r: bool)
        ensures
            r == (self@.lifetime == Some(0int)),
    {
        match self.lifetime {
            Some(l) => l == 0,
            None => false,
        }
    }
}

/// Mathematical model of a fill.
#[verifier::ext_equal]
pub ghost struct FillV {
    pub sym: Seq<char>,
    pub qty: int,
    pub price: int,
    pub cost: int,
    pub time: int,
}

impl FillV {
    /// Quantity and price are within ledger capacity; the commission cost is
    /// non-negative and no more than the traded value.
    pub open spec fn wf(self) -> bool {
        &&& qty_ok(self.qty)
        &&& money_ok(self.price)
        &&& 0 <= self.cost <= (if self.qty >= 0 {
            self.qty
        } else {
            -self.qty
        }) * self.price
    }
}

/// A realized execution: signed quantity, the price it settled at, and the
/// commission cost charged on top.
#[derive(Debug)]
pub struct Fill {
    pub sym: String,
    pub qty: i32,
    pub price: i64,
    pub cost: i64,
    pub time: i64,
}

impl View for Fill {
    type V = FillV;

    open spec fn view(&self) -> FillV {
        FillV {
            sym: self.sym@,
            qty: self.qty as int,
            price: self.price as int,
            cost: self.cost as int,
            time: self.time as int,
        }
    }
}

impl Clone for Fill {
    fn clone(&self) -> (r: Self)
        ensures
            r == *self,
    {
        Fill {
            sym: self.sym.clone(),
            qty: self.qty,
            price: self.price,
            cost: self.cost,
            time: self.time,
        }
    }
}

// ---------------------------------------------------------------------------
// Retry lifetime decay
// ---------------------------------------------------------------------------

/// One unsatisfied evaluation: the lifetime budget, if any, is decremented,
/// saturating at zero.
pub open spec fn spec_decrement_lifetime(l: Option<int>) -> Option<int> {
    match l {
        None => None,
        Some(v) => Some(if v >= 1 { v - 1 } else { 0 }),
    }
}

/// The lifetime budget after `attempts` unsatisfied evaluations.
pub open spec fn spec_lifetime_after(l: Option<int>, attempts: nat) -> Option<int>
    decreases attempts,
{
    if attempts == 0 {
        l
    } else {
        spec_decrement_lifetime(spec_lifetime_after(l, (attempts - 1) as nat))
    }
}

/// A lifetime budget is expired exactly when it has reached zero.
pub open spec fn spec_lifetime_expired(l: Option<int>) -> bool {
    l == Some(0int)
}

/// Lifetime decay: an order created with lifetime `lifetime` and never
/// satisfied carries budget `lifetime - k` (floored at zero) into its
/// `(k+1)`-th evaluation, so it is found expired exactly from the
/// `(lifetime + 1)`-th evaluation on.
pub proof fn lemma_lifetime_decay(lifetime: nat, k: nat)
    ensures
        spec_lifetime_after(Some(lifetime as int), k) == Some(
            if k >= lifetime {
                0int
            } else {
                lifetime - k
            },
        ),
        spec_lifetime_expired(spec_lifetime_after(Some(lifetime as int), k)) <==> (k >= lifetime),
    decreases k,
{
    if k > 0 {
        lemma_lifetime_decay(lifetime, (k - 1) as nat);
    }
}

/// An order with no lifetime bound retries indefinitely: it is never expired,
/// however many unsatisfied evaluations it has seen.
pub proof fn lemma_unbounded_lifetime_never_expires(k: nat)
    ensures
        spec_lifetime_after(None, k) == None::<int>,
        !spec_lifetime_expired(spec_lifetime_after(None, k)),
    decreases k,
{
    if k > 0 {
        lemma_unbounded_lifetime_never_expires((k - 1) as nat);
    }
}

// ---------------------------------------------------------------------------
// Order allocation
// ---------------------------------------------------------------------------

/// The model of an allocation result: the order's view, if one was made.
pub open spec fn make_order_result_view(r: Result<Option<Order>, ErrorRepr>) -> Result<
    Option<OrderV>,
    ErrorRepr,
> {
    match r {
        Ok(Some(o)) => Ok(Some(o@)),
        Ok(None) => Ok(None),
        Err(e) => Err(e),
    }
}

/// The model of the optional position handed to an allocator.
pub open spec fn position_opt_view(p: Option<&Position>) -> Option<PositionV> {
    match p {
        Some(x) => Some(x@),
        None => None,
    }
}

/// Turns a decision and the current position into at most one sized order.
/// Allocators are deterministic: each implementation carries a spec-level
/// description of exactly which order it makes.
pub trait OrderManager: Sized {
    /// The allocator's configuration is within ledger capacity.
    spec fn wf(self) -> bool;

    /// Exactly which order this allocator makes from `d` against `pos`.
    spec fn spec_make_order(self, d: DecisionV, pos: Option<PositionV>) -> Result<
        Option<OrderV>,
        ErrorRepr,
    >;

    /// Make the order `spec_make_order` describes, leaving the allocator
    /// unchanged. A zero-quantity result is "no order", not an error.
    fn make_order(&mut self, decision: &Decision, position: Option<&Position>) -> (r: Result<
        Option<Order>,
        ErrorRepr,
    >)
        requires
            old(self).wf(),
            position matches Some(p) ==> p@.wf(),
        ensures
            *final(self) == *old(self),
            make_order_result_view(r) == old(self).spec_make_order(
                decision@,
                position_opt_view(position),
            ),
            r matches Ok(Some(o)) ==> o@.wf(),
    ;
}

/// Fixed-size sizing: buy a configured number of units, sell at most that
/// many (never more than held), close the whole position.
#[derive(Clone, Copy, Debug)]
pub struct FixedSizeOrderManager {
    pub size: i32,
}

impl OrderManager for FixedSizeOrderManager {
    /// The configured size is a valid quantity.
    open spec fn wf(self) -> bool {
        0 <= self.size <= QTY_BOUND
    }

    /// Buy: `+size`. Sell: `-min(size, held)`. Close: `-held`. Hold makes no
    /// order, and neither does a zero quantity.
    open spec fn spec_make_order(self, d: DecisionV, pos: Option<PositionV>) -> Result<
        Option<OrderV>,
        ErrorRepr,
    > {
        let current = match pos {
            Some(p) => p.qty,
            None => 0,
        };
        let qty: int = match d.kind {
            DecisionKind::Buy => self.size as int,
            DecisionKind::Sell => -(if self.size as int <= current {
                self.size as int
            } else {
                current
            }),
            DecisionKind::Close => -current,
            DecisionKind::Hold => 0,
        };
        if qty != 0 {
            Ok(
                Some(
                    OrderV {
                        sym: d.sym,
                        kind: OrderKindV::Market,
                        qty,
                        time: d.time,
                        lifetime: None,
                        status: OrderStatus::Created,
                    },
                ),
            )
        } else {
            Ok(None)
        }
    }

    fn make_order(&mut self, decision: &Decision, position: Option<&Position>) -> (r: Result<
        Option<Order>,
        ErrorRepr,
    >) {
        let current: i32 = match position {
            Some(p) => p.qty,
            None => 0,
        };
        let qty: i32 = match decision.kind {
            DecisionKind::Buy => self.size,
            DecisionKind::Sell => -(if self.size <= current {
                self.size
            } else {
                current
            }),
            DecisionKind::Close => -current,
            DecisionKind::Hold => 0,
        };
        if qty != 0 {
            Ok(
                Some(
                    Order {
                        sym: decision.sym.clone(),
                        kind: OrderKind::Market,
                        qty,
                        time: decision.time,
                        lifetime: None,
                        status: OrderStatus::Created,
                    },
                ),
            )
        } else {
            Ok(None)
        }
    }
}

/// Plain sizing: buy a configured number of units; sell or close the whole
/// position, and refuse to sell a symbol that was never traded.
#[derive(Clone, Copy, Debug)]
pub struct SimpleOrderManager {
    pub size: i32,
}

impl OrderManager for SimpleOrderManager {
    /// The configured size is a valid quantity.
    open spec fn wf(self) -> bool {
        0 <= self.size <= QTY_BOUND
    }

    /// Buy: `+size`. Sell and Close: `-held`, failing with `OutOfBounds`
    /// when no position exists for the symbol. Hold makes no order, and
    /// neither does a zero quantity.
    open spec fn spec_make_order(self, d: DecisionV, pos: Option<PositionV>) -> Result<
        Option<OrderV>,
        ErrorRepr,
    > {
        let qty_or_err: Result<int, ErrorRepr> = match d.kind {
            DecisionKind::Buy => Ok(self.size as int),
            DecisionKind::Sell => match pos {
                Some(p) => Ok(-p.qty),
                None => Err(ErrorRepr::OutOfBounds),
            },
            DecisionKind::Close => match pos {
                Some(p) => Ok(-p.qty),
                None => Err(ErrorRepr::OutOfBounds),
            },
            DecisionKind::Hold => Ok(0),
        };
        match qty_or_err {
            Err(e) => Err(e),
            Ok(qty) => if qty != 0 {
                Ok(
                    Some(
                        OrderV {
                            sym: d.sym,
                            kind: OrderKindV::Market,
                            qty,
                            time: d.time,
                            lifetime: None,
                            status: OrderStatus::Created,
                        },
                    ),
                )
            } else {
                Ok(None)
            },
        }
    }

    fn make_order(&mut self, decision: &Decision, position: Option<&Position>) -> (r: Result<
        Option<Order>,
        ErrorRepr,
    >) {
        let qty: i32 = match decision.kind {
            DecisionKind::Buy => self.size,
            DecisionKind::Sell | DecisionKind::Close => {
                match position {
                    Some(p) => -p.qty,
                    None => {
                        return Err(ErrorRepr::OutOfBounds);
                    },
                }
            },
            DecisionKind::Hold => 0,
        };
        if qty != 0 {
            Ok(
                Some(
                    Order {
                        sym: decision.sym.clone(),
                        kind: OrderKind::Market,
                        qty,
                        time: decision.time,
                        lifetime: None,
                        status: OrderStatus::Created,
                    },
                ),
            )
        } else {
            Ok(None)
        }
    }
}

/// Fixed-value sizing: buy as many units as a configured target value
/// affords at the latest close, sell or close the whole position.
#[derive(Clone, Copy, Debug)]
pub struct FixedValueOrderManager {
    pub val: i64,
}

impl OrderManager for FixedValueOrderManager {
    /// The configured target value is a valid amount.
    open spec fn wf(self) -> bool {
        money_ok(self.val as int)
    }

    /// Buy: `floor(val / latest_close)` units, capped at ledger capacity;
    /// buying needs a position with a positive latest close, else the
    /// allocation fails with `NotExists`. Sell and Close: `-held`. Hold makes
    /// no order, and neither does a zero quantity.
    open spec fn spec_make_order(self, d: DecisionV, pos: Option<PositionV>) -> Result<
        Option<OrderV>,
        ErrorRepr,
    > {
        let qty_or_err: Result<int, ErrorRepr> = match d.kind {
            DecisionKind::Buy => match pos {
                Some(p) => match p.latest_market_close {
                    Some(c) => if c > 0 {
                        Ok(
                            if self.val as int / c <= QTY_BOUND {
                                self.val as int / c
                            } else {
                                QTY_BOUND as int
                            },
                        )
                    } else {
                        Err(ErrorRepr::NotExists)
                    },
                    None => Err(ErrorRepr::NotExists),
                },
                None => Err(ErrorRepr::NotExists),
            },
            DecisionKind::Sell | DecisionKind::Close => Ok(
                -(match pos {
                    Some(p) => p.qty,
                    None => 0,
                }),
            ),
            DecisionKind::Hold => Ok(0),
        };
        match qty_or_err {
            Err(e) => Err(e),
            Ok(qty) => if qty != 0 {
                Ok(
                    Some(
                        OrderV {
                            sym: d.sym,
                            kind: OrderKindV::Market,
                            qty,
                            time: d.time,
                            lifetime: None,
                            status: OrderStatus::Created,
                        },
                    ),
                )
            } else {
                Ok(None)
            },
        }
    }

    fn make_order(&mut self, decision: &Decision, position: Option<&Position>) -> (r: Result<
        Option<Order>,
        ErrorRepr,
    >) {
        let qty: i64 = match decision.kind {
            DecisionKind::Buy => {
                match position {
                    Some(p) => match p.latest_market_close {
                        Some(c) => if c > 0 {
                            let q = self.val / c;
                            if q <= QTY_BOUND as i64 {
                                q
                            } else {
                                QTY_BOUND as i64
                            }
                        } else {
                            return Err(ErrorRepr::NotExists);
                        },
                        None => {
                            return Err(ErrorRepr::NotExists);
                        },
                    },
                    None => {
                        return Err(ErrorRepr::NotExists);
                    },
                }
            },
            DecisionKind::Sell | DecisionKind::Close => {
                -(match position {
                    Some(p) => p.qty as i64,
                    None => 0,
                })
            },
            DecisionKind::Hold => 0,
        };
        if qty != 0 {
            Ok(
                Some(
                    Order {
                        sym: decision.sym.clone(),
                        kind: OrderKind::Market,
                        qty: qty as i32,
                        time: decision.time,
                        lifetime: None,
                        status: OrderStatus::Created,
                    },
                ),
            )
        } else {
            Ok(None)
        }
    }
}

} // verus!
