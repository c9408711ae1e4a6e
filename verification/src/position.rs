//! Per-symbol inventory and profit-and-loss bookkeeping.

use vstd::prelude::*;
use crate::{money_ok, qty_ok, MONEY_BOUND, QTY_BOUND};
use crate::data::Bar;
use crate::errors::ErrorRepr;
use crate::order::{Fill, FillV};
use crate::ratio::{Ratio, RatioV};

verus! {

/// Magnitude bound on the numerator of any stored PnL rational (2^64).
pub const PNL_NUM_BOUND: i128 = 18446744073709551616;

/// Bound on the denominator of any stored PnL rational (2^21): it is either
/// one or the running traded-quantity total, which two `QTY_BOUND` halves cap.
pub const PNL_DEN_BOUND: i128 = 2097152;

/// Bound on the denominator of any stored PnL-ratio rational (2^62): a PnL
/// denominator times a cash high-water mark.
pub const RATIO_DEN_BOUND: i128 = 4611686018427387904;

/// Mathematical model of a position's cumulative statistics.
#[verifier::ext_equal]
pub ghost struct PositionStatsV {
    pub pnl: RatioV,
    pub pnl_ratio: RatioV,
    pub max_pnl: Option<RatioV>,
    pub min_pnl: Option<RatioV>,
    pub qty_sold: int,
    pub qty_bought: int,
    pub value_sold: int,
    pub value_bought: int,
    pub cost: int,
    pub max_cash: int,
    pub transactions: Seq<FillV>,
}

/// The signed quantities of a fill sequence, summed.
pub open spec fn sum_fill_qty(s: Seq<FillV>) -> int
    decreases s.len(),
{
    if s.len() == 0 {
        0
    } else {
        sum_fill_qty(s.drop_last()) + s.last().qty
    }
}

impl PositionStatsV {
    /// Capacity bounds on every stored total and rational.
    pub open spec fn wf(self) -> bool {
        &&& 0 <= self.qty_sold <= QTY_BOUND
        &&& 0 <= self.qty_bought <= QTY_BOUND
        &&& money_ok(self.value_sold)
        &&& money_ok(self.value_bought)
        &&& money_ok(self.cost)
        &&& money_ok(self.max_cash)
        &&& self.pnl.bounded(PNL_NUM_BOUND as int, PNL_DEN_BOUND as int)
        &&& self.pnl_ratio.bounded(PNL_NUM_BOUND as int, RATIO_DEN_BOUND as int)
        &&& match self.max_pnl {
            Some(m) => m.bounded(PNL_NUM_BOUND as int, PNL_DEN_BOUND as int),
            None => true,
        }
        &&& match self.min_pnl {
            Some(m) => m.bounded(PNL_NUM_BOUND as int, PNL_DEN_BOUND as int),
            None => true,
        }
    }

    /// The fresh statistics: everything zero, no PnL extremes recorded yet.
    pub open spec fn spec_default() -> PositionStatsV {
        PositionStatsV {
            pnl: RatioV::of_int(0),
            pnl_ratio: RatioV::of_int(0),
            max_pnl: None,
            min_pnl: None,
            qty_sold: 0,
            qty_bought: 0,
            value_sold: 0,
            value_bought: 0,
            cost: 0,
            max_cash: 0,
            transactions: Seq::empty(),
        }
    }

    /// The volume-weighted average traded price, as an exact rational; zero
    /// when nothing has traded.
    pub open spec fn spec_avg_price(self) -> RatioV {
        if self.qty_bought + self.qty_sold > 0 {
            RatioV {
                num: self.value_sold + self.value_bought,
                den: self.qty_bought + self.qty_sold,
            }
        } else {
            RatioV::of_int(0)
        }
    }
}

/// Mathematical model of a position.
#[verifier::ext_equal]
pub ghost struct PositionV {
    pub sym: Seq<char>,
    pub qty: int,
    pub latest_market_close: Option<int>,
    pub stats: PositionStatsV,
}

impl PositionV {
    /// Capacity bounds, a non-negative quantity, and the quantity invariant:
    /// the held quantity is the sum of the applied fills' signed quantities.
    pub open spec fn wf(self) -> bool {
        &&& 0 <= self.qty <= QTY_BOUND
        &&& match self.latest_market_close {
            Some(c) => money_ok(c),
            None => true,
        }
        &&& self.stats.wf()
        &&& self.qty == sum_fill_qty(self.stats.transactions)
    }

    /// The price PnL is marked against: the latest known close, or the
    /// average traded price while no close has been observed.
    pub open spec fn spec_pnl_base(self) -> RatioV {
        match self.latest_market_close {
            Some(c) => RatioV::of_int(c),
            None => self.stats.spec_avg_price(),
        }
    }

    /// Profit and loss, exactly:
    /// `qty * (latest_close or average_price) + value_sold - value_bought - cost`.
    pub open spec fn spec_pnl(self) -> RatioV {
        let base = self.spec_pnl_base();
        RatioV {
            num: self.qty * base.num + (self.stats.value_sold - self.stats.value_bought
                - self.stats.cost) * base.den,
            den: base.den,
        }
    }
}

/// Recording a newly computed PnL value: the running extremes absorb it, and
/// while a cash high-water mark exists the PnL ratio is renormalised by it.
pub open spec fn spec_update_pnl(s: PositionStatsV, pnl: RatioV) -> PositionStatsV {
    PositionStatsV {
        pnl,
        pnl_ratio: if s.max_cash != 0 {
            RatioV { num: pnl.num, den: pnl.den * s.max_cash }
        } else {
            s.pnl_ratio
        },
        max_pnl: Some(
            match s.max_pnl {
                None => pnl,
                Some(m) => if m.le(pnl) {
                    pnl
                } else {
                    m
                },
            },
        ),
        min_pnl: Some(
            match s.min_pnl {
                None => pnl,
                Some(m) => if pnl.le(m) {
                    pnl
                } else {
                    m
                },
            },
        ),
        qty_sold: s.qty_sold,
        qty_bought: s.qty_bought,
        value_sold: s.value_sold,
        value_bought: s.value_bought,
        cost: s.cost,
        max_cash: s.max_cash,
        transactions: s.transactions,
    }
}

/// Folding one fill into the cumulative statistics: the transaction is
/// logged, its cost accrues, and the bought or sold totals grow by its value.
/// A buy also raises the cash high-water mark to the cash the position has
/// consumed net of PnL already made (`value + cost - floor(pnl)`).
pub open spec fn spec_stats_apply_fill(s: PositionStatsV, f: FillV) -> PositionStatsV {
    let logged = PositionStatsV {
        cost: s.cost + f.cost,
        transactions: s.transactions.push(f),
        ..s
    };
    if f.qty < 0 {
        PositionStatsV {
            qty_sold: s.qty_sold - f.qty,
            value_sold: s.value_sold - f.price * f.qty,
            ..logged
        }
    } else {
        PositionStatsV {
            qty_bought: s.qty_bought + f.qty,
            value_bought: s.value_bought + f.price * f.qty,
            max_cash: if s.max_cash >= f.price * f.qty + f.cost - s.pnl.floor() {
                s.max_cash
            } else {
                f.price * f.qty + f.cost - s.pnl.floor()
            },
            ..logged
        }
    }
}

/// The capacity conditions under which `f` can be folded into `p`: every
/// updated total must stay within ledger bounds.
pub open spec fn spec_fill_fits(p: PositionV, f: FillV) -> bool {
    &&& p.qty + f.qty <= QTY_BOUND
    &&& p.stats.cost + f.cost <= MONEY_BOUND
    &&& if f.qty < 0 {
        p.stats.qty_sold - f.qty <= QTY_BOUND && p.stats.value_sold - f.price * f.qty
            <= MONEY_BOUND
    } else {
        &&& p.stats.qty_bought + f.qty <= QTY_BOUND
        &&& p.stats.value_bought + f.price * f.qty <= MONEY_BOUND
        &&& f.price * f.qty + f.cost - p.stats.pnl.floor() <= MONEY_BOUND
    }
}

/// A fill applied to a position: quantity moves, statistics fold it in, and
/// the PnL (recomputed against the updated state) is recorded.
pub open spec fn spec_position_apply_fill(p: PositionV, f: FillV) -> PositionV {
    let moved = PositionV {
        qty: p.qty + f.qty,
        stats: spec_stats_apply_fill(p.stats, f),
        ..p
    };
    PositionV { stats: spec_update_pnl(moved.stats, moved.spec_pnl()), ..moved }
}

/// A bar marked to market: the close is remembered and the PnL recomputed.
pub open spec fn spec_position_mark(p: PositionV, close: int) -> PositionV {
    let marked = PositionV { latest_market_close: Some(close), ..p };
    PositionV { stats: spec_update_pnl(marked.stats, marked.spec_pnl()), ..marked }
}

/// A position's cumulative statistics. Monetary totals are scaled integers;
/// the PnL figures are exact rationals; `transactions` is the full log of
/// applied fills.
#[derive(Debug)]
pub struct PositionStats {
    pub pnl: Ratio,
    pub pnl_ratio: Ratio,
    pub max_pnl: Option<Ratio>,
    pub min_pnl: Option<Ratio>,
    pub qty_sold: i32,
    pub qty_bought: i32,
    pub value_sold: i64,
    pub value_bought: i64,
    pub cost: i64,
    pub max_cash: i64,
    pub transactions: Vec<Fill>,
}

impl View for PositionStats {
    type V = PositionStatsV;

    open spec fn view(&self) -> PositionStatsV {
        PositionStatsV {
            pnl: self.pnl@,
            pnl_ratio: self.pnl_ratio@,
            max_pnl: match self.max_pnl {
                Some(m) => Some(m@),
                None => None,
            },
            min_pnl: match self.min_pnl {
                Some(m) => Some(m@),
                None => None,
            },
            qty_sold: self.qty_sold as int,
            qty_bought: self.qty_bought as int,
            value_sold: self.value_sold as int,
            value_bought: self.value_bought as int,
            cost: self.cost as int,
            max_cash: self.max_cash as int,
            transactions: self.transactions@.map_values(|f: Fill| f@),
        }
    }
}

impl Clone for PositionStats {
    fn clone(&self) -> (r: Self)
        ensures
            r@ == self@,
    {
        let mut transactions: Vec<Fill> = Vec::new();
        let mut i: usize = 0;
        while i < self.transactions.len()
            invariant
                i <= self.transactions@.len(),
                transactions@ =~= self.transactions@.take(i as int),
            decreases self.transactions@.len() - i,
        {
            transactions.push(self.transactions[i].clone());
            i = i + 1;
        }
        proof {
            assert(self.transactions@.take(self.transactions@.len() as int)
                =~= self.transactions@);
            assert(transactions@.map_values(|f: Fill| f@)
                =~= self.transactions@.map_values(|f: Fill| f@));
        }
        PositionStats {
            pnl: self.pnl,
            pnl_ratio: self.pnl_ratio,
            max_pnl: self.max_pnl,
            min_pnl: self.min_pnl,
            qty_sold: self.qty_sold,
            qty_bought: self.qty_bought,
            value_sold: self.value_sold,
            value_bought: self.value_bought,
            cost: self.cost,
            max_cash: self.max_cash,
            transactions,
        }
    }
}

impl Default for PositionStats {
    /// The fresh statistics: all totals zero, no extremes recorded.
    fn default() -> (r: Self)
        ensures
            r@ == PositionStatsV::spec_default(),
    {
        let r = PositionStats {
            pnl: Ratio::of_int(0),
            pnl_ratio: Ratio::of_int(0),
            max_pnl: None,
            min_pnl: None,
            qty_sold: 0,
            qty_bought: 0,
            value_sold: 0,
            value_bought: 0,
            cost: 0,
            max_cash: 0,
            transactions: Vec::new(),
        };
        proof {
            assert(r@.transactions =~= Seq::<FillV>::empty());
        }
        r
    }
}

/// A per-symbol position: signed inventory (never negative), the latest
/// observed close, and cumulative statistics.
#[derive(Debug)]
pub struct Position {
    pub sym: String,
    pub qty: i32,
    pub latest_market_close: Option<i64>,
    pub stats: PositionStats,
}

impl View for Position {
    type V = PositionV;

    open spec fn view(&self) -> PositionV {
        PositionV {
            sym: self.sym@,
            qty: self.qty as int,
            latest_market_close: match self.latest_market_close {
                Some(c) => Some(c as int),
                None => None,
            },
            stats: self.stats@,
        }
    }
}

impl Clone for Position {
    fn clone(&self) -> (r: Self)
        ensures
            r@ == self@,
    {
        Position {
            sym: self.sym.clone(),
            qty: self.qty,
            latest_market_close: self.latest_market_close,
            stats: self.stats.clone(),
        }
    }
}

impl Default for Position {
    /// The empty position: no symbol, nothing held, no close observed.
    fn default() -> (r: Self)
        ensures
            r@ == (PositionV {
                sym: Seq::<char>::empty(),
                qty: 0,
                latest_market_close: None,
                stats: PositionStatsV::spec_default(),
            }),
            r@.wf(),
    {
        Position {
            sym: String::new(),
            qty: 0,
            latest_market_close: None,
            stats: PositionStats::default(),
        }
    }
}

/// `|a| <= bound_a` and `0 <= b <= bound_b` bound the product.
pub proof fn lemma_abs_mul_bound(a: int, b: int, bound_a: int, bound_b: int)
    by (nonlinear_arith)
    requires
        -bound_a <= a <= bound_a,
        0 <= b <= bound_b,
    ensures
        -(bound_a * bound_b) <= a * b <= bound_a * bound_b,
{
}

impl Position {
    /// Profit and loss, exactly: quantity marked against the latest close
    /// (or, before any close, the average traded price), plus what selling
    /// brought in, minus what buying and commissions took out.
    pub fn pnl(&self) -> (r: Ratio)
        requires
            self@.wf(),
        ensures
            r@ == self@.spec_pnl(),
            r@.bounded(PNL_NUM_BOUND as int, PNL_DEN_BOUND as int),
    {
        let qty = self.qty as i128;
        let vs = self.stats.value_sold as i128;
        let vb = self.stats.value_bought as i128;
        let cost = self.stats.cost as i128;
        proof {
            lemma_abs_mul_bound(self@.qty, self@.spec_pnl_base().num, QTY_BOUND as int, 2 * MONEY_BOUND as int);
            lemma_abs_mul_bound(
                self@.stats.value_sold - self@.stats.value_bought - self@.stats.cost,
                self@.spec_pnl_base().den,
                2 * MONEY_BOUND as int,
                PNL_DEN_BOUND as int,
            );
        }
        match self.latest_market_close {
            Some(c) => {
                Ratio::new(qty * (c as i128) + vs - vb - cost, 1)
            },
            None => {
                let traded = self.stats.qty_bought as i128 + self.stats.qty_sold as i128;
                if traded > 0 {
                    Ratio::new(qty * (vs + vb) + (vs - vb - cost) * traded, traded)
                } else {
                    Ratio::new(vs - vb - cost, 1)
                }
            },
        }
    }
}

impl PositionStats {
    /// Record a newly computed PnL value: store it, fold it into the running
    /// extremes, and renormalise the PnL ratio while a high-water mark
    /// exists.
    fn update_pnl(&mut self, pnl: Ratio)
        requires
            old(self)@.wf(),
            pnl@.bounded(PNL_NUM_BOUND as int, PNL_DEN_BOUND as int),
        ensures
            final(self)@ == spec_update_pnl(old(self)@, pnl@),
            final(self)@.wf(),
    {
        proof {
            lemma_abs_mul_bound(pnl@.den, old(self)@.max_cash, PNL_DEN_BOUND as int, MONEY_BOUND as int);
            let mc = old(self)@.max_cash;
            if mc != 0 {
                assert(pnl@.den * mc >= 1) by (nonlinear_arith)
                    requires
                        pnl@.den >= 1,
                        mc >= 1,
                ;
            }
        }
        if self.max_cash != 0 {
            self.pnl_ratio = Ratio::new(pnl.num, pnl.den * self.max_cash as i128);
        }
        self.max_pnl = Some(
            match self.max_pnl {
                None => pnl,
                Some(m) => {
                    proof {
                        lemma_abs_mul_bound(m@.num, pnl@.den, PNL_NUM_BOUND as int, PNL_DEN_BOUND as int);
                        lemma_abs_mul_bound(pnl@.num, m@.den, PNL_NUM_BOUND as int, PNL_DEN_BOUND as int);
                    }
                    if m.le(&pnl) {
                        pnl
                    } else {
                        m
                    }
                },
            },
        );
        self.min_pnl = Some(
            match self.min_pnl {
                None => pnl,
                Some(m) => {
                    proof {
                        lemma_abs_mul_bound(m@.num, pnl@.den, PNL_NUM_BOUND as int, PNL_DEN_BOUND as int);
                        lemma_abs_mul_bound(pnl@.num, m@.den, PNL_NUM_BOUND as int, PNL_DEN_BOUND as int);
                    }
                    if pnl.le(&m) {
                        pnl
                    } else {
                        m
                    }
                },
            },
        );
        self.pnl = pnl;
    }
}

/// Appending one fill adds its signed quantity to the sum.
proof fn lemma_sum_fill_qty_push(s: Seq<FillV>, f: FillV)
    ensures
        sum_fill_qty(s.push(f)) == sum_fill_qty(s) + f.qty,
{
    assert(s.push(f).drop_last() =~= s);
    assert(s.push(f).last() == f);
}

impl Position {
    /// Apply a fill: rejected with `OutOfBounds` if it would drive the held
    /// quantity negative, with `Fatal` if any updated total would leave
    /// ledger capacity; otherwise the quantity moves, the statistics fold the
    /// fill in, and the PnL is recomputed. A rejected fill leaves the
    /// position untouched.
    pub fn update_from_fill(&mut self, fill: &Fill) -> (r: Result<(), ErrorRepr>)
        requires
            old(self)@.wf(),
            qty_ok(fill@.qty),
            money_ok(fill@.price),
            fill@.cost >= 0,
        ensures
            r is Ok <==> (old(self)@.qty + fill@.qty >= 0 && spec_fill_fits(old(self)@, fill@)),
            r is Ok ==> final(self)@ == spec_position_apply_fill(old(self)@, fill@)
                && final(self)@.wf(),
            r is Err ==> final(self)@ == old(self)@ && r == Err::<(), ErrorRepr>(
                if old(self)@.qty + fill@.qty < 0 {
                    ErrorRepr::OutOfBounds
                } else {
                    ErrorRepr::Fatal
                },
            ),
    {
        proof {
            lemma_abs_mul_bound(fill@.qty, fill@.price, QTY_BOUND as int, MONEY_BOUND as int);
            if fill@.qty < 0 {
                assert(fill@.price * fill@.qty <= 0) by (nonlinear_arith)
                    requires
                        fill@.price >= 0,
                        fill@.qty < 0,
                ;
            } else {
                assert(fill@.price * fill@.qty >= 0) by (nonlinear_arith)
                    requires
                        fill@.price >= 0,
                        fill@.qty >= 0,
                ;
            }
        }
        let q = self.qty as i64 + fill.qty as i64;
        if q < 0 {
            return Err(ErrorRepr::OutOfBounds);
        }
        let price = fill.price as i128;
        let fqty = fill.qty as i128;
        let fcost = fill.cost as i128;
        let val = price * fqty;
        if q > QTY_BOUND as i64 {
            return Err(ErrorRepr::Fatal);
        }
        if self.stats.cost as i128 + fcost > MONEY_BOUND as i128 {
            return Err(ErrorRepr::Fatal);
        }
        if fill.qty < 0 {
            if self.stats.qty_sold as i64 - fill.qty as i64 > QTY_BOUND as i64 {
                return Err(ErrorRepr::Fatal);
            }
            if self.stats.value_sold as i128 - val > MONEY_BOUND as i128 {
                return Err(ErrorRepr::Fatal);
            }
        } else {
            if self.stats.qty_bought as i64 + fill.qty as i64 > QTY_BOUND as i64 {
                return Err(ErrorRepr::Fatal);
            }
            if self.stats.value_bought as i128 + val > MONEY_BOUND as i128 {
                return Err(ErrorRepr::Fatal);
            }
            let floor_pnl = self.stats.pnl.floor();
            if val + fcost - floor_pnl > MONEY_BOUND as i128 {
                return Err(ErrorRepr::Fatal);
            }
        }
        self.qty = q as i32;
        self.stats.cost = (self.stats.cost as i128 + fcost) as i64;
        self.stats.transactions.push(fill.clone());
        if fill.qty < 0 {
            self.stats.qty_sold = self.stats.qty_sold - fill.qty;
            self.stats.value_sold = (self.stats.value_sold as i128 - val) as i64;
        } else {
            self.stats.qty_bought = self.stats.qty_bought + fill.qty;
            self.stats.value_bought = (self.stats.value_bought as i128 + val) as i64;
            let floor_pnl = self.stats.pnl.floor();
            let cand = val + fcost - floor_pnl;
            if (self.stats.max_cash as i128) < cand {
                self.stats.max_cash = cand as i64;
            }
        }
        proof {
            lemma_sum_fill_qty_push(old(self)@.stats.transactions, fill@);
            assert(self.stats@.transactions =~= old(self)@.stats.transactions.push(fill@));
            assert(self.stats@ == spec_stats_apply_fill(old(self)@.stats, fill@));
            assert(self@ == (PositionV {
                qty: old(self)@.qty + fill@.qty,
                stats: spec_stats_apply_fill(old(self)@.stats, fill@),
                ..old(self)@
            }));
        }
        let new_pnl = self.pnl();
        self.stats.update_pnl(new_pnl);
        Ok(())
    }

    /// Mark to market: remember the bar's close and recompute the PnL. Never
    /// fails.
    pub fn update_from_market(&mut self, data: Bar)
        requires
            old(self)@.wf(),
            data@.wf(),
        ensures
            final(self)@ == spec_position_mark(old(self)@, data@.close),
            final(self)@.wf(),
    {
        self.latest_market_close = Some(data.close);
        let new_pnl = self.pnl();
        self.stats.update_pnl(new_pnl);
    }
}

/// Two ledger-bounded PnL-ratio rationals cross-multiply without leaving
/// 128-bit arithmetic, so they can be compared exactly.
pub proof fn lemma_ratio_cmp_in_range(a: RatioV, b: RatioV)
    requires
        a.bounded(PNL_NUM_BOUND as int, RATIO_DEN_BOUND as int),
        b.bounded(PNL_NUM_BOUND as int, RATIO_DEN_BOUND as int),
    ensures
        a.wf(),
        b.wf(),
        i128::MIN <= a.num * b.den <= i128::MAX,
        i128::MIN <= b.num * a.den <= i128::MAX,
{
    lemma_abs_mul_bound(a.num, b.den, PNL_NUM_BOUND as int, RATIO_DEN_BOUND as int);
    lemma_abs_mul_bound(b.num, a.den, PNL_NUM_BOUND as int, RATIO_DEN_BOUND as int);
}

/// Quantity invariant: a well-formed position holds exactly the sum of the
/// signed quantities of the fills it has applied, and never a negative
/// amount.
pub proof fn lemma_quantity_invariant(p: PositionV)
    requires
        p.wf(),
    ensures
        p.qty == sum_fill_qty(p.stats.transactions),
        p.qty >= 0,
{
}

} // verus!
