//! The ledger: cash, the positions of every traded symbol, and statistics.

use vstd::prelude::*;
use crate::{money_ok, qty_ok, MONEY_BOUND};
use crate::data::Bar;
use crate::errors::ErrorRepr;
use crate::order::{make_order_result_view, Fill, FillV, Order, OrderManager, OrderV};
use crate::position::{
    PNL_NUM_BOUND, RATIO_DEN_BOUND,
    spec_fill_fits, spec_position_apply_fill, spec_position_mark, Position, PositionStatsV,
    PositionV,
};
use crate::ratio::{Ratio, RatioV};
use crate::strategy::{Decision, DecisionV};

verus! {

/// Largest number of positions one portfolio holds (2^30): keeps statistic
/// sums inside 128-bit arithmetic.
pub const POS_CAP: usize = 1073741824;

/// Mathematical model of a portfolio: cash, its immutable initial snapshot,
/// the positions in insertion order, and the order-allocation policy.
#[verifier::ext_equal]
pub ghost struct PortfolioV<M> {
    pub init_cash: int,
    pub cash: int,
    pub positions: Seq<PositionV>,
    pub manager: M,
}

impl<M> PortfolioV<M> {
    /// Cash within capacity, every position well-formed, symbols unique, and
    /// the position count within capacity.
    pub open spec fn wf(self) -> bool {
        &&& money_ok(self.cash)
        &&& money_ok(self.init_cash)
        &&& self.positions.len() <= POS_CAP
        &&& forall|i: int| 0 <= i < self.positions.len() ==> (#[trigger] self.positions[i]).wf()
        &&& forall|i: int, j: int|
            0 <= i < j < self.positions.len() ==> self.positions[i].sym
                != self.positions[j].sym
    }
}

/// The index of the first position with symbol `sym`, if any.
pub open spec fn spec_find_position(ps: Seq<PositionV>, sym: Seq<char>) -> Option<int>
    decreases ps.len(),
{
    if ps.len() == 0 {
        None
    } else if ps[0].sym == sym {
        Some(0)
    } else {
        match spec_find_position(ps.subrange(1, ps.len() as int), sym) {
            Some(i) => Some(i + 1),
            None => None,
        }
    }
}

/// `spec_find_position` finds exactly the first match: `Some(i)` iff `i` is a
/// match and nothing before it is; `None` iff nothing matches.
pub proof fn lemma_find_position(ps: Seq<PositionV>, sym: Seq<char>)
    ensures
        match spec_find_position(ps, sym) {
            Some(i) => 0 <= i < ps.len() && ps[i].sym == sym && forall|j: int|
                0 <= j < i ==> (#[trigger] ps[j]).sym != sym,
            None => forall|j: int| 0 <= j < ps.len() ==> (#[trigger] ps[j]).sym != sym,
        },
    decreases ps.len(),
{
    if ps.len() > 0 && ps[0].sym != sym {
        lemma_find_position(ps.subrange(1, ps.len() as int), sym);
        assert forall|j: int| 1 <= j < ps.len() implies ps.subrange(1, ps.len() as int)[j - 1]
            == ps[j] by {}
    }
}

/// When `i` is a match for `sym` and nothing before it is, the find returns
/// exactly `i`.
pub proof fn lemma_find_position_eq(ps: Seq<PositionV>, sym: Seq<char>, i: int)
    requires
        0 <= i < ps.len(),
        ps[i].sym == sym,
        forall|j: int| 0 <= j < i ==> (#[trigger] ps[j]).sym != sym,
    ensures
        spec_find_position(ps, sym) == Some(i),
    decreases ps.len(),
{
    if i > 0 {
        let tail = ps.subrange(1, ps.len() as int);
        assert forall|j: int| 0 <= j < i - 1 implies (#[trigger] tail[j]).sym != sym by {
            assert(tail[j] == ps[j + 1]);
        }
        assert(tail[i - 1] == ps[i]);
        lemma_find_position_eq(tail, sym, i - 1);
    }
}

/// The position registered for `sym`, if any.
pub open spec fn spec_position_at<M>(p: PortfolioV<M>, sym: Seq<char>) -> Option<PositionV> {
    match spec_find_position(p.positions, sym) {
        Some(i) => Some(p.positions[i]),
        None => None,
    }
}

/// The empty position that registering `sym` creates.
pub open spec fn spec_fresh_position(sym: Seq<char>) -> PositionV {
    PositionV { sym, qty: 0, latest_market_close: None, stats: PositionStatsV::spec_default() }
}

/// Registering `sym`: the index of its position, creating an empty one at
/// the back if the symbol is new; fails only when the portfolio is full.
pub open spec fn spec_ensure_position<M>(p: PortfolioV<M>, sym: Seq<char>) -> Result<
    (PortfolioV<M>, int),
    ErrorRepr,
> {
    match spec_find_position(p.positions, sym) {
        Some(i) => Ok((p, i)),
        None => if p.positions.len() < POS_CAP {
            Ok(
                (
                    PortfolioV { positions: p.positions.push(spec_fresh_position(sym)), ..p },
                    p.positions.len() as int,
                ),
            )
        } else {
            Err(ErrorRepr::Fatal)
        },
    }
}

/// A fill routed to its symbol's position (registered first if new). The
/// position may reject the fill; the registration is kept either way, and
/// cash is untouched — settlement is the venue's wallet path.
pub open spec fn spec_portfolio_apply_fill<M>(p: PortfolioV<M>, f: FillV) -> (
    PortfolioV<M>,
    Result<(), ErrorRepr>,
) {
    match spec_ensure_position(p, f.sym) {
        Err(e) => (p, Err(e)),
        Ok((p1, i)) => {
            let pos = p1.positions[i];
            if pos.qty + f.qty < 0 {
                (p1, Err(ErrorRepr::OutOfBounds))
            } else if !spec_fill_fits(pos, f) {
                (p1, Err(ErrorRepr::Fatal))
            } else {
                (
                    PortfolioV {
                        positions: p1.positions.update(i, spec_position_apply_fill(pos, f)),
                        ..p1
                    },
                    Ok(()),
                )
            }
        },
    }
}

/// A bar marked to market against its symbol's position (registered first if
/// new).
pub open spec fn spec_portfolio_mark<M>(p: PortfolioV<M>, bar: crate::data::BarV) -> Result<
    PortfolioV<M>,
    ErrorRepr,
> {
    match spec_ensure_position(p, bar.sym) {
        Err(e) => Err(e),
        Ok((p1, i)) => Ok(
            PortfolioV {
                positions: p1.positions.update(
                    i,
                    spec_position_mark(p1.positions[i], bar.close),
                ),
                ..p1
            },
        ),
    }
}

/// The ledger for one run (or one group of runs sharing capital): a cash
/// balance, its initial snapshot, one position per traded symbol in first-use
/// order, and the order-allocation policy.
#[derive(Debug)]
pub struct SimplePortfolio<T> {
    pub init_cash: i64,
    pub cash: i64,
    pub order_manager: T,
    pub positions: Vec<Position>,
}

impl<T> View for SimplePortfolio<T> {
    type V = PortfolioV<T>;

    open spec fn view(&self) -> PortfolioV<T> {
        PortfolioV {
            init_cash: self.init_cash as int,
            cash: self.cash as int,
            positions: self.positions@.map_values(|p: Position| p@),
            manager: self.order_manager,
        }
    }
}

impl<T> SimplePortfolio<T> {
    /// A fresh portfolio: `cash` is both the balance and the immutable
    /// initial snapshot; no positions yet.
    pub fn new(cash: i64, order_manager: T) -> (r: Self)
        requires
            money_ok(cash as int),
        ensures
            r@ == (PortfolioV {
                init_cash: cash as int,
                cash: cash as int,
                positions: Seq::<PositionV>::empty(),
                manager: order_manager,
            }),
            r@.wf(),
    {
        let r = SimplePortfolio { init_cash: cash, cash, order_manager, positions: Vec::new() };
        proof {
            assert(r@.positions =~= Seq::<PositionV>::empty());
        }
        r
    }

    /// The current cash balance.
    pub fn balance(&self) -> (r: i64)
        ensures
            r as int == self@.cash,
    {
        self.cash
    }

    /// Overwrite the cash balance.
    pub fn set_balance(&mut self, money: i64)
        requires
            money_ok(money as int),
        ensures
            final(self)@ == (PortfolioV { cash: money as int, ..old(self)@ }),
    {
        self.cash = money;
        proof {
            assert(self@ =~= (PortfolioV { cash: money as int, ..old(self)@ }));
        }
    }

    /// Pay `money` out of the balance (a negative amount is a credit). The
    /// mutation is rejected — `None`, balance untouched — exactly when it
    /// would drive cash negative or past ledger capacity; otherwise the new
    /// balance is returned.
    pub fn pay(&mut self, money: i64) -> (r: Option<i64>)
        requires
            old(self)@.wf(),
        ensures
            r is Some <==> 0 <= old(self)@.cash - money <= MONEY_BOUND,
            match r {
                Some(rem) => rem as int == old(self)@.cash - money && final(self)@ == (
                PortfolioV { cash: old(self)@.cash - money as int, ..old(self)@ }),
                None => final(self)@ == old(self)@,
            },
    {
        let rem = self.cash as i128 - money as i128;
        if rem < 0 || rem > MONEY_BOUND as i128 {
            None
        } else {
            self.cash = rem as i64;
            proof {
                assert(self@ =~= (PortfolioV { cash: old(self)@.cash - money as int, ..old(self)@ }));
            }
            Some(self.cash)
        }
    }

    /// The index of `sym`'s position, registering an empty one if the symbol
    /// is new; fails only when the portfolio is full.
    #[verifier::loop_isolation(false)]
    fn ensure_position(&mut self, sym: &String) -> (r: Result<usize, ErrorRepr>)
        requires
            old(self)@.wf(),
        ensures
            final(self)@.wf(),
            match r {
                Ok(i) => {
                    &&& spec_ensure_position(old(self)@, sym@) matches Ok((pv, vi))
                        && final(self)@ == pv && i as int == vi
                    &&& i < final(self)@.positions.len()
                    &&& final(self)@.positions[i as int].sym == sym@
                },
                Err(e) => final(self)@ == old(self)@ && spec_ensure_position(old(self)@, sym@)
                    == Err::<(PortfolioV<T>, int), ErrorRepr>(e),
            },
    {
        proof {
            lemma_find_position(old(self)@.positions, sym@);
        }
        let n = self.positions.len();
        let mut i: usize = 0;
        while i < n
            invariant
                n == self.positions@.len(),
                i <= n,
                *self == *old(self),
                forall|j: int| 0 <= j < i ==> (#[trigger] self@.positions[j]).sym != sym@,
            decreases n - i,
        {
            if self.positions[i].sym == *sym {
                proof {
                    lemma_find_position_eq(old(self)@.positions, sym@, i as int);
                }
                return Ok(i);
            }
            i = i + 1;
        }
        if n >= POS_CAP {
            return Err(ErrorRepr::Fatal);
        }
        let mut fresh = Position::default();
        fresh.sym = sym.clone();
        self.positions.push(fresh);
        proof {
            assert(self@.positions =~= old(self)@.positions.push(spec_fresh_position(sym@)));
            assert(self@ =~= (PortfolioV {
                positions: old(self)@.positions.push(spec_fresh_position(sym@)),
                ..old(self)@
            }));
        }
        Ok(n)
    }

    /// Route a fill to its symbol's position. The position rejects a fill
    /// that would drive its quantity negative (`OutOfBounds`) or past
    /// capacity (`Fatal`); cash is untouched either way — settlement is the
    /// venue's wallet path.
    pub fn update_from_fill(&mut self, fill: &Fill) -> (r: Result<(), ErrorRepr>)
        requires
            old(self)@.wf(),
            qty_ok(fill@.qty),
            money_ok(fill@.price),
            fill@.cost >= 0,
        ensures
            final(self)@.wf(),
            final(self)@ == spec_portfolio_apply_fill(old(self)@, fill@).0,
            r == spec_portfolio_apply_fill(old(self)@, fill@).1,
    {
        let idx = match self.ensure_position(&fill.sym) {
            Ok(i) => i,
            Err(e) => {
                return Err(e);
            },
        };
        let ghost mid = self@;
        let pos = &mut self.positions[idx];
        let r = pos.update_from_fill(fill);
        proof {
            assert(self@.positions =~= mid.positions.update(
                idx as int,
                self@.positions[idx as int],
            ));
            if r is Ok {
                assert(self@ =~= (PortfolioV {
                    positions: mid.positions.update(
                        idx as int,
                        spec_position_apply_fill(mid.positions[idx as int], fill@),
                    ),
                    ..mid
                }));
            } else {
                assert(self@.positions =~= mid.positions);
                assert(self@ =~= mid);
            }
            let rr = spec_portfolio_apply_fill(old(self)@, fill@).1;
            match r {
                Ok(u) => {
                    assert(rr is Ok);
                    assert(r == rr);
                },
                Err(e) => {
                    assert(rr is Err && rr->Err_0 == e);
                    assert(r == rr);
                },
            }
        }
        r
    }

    /// Mark a bar to market against its symbol's position, registering the
    /// symbol if it is new; fails only when the portfolio is full.
    pub fn update_from_market(&mut self, data: &Bar) -> (r: Result<(), ErrorRepr>)
        requires
            old(self)@.wf(),
            data@.wf(),
        ensures
            final(self)@.wf(),
            match spec_portfolio_mark(old(self)@, data@) {
                Ok(pv) => r is Ok && final(self)@ == pv,
                Err(e) => r == Err::<(), ErrorRepr>(e) && final(self)@ == old(self)@,
            },
    {
        let idx = match self.ensure_position(&data.sym) {
            Ok(i) => i,
            Err(e) => {
                return Err(e);
            },
        };
        let ghost mid = self@;
        let bar_copy = data.clone();
        let pos = &mut self.positions[idx];
        pos.update_from_market(bar_copy);
        proof {
            assert(self@ =~= (PortfolioV {
                positions: mid.positions.update(
                    idx as int,
                    spec_position_mark(mid.positions[idx as int], data@.close),
                ),
                ..mid
            }));
        }
        Ok(())
    }
}

// ---------------------------------------------------------------------------
// Statistics
// ---------------------------------------------------------------------------

/// The floors of the positions' PnL rationals, summed.
pub open spec fn sum_floor_pnl(ps: Seq<PositionV>) -> int
    decreases ps.len(),
{
    if ps.len() == 0 {
        0
    } else {
        sum_floor_pnl(ps.drop_last()) + ps.last().stats.pnl.floor()
    }
}

/// Stable insertion into a descending-by-PnL-ratio sequence: `x` moves past
/// exactly the strictly smaller tail elements, so equal ratios keep their
/// existing order.
pub open spec fn spec_insert_desc(t: Seq<PositionV>, x: PositionV) -> Seq<PositionV>
    decreases t.len(),
{
    if t.len() == 0 {
        seq![x]
    } else if t.last().stats.pnl_ratio.lt(x.stats.pnl_ratio) {
        spec_insert_desc(t.drop_last(), x).push(t.last())
    } else {
        t.push(x)
    }
}

/// Insertion sort, descending by PnL ratio and stable.
pub open spec fn spec_sort_desc(s: Seq<PositionV>) -> Seq<PositionV>
    decreases s.len(),
{
    if s.len() == 0 {
        Seq::empty()
    } else {
        spec_insert_desc(spec_sort_desc(s.drop_last()), s.last())
    }
}

/// Descending order by PnL ratio.
pub open spec fn spec_sorted_desc(s: Seq<PositionV>) -> bool {
    forall|i: int, j: int|
        0 <= i <= j < s.len() ==> (#[trigger] s[j]).stats.pnl_ratio.le(
            (#[trigger] s[i]).stats.pnl_ratio,
        )
}

/// Inserting splits the sequence at the insertion point: when every element
/// from `j` on has a strictly smaller ratio than `x` and the one before `j`
/// (if any) does not, the insertion puts `x` exactly at `j`.
proof fn lemma_insert_desc_at(t: Seq<PositionV>, x: PositionV, j: int)
    requires
        0 <= j <= t.len(),
        forall|k: int|
            j <= k < t.len() ==> (#[trigger] t[k]).stats.pnl_ratio.lt(x.stats.pnl_ratio),
        j > 0 ==> !t[j - 1].stats.pnl_ratio.lt(x.stats.pnl_ratio),
    ensures
        spec_insert_desc(t, x) == t.subrange(0, j) + seq![x] + t.subrange(j, t.len() as int),
    decreases t.len(),
{
    if t.len() == 0 {
        assert(spec_insert_desc(t, x) =~= t.subrange(0, j) + seq![x] + t.subrange(
            j,
            t.len() as int,
        ));
    } else if t.last().stats.pnl_ratio.lt(x.stats.pnl_ratio) {
        assert(j < t.len());
        lemma_insert_desc_at(t.drop_last(), x, j);
        assert(spec_insert_desc(t, x) =~= t.subrange(0, j) + seq![x] + t.subrange(
            j,
            t.len() as int,
        ));
    } else {
        assert(j == t.len());
        assert(spec_insert_desc(t, x) =~= t.subrange(0, j) + seq![x] + t.subrange(
            j,
            t.len() as int,
        ));
    }
}

/// What comes out of an insertion is the input elements plus `x`.
proof fn lemma_insert_desc_multiset(t: Seq<PositionV>, x: PositionV)
    ensures
        spec_insert_desc(t, x).to_multiset() == t.to_multiset().insert(x),
        spec_insert_desc(t, x).len() == t.len() + 1,
    decreases t.len(),
{
    broadcast use vstd::seq_lib::group_to_multiset_ensures;

    if t.len() == 0 {
        assert(seq![x] =~= Seq::<PositionV>::empty().push(x));
        assert(spec_insert_desc(t, x).to_multiset() =~= t.to_multiset().insert(x));
    } else if t.last().stats.pnl_ratio.lt(x.stats.pnl_ratio) {
        lemma_insert_desc_multiset(t.drop_last(), x);
        assert(t.drop_last().push(t.last()) =~= t);
        assert(spec_insert_desc(t, x).to_multiset() =~= t.to_multiset().insert(x));
    } else {
        assert(spec_insert_desc(t, x).to_multiset() =~= t.to_multiset().insert(x));
    }
}

/// Sorting permutes: the ranked list holds exactly the portfolio's positions.
pub proof fn lemma_sort_desc_multiset(s: Seq<PositionV>)
    ensures
        spec_sort_desc(s).to_multiset() == s.to_multiset(),
        spec_sort_desc(s).len() == s.len(),
    decreases s.len(),
{
    broadcast use vstd::seq_lib::group_to_multiset_ensures;

    if s.len() > 0 {
        lemma_sort_desc_multiset(s.drop_last());
        lemma_insert_desc_multiset(spec_sort_desc(s.drop_last()), s.last());
        assert(s.drop_last().push(s.last()) =~= s);
    }
}

/// Every element of an insertion result is `x` or an input element.
proof fn lemma_insert_desc_elems(t: Seq<PositionV>, x: PositionV, k: int)
    requires
        0 <= k < spec_insert_desc(t, x).len(),
    ensures
        spec_insert_desc(t, x)[k] == x || t.contains(spec_insert_desc(t, x)[k]),
    decreases t.len(),
{
    lemma_insert_desc_multiset(t, x);
    if t.len() > 0 && t.last().stats.pnl_ratio.lt(x.stats.pnl_ratio) {
        lemma_insert_desc_multiset(t.drop_last(), x);
        if k < spec_insert_desc(t, x).len() - 1 {
            lemma_insert_desc_elems(t.drop_last(), x, k);
            if t.drop_last().contains(spec_insert_desc(t.drop_last(), x)[k]) {
                let w = choose|w: int|
                    0 <= w < t.drop_last().len() && t.drop_last()[w] == spec_insert_desc(
                        t.drop_last(),
                        x,
                    )[k];
                assert(t[w] == spec_insert_desc(t, x)[k]);
            }
        } else {
            assert(spec_insert_desc(t, x)[k] == t.last());
            assert(t[t.len() - 1] == t.last());
        }
    } else if t.len() > 0 {
        if k < t.len() {
            assert(spec_insert_desc(t, x)[k] == t[k]);
        }
    }
}

/// Inserting into a descending sequence keeps it descending; the inserted
/// element's ratio must be comparable (positive denominators all round).
proof fn lemma_insert_desc_sorted(t: Seq<PositionV>, x: PositionV)
    requires
        spec_sorted_desc(t),
        x.stats.pnl_ratio.wf(),
        forall|k: int| 0 <= k < t.len() ==> (#[trigger] t[k]).stats.pnl_ratio.wf(),
    ensures
        spec_sorted_desc(spec_insert_desc(t, x)),
    decreases t.len(),
{
    let out = spec_insert_desc(t, x);
    if t.len() == 0 {
    } else if t.last().stats.pnl_ratio.lt(x.stats.pnl_ratio) {
        assert(spec_sorted_desc(t.drop_last())) by {
            assert forall|i: int, j: int|
                0 <= i <= j < t.drop_last().len() implies (#[trigger] t.drop_last()[j]).stats.pnl_ratio.le(
                (#[trigger] t.drop_last()[i]).stats.pnl_ratio,
            ) by {
                assert(t[j].stats.pnl_ratio.le(t[i].stats.pnl_ratio));
            }
        }
        lemma_insert_desc_sorted(t.drop_last(), x);
        let inner = spec_insert_desc(t.drop_last(), x);
        lemma_insert_desc_multiset(t.drop_last(), x);
        assert forall|i: int, j: int| 0 <= i <= j < out.len() implies (#[trigger] out[j]).stats.pnl_ratio.le(
            (#[trigger] out[i]).stats.pnl_ratio,
        ) by {
            if j < out.len() - 1 {
                assert(out[i] == inner[i] && out[j] == inner[j]);
            } else if i < out.len() - 1 {
                // out[j] is t.last(); every inner element is x or from t.drop_last()
                lemma_insert_desc_elems(t.drop_last(), x, i);
                assert(out[i] == inner[i]);
                if inner[i] == x {
                    // t.last() < x
                    assert(t.last().stats.pnl_ratio.le(x.stats.pnl_ratio));
                } else {
                    let w = choose|w: int|
                        0 <= w < t.drop_last().len() && t.drop_last()[w] == inner[i];
                    assert(t[w] == inner[i]);
                    assert(t.last() == t[t.len() - 1]);
                    assert(t.last().stats.pnl_ratio.le(t[w].stats.pnl_ratio));
                }
            }
        }
    } else {
        // x goes at the back: x <= t.last() <= every earlier element
        assert forall|i: int, j: int| 0 <= i <= j < out.len() implies (#[trigger] out[j]).stats.pnl_ratio.le(
            (#[trigger] out[i]).stats.pnl_ratio,
        ) by {
            if j < t.len() {
                assert(out[i] == t[i] && out[j] == t[j]);
            } else if i < t.len() {
                assert(out[j] == x && out[i] == t[i]);
                assert(x.stats.pnl_ratio.le(t.last().stats.pnl_ratio));
                assert(t.last() == t[t.len() - 1]);
                assert(t.last().stats.pnl_ratio.le(t[i].stats.pnl_ratio));
                crate::ratio::lemma_ratio_le_transitive(
                    x.stats.pnl_ratio,
                    t.last().stats.pnl_ratio,
                    t[i].stats.pnl_ratio,
                );
            }
        }
    }
}

/// The ranked list is in descending PnL-ratio order.
pub proof fn lemma_sort_desc_sorted(s: Seq<PositionV>)
    requires
        forall|k: int| 0 <= k < s.len() ==> (#[trigger] s[k]).stats.pnl_ratio.wf(),
    ensures
        spec_sorted_desc(spec_sort_desc(s)),
    decreases s.len(),
{
    if s.len() > 0 {
        assert forall|k: int| 0 <= k < s.drop_last().len() implies (#[trigger] s.drop_last()[k]).stats.pnl_ratio.wf() by {
            assert(s.drop_last()[k] == s[k]);
        }
        lemma_sort_desc_sorted(s.drop_last());
        let sorted = spec_sort_desc(s.drop_last());
        lemma_sort_desc_multiset(s.drop_last());
        assert forall|k: int| 0 <= k < sorted.len() implies (#[trigger] sorted[k]).stats.pnl_ratio.wf() by {
            broadcast use vstd::seq_lib::group_to_multiset_ensures;

            assert(sorted.contains(sorted[k]));
            assert(sorted.to_multiset().count(sorted[k]) > 0);
            assert(s.drop_last().to_multiset().count(sorted[k]) > 0);
            assert(s.drop_last().contains(sorted[k]));
            let w = choose|w: int|
                0 <= w < s.drop_last().len() && s.drop_last()[w] == sorted[k];
            assert(s.drop_last()[w].stats.pnl_ratio.wf());
        }
        lemma_insert_desc_sorted(sorted, s.last());
    }
}

/// Mathematical model of the aggregate statistics.
#[verifier::ext_equal]
pub ghost struct PortfolioStatsV {
    pub pnl: int,
    pub init_cash: int,
    pub cash: int,
    pub pnl_ratio: RatioV,
    pub positions: Seq<PositionV>,
}

/// The aggregate statistics of a portfolio: total PnL (the sum of the
/// positions' PnL floors — exact whenever every position has been marked to
/// market), the cash figures, the PnL ratio over initial cash (zero while no
/// cash was put in), and the positions ranked descending by PnL ratio
/// (stably, so equal ratios keep first-use order).
pub open spec fn spec_portfolio_stats<M>(p: PortfolioV<M>) -> PortfolioStatsV {
    let pnl = sum_floor_pnl(p.positions);
    PortfolioStatsV {
        pnl,
        init_cash: p.init_cash,
        cash: p.cash,
        pnl_ratio: if p.init_cash > 0 {
            RatioV { num: pnl, den: p.init_cash }
        } else {
            RatioV::of_int(0)
        },
        positions: spec_sort_desc(p.positions),
    }
}

/// Aggregate statistics: total PnL, cash, PnL ratio, and the ranked
/// positions.
#[derive(Debug)]
pub struct PortfolioStats {
    pub pnl: i128,
    pub init_cash: i64,
    pub cash: i64,
    pub pnl_ratio: Ratio,
    pub positions: Vec<Position>,
}

impl View for PortfolioStats {
    type V = PortfolioStatsV;

    open spec fn view(&self) -> PortfolioStatsV {
        PortfolioStatsV {
            pnl: self.pnl as int,
            init_cash: self.init_cash as int,
            cash: self.cash as int,
            pnl_ratio: self.pnl_ratio@,
            positions: self.positions@.map_values(|p: Position| p@),
        }
    }
}

/// Derives aggregate statistics from a state.
pub trait Statistics {
    type Stats;

    /// What the receiver must satisfy before statistics can be derived.
    spec fn stats_requires(&self) -> bool;

    /// What the derived statistics are, exactly.
    spec fn stats_ensures(&self, r: &Self::Stats) -> bool;

    /// Derive the statistics.
    fn stats(&self) -> (r: Self::Stats)
        requires
            self.stats_requires(),
        ensures
            self.stats_ensures(&r),
    ;
}

/// Insert a position into a ranked vector at the point `spec_insert_desc`
/// describes.
fn insert_desc(sorted: &mut Vec<Position>, x: Position)
    requires
        forall|k: int|
            0 <= k < old(sorted)@.len() ==> (#[trigger] old(sorted)@[k]@).stats.pnl_ratio.bounded(
                crate::position::PNL_NUM_BOUND as int,
                crate::position::RATIO_DEN_BOUND as int,
            ),
        x@.stats.pnl_ratio.bounded(
            crate::position::PNL_NUM_BOUND as int,
            crate::position::RATIO_DEN_BOUND as int,
        ),
    ensures
        final(sorted)@.map_values(|p: Position| p@) == spec_insert_desc(
            old(sorted)@.map_values(|p: Position| p@),
            x@,
        ),
        forall|k: int|
            0 <= k < final(sorted)@.len() ==> (#[trigger] final(sorted)@[k]@).stats.pnl_ratio.bounded(
                crate::position::PNL_NUM_BOUND as int,
                crate::position::RATIO_DEN_BOUND as int,
            ),
{
    let ghost t = old(sorted)@.map_values(|p: Position| p@);
    proof {
        assert forall|k: int| 0 <= k < t.len() implies (#[trigger] t[k]).stats.pnl_ratio.bounded(
            PNL_NUM_BOUND as int,
            RATIO_DEN_BOUND as int,
        ) by {
            assert(t[k] == old(sorted)@[k]@);
        }
    }
    let mut j: usize = sorted.len();
    loop
        invariant
            j <= sorted@.len(),
            *sorted == *old(sorted),
            t == old(sorted)@.map_values(|p: Position| p@),
            x@.stats.pnl_ratio.bounded(PNL_NUM_BOUND as int, RATIO_DEN_BOUND as int),
            forall|k: int|
                0 <= k < t.len() ==> (#[trigger] t[k]).stats.pnl_ratio.bounded(
                    PNL_NUM_BOUND as int,
                    RATIO_DEN_BOUND as int,
                ),
            forall|k: int|
                j <= k < t.len() ==> (#[trigger] t[k]).stats.pnl_ratio.lt(x@.stats.pnl_ratio),
        ensures
            j <= t.len(),
            *sorted == *old(sorted),
            forall|k: int|
                j <= k < t.len() ==> (#[trigger] t[k]).stats.pnl_ratio.lt(x@.stats.pnl_ratio),
            j > 0 ==> !t[j - 1].stats.pnl_ratio.lt(x@.stats.pnl_ratio),
        decreases j,
    {
        if j == 0 {
            break;
        }
        proof {
            assert(sorted@[j - 1 as int]@ == t[j - 1 as int]);
            crate::position::lemma_ratio_cmp_in_range(
                sorted@[j - 1 as int]@.stats.pnl_ratio,
                x@.stats.pnl_ratio,
            );
        }
        if !sorted[j - 1].stats.pnl_ratio.lt(&x.stats.pnl_ratio) {
            break;
        }
        j = j - 1;
    }
    proof {
        lemma_insert_desc_at(t, x@, j as int);
    }
    sorted.insert(j, x);
    proof {
        let out = old(sorted)@.map_values(|p: Position| p@);
        assert(sorted@.map_values(|p: Position| p@) =~= t.subrange(0, j as int) + seq![x@]
            + t.subrange(j as int, t.len() as int));
    }
}

impl<T> Statistics for SimplePortfolio<T> {
    type Stats = PortfolioStats;

    /// The portfolio must be well-formed.
    open spec fn stats_requires(&self) -> bool {
        self@.wf()
    }

    /// The result is exactly `spec_portfolio_stats` of the portfolio.
    open spec fn stats_ensures(&self, r: &PortfolioStats) -> bool {
        r@ == spec_portfolio_stats(self@)
    }

    /// Total PnL, the cash figures, the PnL ratio over initial cash, and the
    /// positions ranked descending by PnL ratio (stably: equal ratios keep
    /// first-use order).
    #[verifier::loop_isolation(false)]
    fn stats(&self) -> (r: PortfolioStats) {
        let n = self.positions.len();
        let mut total: i128 = 0;
        let mut i: usize = 0;
        proof {
            assert(self@.positions.take(0) =~= Seq::<PositionV>::empty());
        }
        while i < n
            invariant
                i <= n,
                total as int == sum_floor_pnl(self@.positions.take(i as int)),
                -(i as int * (PNL_NUM_BOUND as int + 1)) <= total as int <= i as int * (
                PNL_NUM_BOUND as int + 1),
            decreases n - i,
        {
            proof {
                assert(self@.positions.take(i as int + 1).drop_last() =~= self@.positions.take(
                    i as int,
                ));
                assert(self@.positions[i as int].wf());
            }
            let f = self.positions[i].stats.pnl.floor();
            total = total + f;
            i = i + 1;
        }
        proof {
            assert(self@.positions.take(n as int) =~= self@.positions);
        }
        let pnl_ratio = if self.init_cash > 0 {
            Ratio::new(total, self.init_cash as i128)
        } else {
            Ratio::of_int(0)
        };
        let mut ranked: Vec<Position> = Vec::new();
        let mut i: usize = 0;
        proof {
            assert(ranked@.map_values(|p: Position| p@) =~= spec_sort_desc(
                self@.positions.take(0),
            ));
        }
        while i < n
            invariant
                i <= n,
                ranked@.map_values(|p: Position| p@) == spec_sort_desc(
                    self@.positions.take(i as int),
                ),
                forall|k: int|
                    0 <= k < ranked@.len() ==> (#[trigger] ranked@[k]@).stats.pnl_ratio.bounded(
                        crate::position::PNL_NUM_BOUND as int,
                        crate::position::RATIO_DEN_BOUND as int,
                    ),
            decreases n - i,
        {
            proof {
                assert(self@.positions.take(i as int + 1).drop_last() =~= self@.positions.take(
                    i as int,
                ));
                assert(self@.positions[i as int].wf());
            }
            let x = self.positions[i].clone();
            insert_desc(&mut ranked, x);
            i = i + 1;
        }
        let r = PortfolioStats {
            pnl: total,
            init_cash: self.init_cash,
            cash: self.cash,
            pnl_ratio,
            positions: ranked,
        };
        proof {
            assert(r@ =~= spec_portfolio_stats(self@));
        }
        r
    }
}

impl<T: OrderManager> SimplePortfolio<T> {
    /// Hand the decision and the symbol's current position to the allocation
    /// policy; the portfolio itself is untouched.
    #[verifier::loop_isolation(false)]
    pub fn allocate_order(&mut self, decision: &Decision) -> (r: Result<Option<Order>, ErrorRepr>)
        requires
            old(self)@.wf(),
            old(self)@.manager.wf(),
        ensures
            final(self)@ == old(self)@,
            make_order_result_view(r) == old(self)@.manager.spec_make_order(
                decision@,
                spec_position_at(old(self)@, decision@.sym),
            ),
            r matches Ok(Some(o)) ==> o@.wf(),
    {
        proof {
            lemma_find_position(self@.positions, decision@.sym);
        }
        let n = self.positions.len();
        let mut i: usize = 0;
        while i < n
            invariant
                n == self.positions@.len(),
                i <= n,
                *self == *old(self),
                forall|j: int| 0 <= j < i ==> (#[trigger] self@.positions[j]).sym != decision@.sym,
            decreases n - i,
        {
            if self.positions[i].sym == decision.sym {
                proof {
                    lemma_find_position_eq(old(self)@.positions, decision@.sym, i as int);
                }
                let r = self.order_manager.make_order(decision, Some(&self.positions[i]));
                proof {
                    assert(self@ =~= old(self)@);
                }
                return r;
            }
            i = i + 1;
        }
        let r = self.order_manager.make_order(decision, None);
        proof {
            assert(self@ =~= old(self)@);
        }
        r
    }
}

} // verus!
