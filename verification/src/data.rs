//! Market data: one time-step's OHLCV snapshot.

use vstd::prelude::*;
use crate::money_ok;

verus! {

/// Mathematical model of a bar.
#[verifier::ext_equal]
pub ghost struct BarV {
    pub sym: Seq<char>,
    pub time: int,
    pub open: int,
    pub close: int,
    pub high: int,
    pub low: int,
    pub vol: int,
}

impl BarV {
    /// All prices are non-negative amounts within ledger capacity.
    pub open spec fn wf(self) -> bool {
        &&& money_ok(self.open)
        &&& money_ok(self.close)
        &&& money_ok(self.high)
        &&& money_ok(self.low)
    }
}

/// One time-step's market snapshot. Prices are fixed-point integers in
/// caller-chosen scaled units; the timestamp is an integer (the ingestion
/// layer decides its epoch and granularity); volume is a unit count.
#[derive(Debug)]
pub struct Bar {
    pub sym: String,
    pub time: i64,
    pub open: i64,
    pub close: i64,
    pub high: i64,
    pub low: i64,
    pub vol: u64,
}

impl View for Bar {
    type V = BarV;

    open spec fn view(&self) -> BarV {
        BarV {
            sym: self.sym@,
            time: self.time as int,
            open: self.open as int,
            close: self.close as int,
            high: self.high as int,
            low: self.low as int,
            vol: self.vol as int,
        }
    }
}

impl Clone for Bar {
    fn clone(&self) -> (r: Self)
        ensures
            r == *self,
    {
        Bar {
            sym: self.sym.clone(),
            time: self.time,
            open: self.open,
            close: self.close,
            high: self.high,
            low: self.low,
            vol: self.vol,
        }
    }
}

impl Default for Bar {
    /// The empty bar: empty symbol, all prices, time and volume zero.
    fn default() -> (r: Self)
        ensures
            r@ == (BarV { sym: Seq::<char>::empty(), time: 0, open: 0, close: 0, high: 0, low: 0, vol: 0 }),
    {
        Bar { sym: String::new(), time: 0, open: 0, close: 0, high: 0, low: 0, vol: 0 }
    }
}

/// The bars of `s` whose timestamp lies in `[start, end]`, in order.
pub open spec fn spec_bars_in_range(s: Seq<BarV>, start: int, end: int) -> Seq<BarV> {
    s.filter(|b: BarV| start <= b.time <= end)
}

/// Keep only the bars whose timestamp lies in `[start, end]`, preserving
/// their order. The ingestion layer uses this to cut a date window out of a
/// loaded series.
pub fn bars_in_range(bars: &Vec<Bar>, start: i64, end: i64) -> (r: Vec<Bar>)
    ensures
        r@.map_values(|b: Bar| b@) == spec_bars_in_range(bars@.map_values(|b: Bar| b@), start as int, end as int),
{
    let mut out: Vec<Bar> = Vec::new();
    let mut i: usize = 0;
    proof {
        assert(bars@.map_values(|b: Bar| b@).take(0) =~= Seq::<BarV>::empty());
        assert(out@.map_values(|b: Bar| b@) =~= Seq::<BarV>::empty().filter(|b: BarV| start <= b.time <= end));
    }
    while i < bars.len()
        invariant
            i <= bars@.len(),
            out@.map_values(|b: Bar| b@) == spec_bars_in_range(bars@.map_values(|b: Bar| b@).take(i as int), start as int, end as int),
        decreases bars@.len() - i,
    {
        proof {
            reveal_with_fuel(Seq::filter, 2);
            let mapped = bars@.map_values(|b: Bar| b@);
            assert(mapped.take(i as int + 1).drop_last() =~= mapped.take(i as int));
            assert(mapped.take(i as int + 1).last() == mapped[i as int]);
        }
        let b = &bars[i];
        if start <= b.time && b.time <= end {
            let copy = b.clone();
            out.push(copy);
        }
        proof {
            let mapped = bars@.map_values(|b: Bar| b@);
            assert(mapped.take(i as int + 1) == mapped.take(i as int).push(mapped[i as int]));
            seq_filter_push(mapped.take(i as int), mapped[i as int], |b: BarV| start <= b.time <= end);
        }
        i = i + 1;
    }
    proof {
        assert(bars@.map_values(|b: Bar| b@).take(bars@.len() as int) =~= bars@.map_values(|b: Bar| b@));
    }
    out
}

/// Filtering a sequence extended by one element keeps the filtered prefix and
/// appends the element exactly when it passes the predicate.
proof fn seq_filter_push(s: Seq<BarV>, x: BarV, pred: spec_fn(BarV) -> bool)
    ensures
        s.push(x).filter(pred) == if pred(x) {
            s.filter(pred).push(x)
        } else {
            s.filter(pred)
        },
{
    reveal_with_fuel(Seq::filter, 2);
    assert(s.push(x).drop_last() =~= s);
    assert(s.push(x).last() == x);
}

} // verus!
