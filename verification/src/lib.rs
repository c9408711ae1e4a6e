//! A deterministic backtesting core: bars stream in, a strategy produces
//! decisions, an allocator sizes orders, a simulated venue turns orders into
//! fills under price/volume/cash/limit constraints, and a ledger tracks cash,
//! positions and performance statistics.
//!
//! All monetary amounts are fixed-point integers in caller-chosen scaled
//! units; all timestamps are plain integers. Derived statistics that are not
//! integral (average price, profit-and-loss ratios) are exact rationals.

use vstd::prelude::*;

pub mod broker;
pub mod data;
pub mod errors;
pub mod event;
pub mod gambler;
pub mod order;
pub mod portfolio;
pub mod position;
pub mod ratio;
pub mod strategy;

verus! {

/// Largest monetary magnitude (in scaled units) the ledger stores. The cap is
/// 2^41: together with `QTY_BOUND` it keeps every 128-bit product formed when
/// comparing rational statistics strictly inside `i128`.
pub const MONEY_BOUND: i64 = 2199023255552;

/// Largest order or position quantity the ledger stores (2^20 units).
pub const QTY_BOUND: i32 = 1048576;

/// A stored monetary amount: non-negative and within ledger capacity.
pub open spec fn money_ok(m: int) -> bool {
    0 <= m <= MONEY_BOUND
}

/// A signed quantity within ledger capacity.
pub open spec fn qty_ok(q: int) -> bool {
    -QTY_BOUND <= q <= QTY_BOUND
}

} // verus!
