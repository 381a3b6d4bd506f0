//! An in-memory limit order book: two price ladders (bids and asks), each a
//! sorted sequence of price levels holding the aggregate resting quantity at
//! that price. Supports adding and withdrawing quantity, querying resting
//! quantity, best bid/ask, and cumulative depth totals on each side.

pub mod book;
pub mod laws;
pub mod levels;
