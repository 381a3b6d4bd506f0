//! The order book itself: two independent price ladders (bids and asks),
//! each held as a sequence of price levels sorted strictly ascending by
//! price. "Best" differs by side: the best bid is the highest bid price,
//! the best ask the lowest ask price.
//!
//! Invariant violations (withdrawing from an absent price, withdrawing more
//! than rests, clearing a key that still holds volume, reading the best
//! price of an empty side) are caller bugs, surfaced as explicit error
//! values that the caller is expected to treat as unrecoverable.

use vstd::prelude::*;

use crate::levels::all_positive;
use crate::levels::find_level;
use crate::levels::has_price;
use crate::levels::lemma_all_positive_map;
use crate::levels::lemma_index_of_unique;
use crate::levels::lemma_level_map_empty;
use crate::levels::lemma_level_map_insert;
use crate::levels::lemma_level_map_remove;
use crate::levels::lemma_level_map_update;
use crate::levels::lemma_sum_insert;
use crate::levels::lemma_sum_nonneg;
use crate::levels::lemma_sum_remove;
use crate::levels::lemma_sum_split;
use crate::levels::lemma_sum_update;
use crate::levels::level_map;
use crate::levels::lower_bound;
use crate::levels::price_sorted;
use crate::levels::side_volume;
use crate::levels::sum_range;

verus! {

/// A discrete price tick. Callers pre-scale fractional prices to integers.
pub type Price = u32;

/// A quantity of resting volume at a price.
pub type Size = u32;

/// Which ladder an operation targets.
pub enum Side {
    Bid,
    Ask,
}

/// A fatal contract violation: a caller-induced invalid request, not a
/// recoverable business case. Callers are expected not to retry.
#[derive(Clone, Copy, Debug, PartialEq, Eq, Structural)]
pub enum BookError {
    /// No resting quantity exists at the requested price.
    PriceLevelNotFound,
    /// The withdrawal asks for more than the resting quantity.
    InsufficientQuantity,
    /// The key to clear still holds strictly positive volume.
    NonZeroKeyClear,
    /// A best-price query on a side that holds no levels.
    EmptySide,
}

/// The quantity a mapping holds at `p`, or zero when `p` is absent.
pub open spec fn size_or_zero(m: Map<u32, u32>, p: u32) -> u32 {
    if m.dom().contains(p) {
        m[p]
    } else {
        0
    }
}

/// An aggregate-quantity limit order book.
pub struct OrderBook {
    bids: Vec<(u32, u32)>,
    asks: Vec<(u32, u32)>,
}

impl OrderBook {
    /// The bid ladder, sorted strictly ascending by price.
    pub closed spec fn bids_seq(&self) -> Seq<(u32, u32)> {
        self.bids@
    }

    /// The ask ladder, sorted strictly ascending by price.
    pub closed spec fn asks_seq(&self) -> Seq<(u32, u32)> {
        self.asks@
    }

    /// The price-to-quantity mapping of the bid side.
    pub open spec fn bids_map(&self) -> Map<u32, u32> {
        level_map(self.bids_seq())
    }

    /// The price-to-quantity mapping of the ask side.
    pub open spec fn asks_map(&self) -> Map<u32, u32> {
        level_map(self.asks_seq())
    }

    /// Well-formedness: both ladders are sorted strictly ascending by price,
    /// so each price occurs at most once per side.
    pub open spec fn wf(&self) -> bool {
        price_sorted(self.bids_seq()) && price_sorted(self.asks_seq())
    }

    /// Every key present on either side holds strictly positive quantity.
    /// Established at construction and preserved by every public operation
    /// except the low-level `remove`, which leaves eviction to its caller.
    pub open spec fn no_zero_entries(&self) -> bool {
        all_positive(self.bids_seq()) && all_positive(self.asks_seq())
    }

    /// What `query_orders` answers: the bid quantity at `p` when the bid
    /// side has the price, else the ask quantity, else nothing.
    pub open spec fn query_spec(&self, p: u32) -> Option<u32> {
        if self.bids_map().dom().contains(p) {
            Some(self.bids_map()[p])
        } else if self.asks_map().dom().contains(p) {
            Some(self.asks_map()[p])
        } else {
            None
        }
    }

    /// The total resting volume on the bid side.
    pub open spec fn bid_volume(&self) -> int {
        side_volume(self.bids_seq())
    }

    /// The total resting volume on the ask side.
    pub open spec fn ask_volume(&self) -> int {
        side_volume(self.asks_seq())
    }

    /// Whether `query_orders` finds resting quantity at `p` of at least
    /// `amt` — the validation `remove_bid` and `remove_ask` perform before
    /// withdrawing. Note it reads the bid side first on either withdrawal.
    pub open spec fn query_allows(&self, p: u32, amt: u32) -> bool {
        match self.query_spec(p) {
            Some(q) => amt <= q,
            None => false,
        }
    }

    /// An empty book: both sides hold no levels.
    pub fn new() -> (r: OrderBook)
        ensures
            r.wf(),
            r.no_zero_entries(),
            r.bids_seq().len() == 0,
            r.asks_seq().len() == 0,
            r.bids_map() == Map::<u32, u32>::empty(),
            r.asks_map() == Map::<u32, u32>::empty(),
            r.bid_volume() == 0,
            r.ask_volume() == 0,
    {
        let bids: Vec<(u32, u32)> = Vec::new();
        let asks: Vec<(u32, u32)> = Vec::new();
        let r = OrderBook { bids, asks };
        proof {
            lemma_level_map_empty(r.bids_seq());
            lemma_level_map_empty(r.asks_seq());
        }
        r
    }

    /// True exactly when both sides hold no levels.
    pub fn is_empty(&self) -> (r: bool)
        ensures
            r == (self.bids_seq().len() == 0 && self.asks_seq().len() == 0),
            r == (self.bids_map().dom() == Set::<u32>::empty() && self.asks_map().dom()
                == Set::<u32>::empty()),
    {
        let r = self.bids.len() == 0 && self.asks.len() == 0;
        proof {
            lemma_side_empty(self.bids_seq());
            lemma_side_empty(self.asks_seq());
        }
        r
    }

    /// Adds `amount` to the aggregate quantity at `price` on `side`,
    /// creating the level if absent. An `amount` of zero is a true no-op:
    /// it neither creates nor removes a key. Always succeeds.
    pub fn add(&mut self, price: Price, amount: Size, side: Side)
        requires
            old(self).wf(),
            side == Side::Bid ==> size_or_zero(old(self).bids_map(), price) + amount <= u32::MAX,
            side == Side::Ask ==> size_or_zero(old(self).asks_map(), price) + amount <= u32::MAX,
        ensures
            final(self).wf(),
            old(self).no_zero_entries() ==> final(self).no_zero_entries(),
            side == Side::Bid ==> final(self).asks_seq() == old(self).asks_seq(),
            side == Side::Ask ==> final(self).bids_seq() == old(self).bids_seq(),
            amount == 0 ==> final(self).bids_seq() == old(self).bids_seq() && final(self).asks_seq()
                == old(self).asks_seq(),
            side == Side::Bid && amount >= 1 ==> final(self).bids_map() == old(self).bids_map().insert(
                price,
                ((size_or_zero(old(self).bids_map(), price) + amount) as u32),
            ),
            side == Side::Ask && amount >= 1 ==> final(self).asks_map() == old(self).asks_map().insert(
                price,
                ((size_or_zero(old(self).asks_map(), price) + amount) as u32),
            ),
            side == Side::Bid && amount >= 1 ==> final(self).bid_volume() == old(self).bid_volume()
                + amount,
            side == Side::Ask && amount >= 1 ==> final(self).ask_volume() == old(self).ask_volume()
                + amount,
    {
        match side {
            Side::Bid => add_level(&mut self.bids, price, amount),
            Side::Ask => add_level(&mut self.asks, price, amount),
        }
    }

    /// Adds `amount` at `price` on the bid side.
    pub fn add_bid(&mut self, price: Price, amount: Size)
        requires
            old(self).wf(),
            size_or_zero(old(self).bids_map(), price) + amount <= u32::MAX,
        ensures
            final(self).wf(),
            old(self).no_zero_entries() ==> final(self).no_zero_entries(),
            final(self).asks_seq() == old(self).asks_seq(),
            amount == 0 ==> final(self).bids_seq() == old(self).bids_seq(),
            amount >= 1 ==> final(self).bids_map() == old(self).bids_map().insert(
                price,
                ((size_or_zero(old(self).bids_map(), price) + amount) as u32),
            ),
            amount >= 1 ==> final(self).bid_volume() == old(self).bid_volume() + amount,
    {
        self.add(price, amount, Side::Bid);
    }

    /// Adds `amount` at `price` on the ask side.
    pub fn add_ask(&mut self, price: Price, amount: Size)
        requires
            old(self).wf(),
            size_or_zero(old(self).asks_map(), price) + amount <= u32::MAX,
        ensures
            final(self).wf(),
            old(self).no_zero_entries() ==> final(self).no_zero_entries(),
            final(self).bids_seq() == old(self).bids_seq(),
            amount == 0 ==> final(self).asks_seq() == old(self).asks_seq(),
            amount >= 1 ==> final(self).asks_map() == old(self).asks_map().insert(
                price,
                ((size_or_zero(old(self).asks_map(), price) + amount) as u32),
            ),
            amount >= 1 ==> final(self).ask_volume() == old(self).ask_volume() + amount,
    {
        self.add(price, amount, Side::Ask);
    }

    /// Removes the key for `price` on `side`, but only if its current
    /// quantity is exactly zero; clearing a key that still holds volume,
    /// or one that is absent, is a contract violation.
    pub fn clear_key(&mut self, price: Price, side: Side) -> (r: Result<(), BookError>)
        requires
            old(self).wf(),
        ensures
            final(self).wf(),
            old(self).no_zero_entries() ==> final(self).no_zero_entries(),
            side == Side::Bid ==> final(self).asks_seq() == old(self).asks_seq(),
            side == Side::Ask ==> final(self).bids_seq() == old(self).bids_seq(),
            side == Side::Bid ==> match r {
                Ok(()) => old(self).bids_map().dom().contains(price) && old(self).bids_map()[price]
                    == 0 && final(self).bids_map() == old(self).bids_map().remove(price)
                    && final(self).bid_volume() == old(self).bid_volume(),
                Err(e) => final(self).bids_seq() == old(self).bids_seq() && ((e
                    == BookError::PriceLevelNotFound && !old(self).bids_map().dom().contains(price))
                    || (e == BookError::NonZeroKeyClear && old(self).bids_map().dom().contains(
                    price,
                ) && old(self).bids_map()[price] >= 1)),
            },
            side == Side::Ask ==> match r {
                Ok(()) => old(self).asks_map().dom().contains(price) && old(self).asks_map()[price]
                    == 0 && final(self).asks_map() == old(self).asks_map().remove(price)
                    && final(self).ask_volume() == old(self).ask_volume(),
                Err(e) => final(self).asks_seq() == old(self).asks_seq() && ((e
                    == BookError::PriceLevelNotFound && !old(self).asks_map().dom().contains(price))
                    || (e == BookError::NonZeroKeyClear && old(self).asks_map().dom().contains(
                    price,
                ) && old(self).asks_map()[price] >= 1)),
            },
    {
        let r = match side {
            Side::Bid => clear_level(&mut self.bids, price),
            Side::Ask => clear_level(&mut self.asks, price),
        };
        proof {
            lemma_all_positive_map(old(self).bids_seq());
            lemma_all_positive_map(old(self).asks_seq());
            lemma_all_positive_map(self.bids_seq());
            lemma_all_positive_map(self.asks_seq());
        }
        r
    }

    /// Subtracts `amount` from the quantity resting at `price` on `side` and
    /// returns the remaining quantity. Withdrawing from an absent price, or
    /// more than rests there, is a contract violation. This low-level
    /// primitive keeps the key in place even when the remainder is zero;
    /// evicting the empty level is the caller's job.
    pub fn remove(&mut self, price: Price, amount: Size, side: Side) -> (r: Result<
        Size,
        BookError,
    >)
        requires
            old(self).wf(),
        ensures
            final(self).wf(),
            side == Side::Bid ==> final(self).asks_seq() == old(self).asks_seq(),
            side == Side::Ask ==> final(self).bids_seq() == old(self).bids_seq(),
            side == Side::Bid ==> match r {
                Ok(rem) => old(self).bids_map().dom().contains(price) && amount <= old(self).bids_map()[price] && rem == old(self).bids_map()[price] - amount && final(self).bids_map() == old(self).bids_map().insert(price, rem)
                    && final(self).bid_volume() == old(self).bid_volume() - amount,
                Err(e) => final(self).bids_seq() == old(self).bids_seq() && ((e
                    == BookError::PriceLevelNotFound && !old(self).bids_map().dom().contains(price))
                    || (e == BookError::InsufficientQuantity && old(self).bids_map().dom().contains(
                    price,
                ) && amount > old(self).bids_map()[price])),
            },
            side == Side::Ask ==> match r {
                Ok(rem) => old(self).asks_map().dom().contains(price) && amount <= old(self).asks_map()[price] && rem == old(self).asks_map()[price] - amount && final(self).asks_map() == old(self).asks_map().insert(price, rem)
                    && final(self).ask_volume() == old(self).ask_volume() - amount,
                Err(e) => final(self).asks_seq() == old(self).asks_seq() && ((e
                    == BookError::PriceLevelNotFound && !old(self).asks_map().dom().contains(price))
                    || (e == BookError::InsufficientQuantity && old(self).asks_map().dom().contains(
                    price,
                ) && amount > old(self).asks_map()[price])),
            },
    {
        match side {
            Side::Bid => sub_level(&mut self.bids, price, amount),
            Side::Ask => sub_level(&mut self.asks, price, amount),
        }
    }

    /// The resting quantity at `price`, read from the bid side first with
    /// the ask side as fallback; when a price rests on both sides, the bid
    /// quantity is the answer.
    pub fn query_orders(&self, price: Price) -> (r: Option<Size>)
        requires
            self.wf(),
        ensures
            r == self.query_spec(price),
    {
        match find_level(&self.bids, price) {
            Some(i) => {
                proof {
                    lemma_index_of_unique(self.bids_seq(), price, i as int);
                }
                Some(self.bids[i].1)
            },
            None => match find_level(&self.asks, price) {
                Some(i) => {
                    proof {
                        lemma_index_of_unique(self.asks_seq(), price, i as int);
                    }
                    Some(self.asks[i].1)
                },
                None => None,
            },
        }
    }

    /// The public withdrawal on the bid side: validates that `amount` does
    /// not exceed the resting quantity `query_orders` reports at `price`,
    /// subtracts it, and evicts the level when it reaches zero, keeping the
    /// no-zero-entries invariant intact. Over-withdrawal and withdrawal
    /// from an absent price are contract violations.
    pub fn remove_bid(&mut self, price: Price, amount: Size) -> (r: Result<(), BookError>)
        requires
            old(self).wf(),
        ensures
            final(self).wf(),
            final(self).asks_seq() == old(self).asks_seq(),
            old(self).no_zero_entries() ==> final(self).no_zero_entries(),
            match r {
                Ok(()) => old(self).bids_map().dom().contains(price)
                    && amount <= old(self).bids_map()[price]
                    && final(self).bids_map() == (if amount == old(self).bids_map()[price] {
                        old(self).bids_map().remove(price)
                    } else {
                        old(self).bids_map().insert(price, ((old(self).bids_map()[price] - amount) as u32))
                    })
                    && final(self).bid_volume() == old(self).bid_volume() - amount,
                Err(e) => final(self).bids_seq() == old(self).bids_seq()
                    && ((e == BookError::PriceLevelNotFound
                            && (old(self).query_spec(price) is None
                                || (old(self).query_allows(price, amount)
                                    && !old(self).bids_map().dom().contains(price))))
                        || (e == BookError::InsufficientQuantity
                            && old(self).query_spec(price) is Some
                            && !old(self).query_allows(price, amount))),
            },
    {
        let ghost m0 = old(self).bids_map();
        match self.query_orders(price) {
            Some(q) => {
                if amount <= q {
                    match self.remove(price, amount, Side::Bid) {
                        Ok(rem) => {
                            if rem < 1 {
                                let c = self.clear_key(price, Side::Bid);
                                proof {
                                    assert(m0.insert(price, 0u32).remove(price) =~= m0.remove(
                                        price,
                                    ));
                                    lemma_all_positive_map(old(self).bids_seq());
                                    lemma_all_positive_map(self.bids_seq());
                                }
                                match c {
                                    Ok(()) => Ok(()),
                                    // the level was just driven to zero, so
                                    // clearing it cannot fail
                                    Err(e) => Err(e),
                                }
                            } else {
                                proof {
                                    lemma_all_positive_map(old(self).bids_seq());
                                    lemma_all_positive_map(self.bids_seq());
                                }
                                Ok(())
                            }
                        },
                        Err(e) => Err(e),
                    }
                } else {
                    Err(BookError::InsufficientQuantity)
                }
            },
            None => Err(BookError::PriceLevelNotFound),
        }
    }

    /// The public withdrawal on the ask side, the mirror of `remove_bid`.
    /// The validating query still reads the bid side first: when a price
    /// rests on both sides it is checked against the bid quantity, and the
    /// withdrawal itself can then still fail against the ask quantity.
    pub fn remove_ask(&mut self, price: Price, amount: Size) -> (r: Result<(), BookError>)
        requires
            old(self).wf(),
        ensures
            final(self).wf(),
            final(self).bids_seq() == old(self).bids_seq(),
            old(self).no_zero_entries() ==> final(self).no_zero_entries(),
            match r {
                Ok(()) => old(self).asks_map().dom().contains(price)
                    && amount <= old(self).asks_map()[price]
                    && old(self).query_allows(price, amount)
                    && final(self).asks_map() == (if amount == old(self).asks_map()[price] {
                        old(self).asks_map().remove(price)
                    } else {
                        old(self).asks_map().insert(price, ((old(self).asks_map()[price] - amount) as u32))
                    })
                    && final(self).ask_volume() == old(self).ask_volume() - amount,
                Err(e) => final(self).asks_seq() == old(self).asks_seq()
                    && ((e == BookError::PriceLevelNotFound
                            && (old(self).query_spec(price) is None
                                || (old(self).query_allows(price, amount)
                                    && !old(self).asks_map().dom().contains(price))))
                        || (e == BookError::InsufficientQuantity
                            && old(self).query_spec(price) is Some
                            && (!old(self).query_allows(price, amount)
                                || (old(self).asks_map().dom().contains(price)
                                    && amount > old(self).asks_map()[price])))),
            },
    {
        let ghost m0 = old(self).asks_map();
        match self.query_orders(price) {
            Some(q) => {
                if amount <= q {
                    match self.remove(price, amount, Side::Ask) {
                        Ok(rem) => {
                            if rem < 1 {
                                let c = self.clear_key(price, Side::Ask);
                                proof {
                                    assert(m0.insert(price, 0u32).remove(price) =~= m0.remove(
                                        price,
                                    ));
                                    lemma_all_positive_map(old(self).asks_seq());
                                    lemma_all_positive_map(self.asks_seq());
                                }
                                match c {
                                    Ok(()) => Ok(()),
                                    // the level was just driven to zero, so
                                    // clearing it cannot fail
                                    Err(e) => Err(e),
                                }
                            } else {
                                proof {
                                    lemma_all_positive_map(old(self).asks_seq());
                                    lemma_all_positive_map(self.asks_seq());
                                }
                                Ok(())
                            }
                        },
                        Err(e) => Err(e),
                    }
                } else {
                    Err(BookError::InsufficientQuantity)
                }
            },
            None => Err(BookError::PriceLevelNotFound),
        }
    }

    /// The highest-priced level of the bid side. Asking for the best bid of
    /// a book with no bids is a contract violation.
    pub fn best_bid(&self) -> (r: Result<(Price, Size), BookError>)
        requires
            self.wf(),
        ensures
            match r {
                Ok(best) => self.bids_seq().len() >= 1 && best == self.bids_seq().last()
                    && self.bids_map().dom().contains(best.0) && self.bids_map()[best.0] == best.1
                    && forall|q: u32| self.bids_map().dom().contains(q) ==> q <= best.0,
                Err(e) => e == BookError::EmptySide && self.bids_seq().len() == 0,
            },
    {
        if self.bids.len() == 0 {
            Err(BookError::EmptySide)
        } else {
            let n = self.bids.len();
            let best = self.bids[n - 1];
            proof {
                lemma_index_of_unique(self.bids_seq(), best.0, (n - 1) as int);
                assert forall|q: u32| self.bids_map().dom().contains(q) implies q <= best.0 by {
                    let k = choose|k: int|
                        0 <= k < self.bids_seq().len() && self.bids_seq()[k].0 == q;
                    if k < n - 1 {
                        assert(self.bids_seq()[k].0 < self.bids_seq()[(n - 1) as int].0);
                    }
                }
            }
            Ok(best)
        }
    }

    /// The lowest-priced level of the ask side. Asking for the best ask of
    /// a book with no asks is a contract violation.
    pub fn best_ask(&self) -> (r: Result<(Price, Size), BookError>)
        requires
            self.wf(),
        ensures
            match r {
                Ok(best) => self.asks_seq().len() >= 1 && best == self.asks_seq()[0]
                    && self.asks_map().dom().contains(best.0) && self.asks_map()[best.0] == best.1
                    && forall|q: u32| self.asks_map().dom().contains(q) ==> q >= best.0,
                Err(e) => e == BookError::EmptySide && self.asks_seq().len() == 0,
            },
    {
        if self.asks.len() == 0 {
            Err(BookError::EmptySide)
        } else {
            let best = self.asks[0];
            proof {
                lemma_index_of_unique(self.asks_seq(), best.0, 0);
                assert forall|q: u32| self.asks_map().dom().contains(q) implies q >= best.0 by {
                    let k = choose|k: int|
                        0 <= k < self.asks_seq().len() && self.asks_seq()[k].0 == q;
                    if k > 0 {
                        assert(self.asks_seq()[0].0 < self.asks_seq()[k].0);
                    }
                }
            }
            Ok(best)
        }
    }

    /// Cumulative ask depth: one entry per ask level, ascending by price,
    /// whose total is the sum of the ask quantities at that price and every
    /// better (lower) ask price.
    pub fn total_asks(&self) -> (r: Vec<(Price, Size)>)
        requires
            self.wf(),
            self.ask_volume() <= u32::MAX,
        ensures
            r@.len() == self.asks_seq().len(),
            forall|i: int|
                0 <= i < r@.len() ==> r@[i].0 == self.asks_seq()[i].0 && r@[i].1 == sum_range(
                    self.asks_seq(),
                    0,
                    i + 1,
                ),
            price_sorted(r@),
    {
        let ghost s = self.asks_seq();
        let mut out: Vec<(u32, u32)> = Vec::new();
        let mut total: u32 = 0;
        let mut i: usize = 0;
        while i < self.asks.len()
            invariant
                self.wf(),
                s == self.asks_seq(),
                sum_range(s, 0, s.len() as int) <= u32::MAX,
                i <= s.len(),
                total == sum_range(s, 0, i as int),
                out@.len() == i,
                forall|j: int|
                    0 <= j < i ==> (#[trigger] out@[j]).0 == s[j].0 && out@[j].1 == sum_range(
                        s,
                        0,
                        j + 1,
                    ),
            decreases s.len() - i,
        {
            proof {
                lemma_sum_split(s, 0, (i + 1) as int, s.len() as int);
                lemma_sum_nonneg(s, (i + 1) as int, s.len() as int);
            }
            total = total + self.asks[i].1;
            out.push((self.asks[i].0, total));
            i = i + 1;
        }
        proof {
            assert forall|a: int, b: int| 0 <= a < b < out@.len() implies out@[a].0
                < out@[b].0 by {
                assert(out@[a].0 == s[a].0);
                assert(out@[b].0 == s[b].0);
            }
        }
        out
    }

    /// Cumulative bid depth: one entry per bid level, ascending by price,
    /// whose total is the sum of the bid quantities at that price and every
    /// better (higher) bid price. The running sum is accumulated from the
    /// best bid downward.
    pub fn total_bids(&self) -> (r: Vec<(Price, Size)>)
        requires
            self.wf(),
            self.bid_volume() <= u32::MAX,
        ensures
            r@.len() == self.bids_seq().len(),
            forall|i: int|
                0 <= i < r@.len() ==> r@[i].0 == self.bids_seq()[i].0 && r@[i].1 == sum_range(
                    self.bids_seq(),
                    i,
                    self.bids_seq().len() as int,
                ),
            price_sorted(r@),
    {
        let ghost s = self.bids_seq();
        let mut grand: u32 = 0;
        let mut i: usize = 0;
        while i < self.bids.len()
            invariant
                self.wf(),
                s == self.bids_seq(),
                sum_range(s, 0, s.len() as int) <= u32::MAX,
                i <= s.len(),
                grand == sum_range(s, 0, i as int),
            decreases s.len() - i,
        {
            proof {
                lemma_sum_split(s, 0, (i + 1) as int, s.len() as int);
                lemma_sum_nonneg(s, (i + 1) as int, s.len() as int);
            }
            grand = grand + self.bids[i].1;
            i = i + 1;
        }
        let mut out: Vec<(u32, u32)> = Vec::new();
        let mut rem: u32 = grand;
        i = 0;
        while i < self.bids.len()
            invariant
                self.wf(),
                s == self.bids_seq(),
                i <= s.len(),
                rem == sum_range(s, i as int, s.len() as int),
                out@.len() == i,
                forall|j: int|
                    0 <= j < i ==> (#[trigger] out@[j]).0 == s[j].0 && out@[j].1 == sum_range(
                        s,
                        j,
                        s.len() as int,
                    ),
            decreases s.len() - i,
        {
            out.push((self.bids[i].0, rem));
            proof {
                lemma_sum_split(s, i as int, (i + 1) as int, s.len() as int);
                lemma_sum_nonneg(s, (i + 1) as int, s.len() as int);
                assert(sum_range(s, i as int, (i + 1) as int) == s[i as int].1) by {
                    assert(sum_range(s, i as int, i as int) == 0);
                }
            }
            rem = rem - self.bids[i].1;
            i = i + 1;
        }
        proof {
            assert forall|a: int, b: int| 0 <= a < b < out@.len() implies out@[a].0
                < out@[b].0 by {
                assert(out@[a].0 == s[a].0);
                assert(out@[b].0 == s[b].0);
            }
        }
        out
    }

    /// The bid ladder as price/quantity pairs, ascending by price.
    pub fn bid_levels(&self) -> (r: Vec<(Price, Size)>)
        ensures
            r@ == self.bids_seq(),
    {
        let mut out: Vec<(u32, u32)> = Vec::new();
        let mut i: usize = 0;
        while i < self.bids.len()
            invariant
                i <= self.bids@.len(),
                out@.len() == i,
                forall|j: int| 0 <= j < i ==> out@[j] == self.bids@[j],
            decreases self.bids@.len() - i,
        {
            out.push(self.bids[i]);
            i = i + 1;
        }
        proof {
            assert(out@ =~= self.bids_seq());
        }
        out
    }

    /// The ask ladder as price/quantity pairs, ascending by price.
    pub fn ask_levels(&self) -> (r: Vec<(Price, Size)>)
        ensures
            r@ == self.asks_seq(),
    {
        let mut out: Vec<(u32, u32)> = Vec::new();
        let mut i: usize = 0;
        while i < self.asks.len()
            invariant
                i <= self.asks@.len(),
                out@.len() == i,
                forall|j: int| 0 <= j < i ==> out@[j] == self.asks@[j],
            decreases self.asks@.len() - i,
        {
            out.push(self.asks[i]);
            i = i + 1;
        }
        proof {
            assert(out@ =~= self.asks_seq());
        }
        out
    }
}

/// A side with no levels represents the empty mapping, and a side with a
/// level does not.
proof fn lemma_side_empty(s: Seq<(u32, u32)>)
    ensures
        (s.len() == 0) == (level_map(s).dom() == Set::<u32>::empty()),
{
    if s.len() == 0 {
        lemma_level_map_empty(s);
    } else {
        assert(has_price(s, s[0].0));
        assert(level_map(s).dom().contains(s[0].0));
    }
}

/// Subtracts `amount` from the level at `price` within one sorted ladder,
/// keeping the level in place even when the remainder is zero.
fn sub_level(v: &mut Vec<(u32, u32)>, price: u32, amount: u32) -> (r: Result<u32, BookError>)
    requires
        price_sorted(old(v)@),
    ensures
        price_sorted(final(v)@),
        match r {
            Ok(rem) => level_map(old(v)@).dom().contains(price)
                && amount <= level_map(old(v)@)[price]
                && rem == level_map(old(v)@)[price] - amount
                && level_map(final(v)@) == level_map(old(v)@).insert(price, rem)
                && side_volume(final(v)@) == side_volume(old(v)@) - amount,
            Err(e) => final(v)@ == old(v)@
                && ((e == BookError::PriceLevelNotFound && !has_price(old(v)@, price))
                || (e == BookError::InsufficientQuantity
                    && level_map(old(v)@).dom().contains(price)
                    && amount > level_map(old(v)@)[price])),
        },
{
    let ghost s0 = v@;
    match find_level(v, price) {
        Some(i) => {
            proof {
                lemma_index_of_unique(s0, price, i as int);
            }
            let q = v[i].1;
            if amount <= q {
                let rem = q - amount;
                v[i] = (price, rem);
                proof {
                    lemma_level_map_update(s0, i as int, rem);
                    lemma_sum_update(s0, i as int, rem, s0.len() as int);
                }
                Ok(rem)
            } else {
                Err(BookError::InsufficientQuantity)
            }
        },
        None => Err(BookError::PriceLevelNotFound),
    }
}

/// Drops the level at `price` from one sorted ladder, provided it exists
/// and its quantity is exactly zero.
fn clear_level(v: &mut Vec<(u32, u32)>, price: u32) -> (r: Result<(), BookError>)
    requires
        price_sorted(old(v)@),
    ensures
        price_sorted(final(v)@),
        match r {
            Ok(()) => level_map(old(v)@).dom().contains(price) && level_map(old(v)@)[price] == 0
                && level_map(final(v)@) == level_map(old(v)@).remove(price)
                && side_volume(final(v)@) == side_volume(old(v)@),
            Err(e) => final(v)@ == old(v)@ && ((e == BookError::PriceLevelNotFound && !has_price(
                old(v)@,
                price,
            )) || (e == BookError::NonZeroKeyClear && level_map(old(v)@).dom().contains(price)
                && level_map(old(v)@)[price] >= 1)),
        },
{
    let ghost s0 = v@;
    match find_level(v, price) {
        Some(i) => {
            proof {
                lemma_index_of_unique(s0, price, i as int);
            }
            if v[i].1 < 1 {
                v.remove(i);
                proof {
                    lemma_level_map_remove(s0, i as int);
                    lemma_sum_remove(s0, i as int, s0.len() as int - 1);
                }
                Ok(())
            } else {
                Err(BookError::NonZeroKeyClear)
            }
        },
        None => Err(BookError::PriceLevelNotFound),
    }
}

/// Adds `amount` at `price` within one sorted ladder.
fn add_level(v: &mut Vec<(u32, u32)>, price: u32, amount: u32)
    requires
        price_sorted(old(v)@),
        size_or_zero(level_map(old(v)@), price) + amount <= u32::MAX,
    ensures
        price_sorted(final(v)@),
        all_positive(old(v)@) ==> all_positive(final(v)@),
        amount == 0 ==> final(v)@ == old(v)@,
        amount >= 1 ==> level_map(final(v)@) == level_map(old(v)@).insert(
            price,
            ((size_or_zero(level_map(old(v)@), price) + amount) as u32),
        ),
        amount >= 1 ==> side_volume(final(v)@) == side_volume(old(v)@) + amount,
{
    if amount == 0 {
        return ;
    }
    let ghost s0 = v@;
    let i = lower_bound(v, price);
    if i < v.len() && v[i].0 == price {
        proof {
            lemma_index_of_unique(s0, price, i as int);
            assert(level_map(s0).dom().contains(price));
            assert(level_map(s0)[price] == s0[i as int].1);
        }
        let q = v[i].1;
        v[i] = (price, q + amount);
        proof {
            lemma_level_map_update(s0, i as int, (q + amount) as u32);
            lemma_sum_update(s0, i as int, (q + amount) as u32, s0.len() as int);
            assert forall|k: int| 0 <= k < v@.len() && all_positive(s0) implies v@[k].1 >= 1 by {
                if k != i {
                    assert(v@[k] == s0[k]);
                }
            }
        }
    } else {
        proof {
            assert(forall|j: int| i <= j < s0.len() ==> s0[j].0 > price);
            assert(!level_map(s0).dom().contains(price)) by {
                if has_price(s0, price) {
                    let k = choose|k: int| 0 <= k < s0.len() && s0[k].0 == price;
                    assert(k < i || k >= i);
                }
            }
        }
        v.insert(i, (price, amount));
        proof {
            lemma_level_map_insert(s0, i as int, price, amount);
            lemma_sum_insert(s0, i as int, (price, amount), s0.len() as int + 1);
            assert forall|k: int| 0 <= k < v@.len() && all_positive(s0) implies v@[k].1 >= 1 by {
                if k < i {
                    assert(v@[k] == s0[k]);
                } else if k > i {
                    assert(v@[k] == s0[k - 1]);
                }
            }
        }
    }
}

} // verus!
