//! A side of the book is a sequence of price levels `(price, quantity)`,
//! sorted strictly ascending by price. This module holds the specification
//! vocabulary for such sequences (sortedness, membership, the price-to-quantity
//! mapping they represent, quantity sums), the lemmas relating sequence edits
//! to edits of the represented mapping, and the executable search helpers.

use vstd::prelude::*;

verus! {

/// The prices of the levels are strictly increasing: each price occurs at most once.
pub open spec fn price_sorted(s: Seq<(u32, u32)>) -> bool {
    forall|i: int, j: int| 0 <= i < j < s.len() ==> s[i].0 < s[j].0
}

/// Every level holds a strictly positive quantity.
pub open spec fn all_positive(s: Seq<(u32, u32)>) -> bool {
    forall|i: int| 0 <= i < s.len() ==> s[i].1 >= 1
}

/// Some level carries the price `p`.
pub open spec fn has_price(s: Seq<(u32, u32)>, p: u32) -> bool {
    exists|i: int| 0 <= i < s.len() && s[i].0 == p
}

/// The index of the level carrying price `p` (meaningful when `has_price`
/// holds and the sequence is sorted, which makes the index unique).
pub open spec fn index_of(s: Seq<(u32, u32)>, p: u32) -> int {
    choose|i: int| 0 <= i < s.len() && s[i].0 == p
}

/// The mapping from price to aggregate quantity that a side represents.
pub open spec fn level_map(s: Seq<(u32, u32)>) -> Map<u32, u32> {
    Map::new(|p: u32| has_price(s, p), |p: u32| s[index_of(s, p)].1)
}

/// Sum of the quantities of the levels with index in `[lo, hi)`.
pub open spec fn sum_range(s: Seq<(u32, u32)>, lo: int, hi: int) -> int
    decreases hi - lo,
{
    if lo >= hi {
        0
    } else {
        sum_range(s, lo, hi - 1) + s[hi - 1].1
    }
}

/// In a sorted sequence, `index_of` is the one index that carries `p`.
pub proof fn lemma_index_of_unique(s: Seq<(u32, u32)>, p: u32, i: int)
    requires
        price_sorted(s),
        0 <= i < s.len(),
        s[i].0 == p,
    ensures
        index_of(s, p) == i,
        has_price(s, p),
{
    assert(has_price(s, p));
    let j = index_of(s, p);
    assert(0 <= j < s.len() && s[j].0 == p);
    if j < i {
        assert(s[j].0 < s[i].0);
    } else if i < j {
        assert(s[i].0 < s[j].0);
    }
}

/// An empty sequence represents the empty mapping.
pub proof fn lemma_level_map_empty(s: Seq<(u32, u32)>)
    requires
        s.len() == 0,
    ensures
        level_map(s) == Map::<u32, u32>::empty(),
{
    assert(level_map(s) =~= Map::<u32, u32>::empty());
}

/// Overwriting the quantity at index `i` updates the mapping at that price.
pub proof fn lemma_level_map_update(s: Seq<(u32, u32)>, i: int, v: u32)
    requires
        price_sorted(s),
        0 <= i < s.len(),
    ensures
        price_sorted(s.update(i, (s[i].0, v))),
        level_map(s.update(i, (s[i].0, v))) == level_map(s).insert(s[i].0, v),
{
    let t = s.update(i, (s[i].0, v));
    assert(forall|k: int| 0 <= k < t.len() ==> t[k].0 == s[k].0);
    assert forall|q: u32| has_price(t, q) implies has_price(s, q) by {
        let k = choose|k: int| 0 <= k < t.len() && t[k].0 == q;
        assert(s[k].0 == q);
    }
    assert forall|q: u32| has_price(s, q) implies has_price(t, q) by {
        let k = choose|k: int| 0 <= k < s.len() && s[k].0 == q;
        assert(t[k].0 == q);
    }
    assert forall|q: u32| has_price(t, q) implies level_map(t)[q] == level_map(s).insert(
        s[i].0,
        v,
    )[q] by {
        let k = choose|k: int| 0 <= k < t.len() && t[k].0 == q;
        lemma_index_of_unique(t, q, k);
        lemma_index_of_unique(s, q, k);
        if q == s[i].0 {
            assert(k == i);
        }
    }
    assert(level_map(t) =~= level_map(s).insert(s[i].0, v));
}

/// Inserting a level for an absent price `p` at its sorted position inserts
/// `p` into the mapping and keeps the sequence sorted.
pub proof fn lemma_level_map_insert(s: Seq<(u32, u32)>, i: int, p: u32, v: u32)
    requires
        price_sorted(s),
        0 <= i <= s.len(),
        forall|j: int| 0 <= j < i ==> s[j].0 < p,
        forall|j: int| i <= j < s.len() ==> p < s[j].0,
    ensures
        !has_price(s, p),
        price_sorted(s.insert(i, (p, v))),
        level_map(s.insert(i, (p, v))) == level_map(s).insert(p, v),
{
    let t = s.insert(i, (p, v));
    assert(forall|k: int| 0 <= k < i ==> t[k] == s[k]);
    assert(t[i] == (p, v));
    assert(forall|k: int| i < k < t.len() ==> t[k] == s[k - 1]);
    assert forall|a: int, b: int| 0 <= a < b < t.len() implies t[a].0 < t[b].0 by {
        if a < i && b > i {
            assert(t[a].0 < p);
            assert(p < t[b].0);
        }
    }
    assert forall|q: u32| has_price(t, q) implies (q == p || has_price(s, q)) by {
        let k = choose|k: int| 0 <= k < t.len() && t[k].0 == q;
        if k < i {
            assert(s[k].0 == q);
        } else if k > i {
            assert(s[k - 1].0 == q);
        }
    }
    assert forall|q: u32| has_price(s, q) implies has_price(t, q) by {
        let k = choose|k: int| 0 <= k < s.len() && s[k].0 == q;
        if k < i {
            assert(t[k].0 == q);
        } else {
            assert(t[k + 1].0 == q);
        }
    }
    assert(has_price(t, p)) by {
        assert(t[i].0 == p);
    }
    assert forall|q: u32| has_price(t, q) implies level_map(t)[q] == level_map(s).insert(
        p,
        v,
    )[q] by {
        if q == p {
            lemma_index_of_unique(t, p, i);
        } else {
            let k = choose|k: int| 0 <= k < s.len() && s[k].0 == q;
            lemma_index_of_unique(s, q, k);
            if k < i {
                lemma_index_of_unique(t, q, k);
            } else {
                lemma_index_of_unique(t, q, k + 1);
            }
        }
    }
    assert(level_map(t) =~= level_map(s).insert(p, v));
}

/// Removing the level at index `i` removes its price from the mapping and
/// keeps the sequence sorted.
pub proof fn lemma_level_map_remove(s: Seq<(u32, u32)>, i: int)
    requires
        price_sorted(s),
        0 <= i < s.len(),
    ensures
        price_sorted(s.remove(i)),
        level_map(s.remove(i)) == level_map(s).remove(s[i].0),
{
    let p = s[i].0;
    let t = s.remove(i);
    assert(forall|k: int| 0 <= k < i ==> t[k] == s[k]);
    assert(forall|k: int| i <= k < t.len() ==> t[k] == s[k + 1]);
    assert forall|q: u32| has_price(t, q) implies (has_price(s, q) && q != p) by {
        let k = choose|k: int| 0 <= k < t.len() && t[k].0 == q;
        if k < i {
            assert(s[k].0 == q);
            lemma_index_of_unique(s, q, k);
        } else {
            assert(s[k + 1].0 == q);
            lemma_index_of_unique(s, q, k + 1);
        }
    }
    assert forall|q: u32| has_price(s, q) && q != p implies has_price(t, q) by {
        let k = choose|k: int| 0 <= k < s.len() && s[k].0 == q;
        lemma_index_of_unique(s, p, i);
        assert(k != i);
        if k < i {
            assert(t[k].0 == q);
        } else {
            assert(t[k - 1].0 == q);
        }
    }
    assert forall|q: u32| has_price(t, q) implies level_map(t)[q] == level_map(s).remove(
        p,
    )[q] by {
        let k = choose|k: int| 0 <= k < t.len() && t[k].0 == q;
        lemma_index_of_unique(t, q, k);
        if k < i {
            lemma_index_of_unique(s, q, k);
        } else {
            lemma_index_of_unique(s, q, k + 1);
        }
    }
    assert(level_map(t) =~= level_map(s).remove(p));
}

/// For a sorted side, positivity of every level is the same property as
/// positivity of every value of the represented mapping.
pub proof fn lemma_all_positive_map(s: Seq<(u32, u32)>)
    requires
        price_sorted(s),
    ensures
        all_positive(s) <==> (forall|q: u32|
            level_map(s).dom().contains(q) ==> level_map(s)[q] >= 1),
{
    if all_positive(s) {
        assert forall|q: u32| level_map(s).dom().contains(q) implies level_map(s)[q] >= 1 by {
            let k = choose|k: int| 0 <= k < s.len() && s[k].0 == q;
            lemma_index_of_unique(s, q, k);
        }
    }
    if forall|q: u32| level_map(s).dom().contains(q) ==> level_map(s)[q] >= 1 {
        assert forall|k: int| 0 <= k < s.len() implies s[k].1 >= 1 by {
            lemma_index_of_unique(s, s[k].0, k);
            assert(level_map(s).dom().contains(s[k].0));
        }
    }
}

/// A sum of quantities is never negative.
pub proof fn lemma_sum_nonneg(s: Seq<(u32, u32)>, lo: int, hi: int)
    ensures
        sum_range(s, lo, hi) >= 0,
    decreases hi - lo,
{
    if lo < hi {
        lemma_sum_nonneg(s, lo, hi - 1);
    }
}

/// A sum over `[lo, hi)` splits at any midpoint.
pub proof fn lemma_sum_split(s: Seq<(u32, u32)>, lo: int, mid: int, hi: int)
    requires
        lo <= mid <= hi,
    ensures
        sum_range(s, lo, hi) == sum_range(s, lo, mid) + sum_range(s, mid, hi),
    decreases hi - mid,
{
    if mid < hi {
        lemma_sum_split(s, lo, mid, hi - 1);
    }
}

/// Overwriting the quantity at index `i` changes a prefix sum by the
/// difference of the quantities, once the prefix covers index `i`.
pub proof fn lemma_sum_update(s: Seq<(u32, u32)>, i: int, v: u32, hi: int)
    requires
        0 <= i < s.len(),
        0 <= hi <= s.len(),
    ensures
        sum_range(s.update(i, (s[i].0, v)), 0, hi) == sum_range(s, 0, hi) + (if i < hi {
            v - s[i].1
        } else {
            0
        }),
    decreases hi,
{
    if hi > 0 {
        lemma_sum_update(s, i, v, hi - 1);
    }
}

/// Inserting a level at index `i` adds its quantity to a prefix sum, once
/// the prefix covers index `i`.
pub proof fn lemma_sum_insert(s: Seq<(u32, u32)>, i: int, x: (u32, u32), hi: int)
    requires
        0 <= i <= s.len(),
        0 <= hi <= s.len() + 1,
    ensures
        sum_range(s.insert(i, x), 0, hi) == (if hi <= i {
            sum_range(s, 0, hi)
        } else {
            sum_range(s, 0, hi - 1) + x.1
        }),
    decreases hi,
{
    if hi > 0 {
        lemma_sum_insert(s, i, x, hi - 1);
    }
}

/// Removing the level at index `i` subtracts its quantity from a prefix
/// sum, once the prefix covers index `i`.
pub proof fn lemma_sum_remove(s: Seq<(u32, u32)>, i: int, hi: int)
    requires
        0 <= i < s.len(),
        0 <= hi <= s.len() - 1,
    ensures
        sum_range(s.remove(i), 0, hi) == (if hi <= i {
            sum_range(s, 0, hi)
        } else {
            sum_range(s, 0, hi + 1) - s[i].1
        }),
    decreases hi,
{
    if hi > 0 {
        lemma_sum_remove(s, i, hi - 1);
        if hi > i {
            assert(sum_range(s, 0, hi + 1) == sum_range(s, 0, hi) + s[hi].1);
            assert(sum_range(s, 0, hi) == sum_range(s, 0, hi - 1) + s[hi - 1].1);
        }
    }
}

/// The total resting volume of a side: the sum of all its quantities.
pub open spec fn side_volume(s: Seq<(u32, u32)>) -> int {
    sum_range(s, 0, s.len() as int)
}

/// The index of the first level whose price is at least `p`
/// (`v.len()` when every price is below `p`).
pub fn lower_bound(v: &Vec<(u32, u32)>, p: u32) -> (i: usize)
    requires
        price_sorted(v@),
    ensures
        i <= v@.len(),
        forall|j: int| 0 <= j < i ==> v@[j].0 < p,
        forall|j: int| i <= j < v@.len() ==> v@[j].0 >= p,
{
    let mut i: usize = 0;
    while i < v.len()
        invariant
            price_sorted(v@),
            i <= v@.len(),
            forall|j: int| 0 <= j < i ==> v@[j].0 < p,
        decreases v@.len() - i,
    {
        if v[i].0 >= p {
            assert(forall|j: int| i < j < v@.len() ==> v@[j].0 > v@[i as int].0);
            return i;
        }
        i = i + 1;
    }
    i
}

/// The index of the level carrying price `p`, if one exists.
pub fn find_level(v: &Vec<(u32, u32)>, p: u32) -> (r: Option<usize>)
    requires
        price_sorted(v@),
    ensures
        match r {
            Some(i) => i < v@.len() && v@[i as int].0 == p,
            None => !has_price(v@, p),
        },
{
    let i = lower_bound(v, p);
    if i < v.len() && v[i].0 == p {
        Some(i)
    } else {
        proof {
            if has_price(v@, p) {
                let k = choose|k: int| 0 <= k < v@.len() && v@[k].0 == p;
                if k < i {
                    assert(v@[k].0 < p);
                } else {
                    assert(v@[k].0 >= p);
                    if i < v@.len() && k > i {
                        assert(v@[i as int].0 < v@[k].0);
                    }
                }
            }
        }
        None
    }
}

} // verus!
