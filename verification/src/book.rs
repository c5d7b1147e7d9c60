//! Level-2 order book.

use crate::decimal::Dec;
use std::collections::BTreeMap;
use vstd::prelude::*;
use vstd::std_specs::iter::IteratorSpec;
use vstd::std_specs::cmp::OrdSpec;

verus! {

broadcast use vstd::std_specs::btree::group_btree_axioms;

/// The key by which a price level is ordered and found again.
pub type PriceKey = (i128, u128);

/// Strict order of keys: the order of the prices they stand for.
pub open spec fn key_lt(a: PriceKey, b: PriceKey) -> bool {
    a.0 < b.0 || (a.0 == b.0 && a.1 < b.1)
}

/// One price level: a price and the quantity resting at it.
#[derive(Clone, Copy, Debug)]
pub struct Level {
    pub price: Dec,
    pub quantity: Dec,
}

/// `s` lists the entries of `m` with strictly increasing keys.
pub open spec fn lists_in_key_order(s: Seq<(PriceKey, Level)>, m: Map<PriceKey, Level>) -> bool {
    &&& forall|i: int| 0 <= i < s.len() ==> #[trigger] m.contains_key(s[i].0) && m[s[i].0] == s[i].1
    &&& forall|k: PriceKey| #[trigger] m.contains_key(k) ==> exists|i: int| 0 <= i < s.len() && s[i].0 == k
    &&& forall|i: int, j: int| 0 <= i < j < s.len() ==> key_lt(#[trigger] s[i].0, #[trigger] s[j].0)
}

/// The listing of the entries of `m` in key order (unique when it exists:
/// see `lemma_listing_unique`).
pub open spec fn sorted_listing(m: Map<PriceKey, Level>) -> Seq<(PriceKey, Level)> {
    choose|s: Seq<(PriceKey, Level)>| lists_in_key_order(s, m)
}

proof fn lemma_listing_len(s: Seq<(PriceKey, Level)>, m: Map<PriceKey, Level>)
    requires
        lists_in_key_order(s, m),
    ensures
        s.len() == m.dom().len(),
        m.dom().finite(),
{
    let ks = s.map_values(|e: (PriceKey, Level)| e.0);
    assert(ks.no_duplicates()) by {
        assert forall|i: int, j: int| 0 <= i < ks.len() && 0 <= j < ks.len() && i != j implies ks[i] != ks[j] by {
            assert(ks[i] == s[i].0);
            assert(ks[j] == s[j].0);
            if i < j {
                assert(key_lt(s[i].0, s[j].0));
            } else {
                assert(key_lt(s[j].0, s[i].0));
            }
        }
    }
    ks.unique_seq_to_set();
    assert(ks.to_set() =~= m.dom()) by {
        assert forall|k: PriceKey| ks.to_set().contains(k) <==> m.dom().contains(k) by {
            if m.dom().contains(k) {
                let i = choose|i: int| 0 <= i < s.len() && s[i].0 == k;
                assert(ks[i] == k);
            }
            if ks.to_set().contains(k) {
                let i = choose|i: int| 0 <= i < ks.len() && ks[i] == k;
                assert(m.contains_key(s[i].0));
            }
        }
    }
    assert(ks.len() == s.len());
}

proof fn lemma_listing_prefix(s1: Seq<(PriceKey, Level)>, s2: Seq<(PriceKey, Level)>, m: Map<PriceKey, Level>, i: int)
    requires
        lists_in_key_order(s1, m),
        lists_in_key_order(s2, m),
        s1.len() == s2.len(),
        0 <= i < s1.len(),
    ensures
        forall|t: int| 0 <= t <= i ==> s1[t].0 == s2[t].0,
    decreases i,
{
    if i > 0 {
        lemma_listing_prefix(s1, s2, m, i - 1);
    }
    let k1 = s1[i].0;
    assert(m.contains_key(k1));
    let j = choose|j: int| 0 <= j < s2.len() && s2[j].0 == k1;
    if j < i {
        assert(s1[j].0 == s2[j].0);
        assert(key_lt(s1[j].0, s1[i].0));
    } else if j > i {
        let k2 = s2[i].0;
        assert(m.contains_key(k2));
        let k = choose|k: int| 0 <= k < s1.len() && s1[k].0 == k2;
        if k < i {
            assert(s1[k].0 == s2[k].0);
            assert(key_lt(s2[k].0, s2[i].0));
        } else if k > i {
            assert(key_lt(s1[i].0, s1[k].0));
            assert(key_lt(s2[i].0, s2[j].0));
        }
    }
}

/// A map has at most one listing in key order.
pub proof fn lemma_listing_unique(s1: Seq<(PriceKey, Level)>, s2: Seq<(PriceKey, Level)>, m: Map<PriceKey, Level>)
    requires
        lists_in_key_order(s1, m),
        lists_in_key_order(s2, m),
    ensures
        s1 == s2,
{
    lemma_listing_len(s1, m);
    lemma_listing_len(s2, m);
    if s1.len() > 0 {
        lemma_listing_prefix(s1, s2, m, s1.len() - 1);
    }
    assert forall|t: int| 0 <= t < s1.len() implies s1[t] == s2[t] by {
        assert(s1[t].0 == s2[t].0);
        assert(m.contains_key(s1[t].0));
        assert(m.contains_key(s2[t].0));
    }
    assert(s1 =~= s2);
}

/// The listing of a map in key order is the one `sorted_listing` names.
pub proof fn lemma_sorted_listing(s: Seq<(PriceKey, Level)>, m: Map<PriceKey, Level>)
    requires
        lists_in_key_order(s, m),
    ensures
        sorted_listing(m) == s,
{
    let c = sorted_listing(m);
    assert(lists_in_key_order(c, m));
    lemma_listing_unique(c, s, m);
}

fn collect_levels(m: &BTreeMap<PriceKey, Level>) -> (r: Vec<(PriceKey, Level)>)
    ensures
        lists_in_key_order(r@, m@),
        r@ == sorted_listing(m@),
{
    proof {
        assert(vstd::laws_cmp::obeys_cmp::<PriceKey>());
        assert(vstd::std_specs::btree::key_obeys_cmp_spec::<PriceKey>());
    }
    let iter = m.iter();
    let ghost s0 = iter.remaining();
    let mut out: Vec<(PriceKey, Level)> = Vec::new();
    for kv in it: iter
        invariant
            out@.len() == it.index(),
            it.seq() == s0,
            forall|i: int| 0 <= i < it.index() ==> out@[i] == (*it.seq()[i].0, *it.seq()[i].1),
    {
        out.push((*kv.0, *kv.1));
    }
    proof {
        let v = s0;
        assert(v == vstd::std_specs::btree::spec_btree_map_iter(m).remaining());
        assert(v.len() == m@.dom().len());
        let ks = v.map_values(|kv: (&PriceKey, &Level)| *kv.0);
        assert(vstd::std_specs::btree::increasing_seq(ks));
        assert forall|i: int, j: int| 0 <= i < j < out@.len() implies key_lt(
            #[trigger] out@[i].0,
            #[trigger] out@[j].0,
        ) by {
            assert(ks[i] == out@[i].0);
            assert(ks[j] == out@[j].0);
            assert(ks[i].cmp_spec(&ks[j]) is Less);
        }
        assert forall|k: PriceKey| #[trigger] m@.contains_key(k) implies exists|i: int|
            0 <= i < out@.len() && out@[i].0 == k by {
            assert(v.contains((&k, &m@[k])));
            let i = choose|i: int| 0 <= i < v.len() && v[i] == (&k, &m@[k]);
            assert(out@[i].0 == k);
        }
        assert forall|i: int| 0 <= i < out@.len() implies #[trigger] m@.contains_key(out@[i].0)
            && m@[out@[i].0] == out@[i].1 by {
            assert(m@.contains_key(*v[i].0));
        }
        lemma_sorted_listing(out@, m@);
    }
    out
}


/// The levels of one side in the order a market order walks them: asks from
/// the lowest price up (`ascending`), bids from the highest price down.
pub open spec fn walk_order(s: Seq<(PriceKey, Level)>, ascending: bool) -> Seq<Level> {
    let lv = s.map_values(|e: (PriceKey, Level)| e.1);
    if ascending {
        lv
    } else {
        lv.reverse()
    }
}

/// Walks `levels`, taking from each the smaller of what is left to fill and
/// the level's quantity, until nothing is left; gives the total cost and the
/// total quantity taken, or `None` where a decimal operation overflows.
pub open spec fn walk(levels: Seq<Level>, remaining: Dec, cost: Dec, filled: Dec) -> Option<(Dec, Dec)>
    decreases levels.len(),
{
    if levels.len() == 0 {
        Some((cost, filled))
    } else {
        let l = levels[0];
        let take = if remaining.units() <= l.quantity.units() { remaining } else { l.quantity };
        match crate::decimal::decimal_mul(take, l.price) {
            None => None,
            Some(tp) => match crate::decimal::decimal_add(cost, tp) {
                None => None,
                Some(c2) => match crate::decimal::decimal_add(filled, take) {
                    None => None,
                    Some(f2) => match crate::decimal::decimal_sub(remaining, take) {
                        None => None,
                        Some(r2) => if r2.units() == 0 {
                            Some((c2, f2))
                        } else {
                            walk(levels.drop_first(), r2, c2, f2)
                        },
                    },
                },
            },
        }
    }
}

/// The total quantity of `levels`, in units of 10^-28.
pub open spec fn depth(levels: Seq<Level>) -> int
    decreases levels.len(),
{
    if levels.len() == 0 {
        0
    } else {
        depth(levels.drop_last()) + levels.last().quantity.units()
    }
}

/// Every level holds a positive quantity.
pub open spec fn positive_levels(levels: Seq<Level>) -> bool {
    forall|i: int| 0 <= i < levels.len() ==> (#[trigger] levels[i]).quantity.units() > 0
}

/// The largest scale among `size` and the quantities of `levels`.
pub open spec fn qty_scale(levels: Seq<Level>, size: Dec) -> nat
    decreases levels.len(),
{
    if levels.len() == 0 {
        size.scl()
    } else {
        let rest = qty_scale(levels.drop_last(), size);
        let q = levels.last().quantity.scl();
        if rest >= q {
            rest
        } else {
            q
        }
    }
}

/// The largest scale among the prices of `levels`.
pub open spec fn price_scale(levels: Seq<Level>) -> nat
    decreases levels.len(),
{
    if levels.len() == 0 {
        0
    } else {
        let rest = price_scale(levels.drop_last());
        let p = levels.last().price.scl();
        if rest >= p {
            rest
        } else {
            p
        }
    }
}

/// The lowest price of `levels`, in units (0 when there is none).
pub open spec fn lowest_units(levels: Seq<Level>) -> int
    decreases levels.len(),
{
    if levels.len() == 0 {
        0
    } else if levels.len() == 1 {
        levels[0].price.units()
    } else {
        let rest = lowest_units(levels.drop_last());
        let p = levels.last().price.units();
        if rest <= p {
            rest
        } else {
            p
        }
    }
}

/// The highest price of `levels`, in units (0 when there is none).
pub open spec fn highest_units(levels: Seq<Level>) -> int
    decreases levels.len(),
{
    if levels.len() == 0 {
        0
    } else if levels.len() == 1 {
        levels[0].price.units()
    } else {
        let rest = highest_units(levels.drop_last());
        let p = levels.last().price.units();
        if rest >= p {
            rest
        } else {
            p
        }
    }
}

/// The premises of the cost law, beside those of the fill law: positive
/// prices, quantity and price scales adding up to at most 28, and the size
/// times the highest price small enough to be written in 96 bits at that
/// combined scale (so that no product or sum of costs rounds).
pub open spec fn cost_law(levels: Seq<Level>, size: Dec) -> bool {
    let sc = qty_scale(levels, size) + price_scale(levels);
    &&& forall|i: int| 0 <= i < levels.len() ==> (#[trigger] levels[i]).price.units() > 0
    &&& sc <= crate::decimal::MAX_SCALE
    &&& size.units() * highest_units(levels) <= crate::decimal::MAX_MANTISSA * crate::decimal::pow10(
        (crate::decimal::MAX_SCALE - sc) as nat,
    ) * crate::decimal::unit_count()
}

/// The smaller of two integers.
pub open spec fn min_int(a: int, b: int) -> int {
    if a <= b {
        a
    } else {
        b
    }
}

/// The average fill price and the quantity filled when `size` is taken from
/// `levels` in order: `(0, 0)` when nothing is filled; `None` where a decimal
/// operation overflows.
pub open spec fn fill_outcome(levels: Seq<Level>, size: Dec) -> Option<(Dec, Dec)> {
    match walk(levels, size, Dec::spec_zero(), Dec::spec_zero()) {
        None => None,
        Some((cost, filled)) => if filled.units() == 0 {
            Some((Dec::spec_zero(), Dec::spec_zero()))
        } else {
            match crate::decimal::decimal_div(cost, filled) {
                None => None,
                Some(avg) => Some((avg, filled)),
            }
        },
    }
}

/// A level-2 order book: for each side, the quantity resting at each price.
/// Each side is kept in a `BTreeMap` keyed by the price's order key, so that
/// prices equal as numbers share one level, and levels are walked in price
/// order.
#[derive(Debug)]
pub struct L2OrderBook {
    pub exchange: String,
    pub symbol: String,
    pub bids: BTreeMap<PriceKey, Level>,
    pub asks: BTreeMap<PriceKey, Level>,
    pub last_update_id: u64,
    pub local_timestamp: i64,
}

/// The side after an update at `price`: the level is removed when the
/// quantity is zero, and otherwise set to the quantity.  A level that
/// already exists keeps the price it was first entered with.
pub open spec fn side_after_update(side: Map<PriceKey, Level>, price: Dec, quantity: Dec) -> Map<PriceKey, Level> {
    if quantity.units() == 0 {
        side.remove(price.key())
    } else if side.contains_key(price.key()) {
        side.insert(price.key(), Level { price: side[price.key()].price, quantity })
    } else {
        side.insert(price.key(), Level { price, quantity })
    }
}

/// The price of the level with the greatest key, if any.
pub open spec fn highest_price(side: Map<PriceKey, Level>, p: Option<Dec>) -> bool {
    match p {
        None => side.dom().is_empty(),
        Some(p) => exists|k: PriceKey| #[trigger] side.contains_key(k) && side[k].price == p
            && forall|k2: PriceKey| #[trigger] side.contains_key(k2) ==> !key_lt(k, k2),
    }
}

/// The price of the level with the least key, if any.
pub open spec fn lowest_price(side: Map<PriceKey, Level>, p: Option<Dec>) -> bool {
    match p {
        None => side.dom().is_empty(),
        Some(p) => exists|k: PriceKey| #[trigger] side.contains_key(k) && side[k].price == p
            && forall|k2: PriceKey| #[trigger] side.contains_key(k2) ==> !key_lt(k2, k),
    }
}

/// Mid price of a best bid and a best ask: `(bid + ask) / 2`, `None` where
/// the arithmetic overflows.
pub open spec fn mid_of(bid: Dec, ask: Dec) -> Option<Dec> {
    match crate::decimal::decimal_add(bid, ask) {
        None => None,
        Some(s) => crate::decimal::decimal_div(s, Dec::spec_two()),
    }
}

/// A side with no level.
pub open spec fn no_levels() -> Map<PriceKey, Level> {
    Map::empty()
}

/// What a book holds, as plain values.
pub struct BookView {
    pub exchange: Seq<char>,
    pub symbol: Seq<char>,
    pub bids: Map<PriceKey, Level>,
    pub asks: Map<PriceKey, Level>,
    pub last_update_id: u64,
    pub local_timestamp: i64,
}

impl View for L2OrderBook {
    type V = BookView;

    open spec fn view(&self) -> BookView {
        BookView {
            exchange: self.exchange@,
            symbol: self.symbol@,
            bids: self.bids@,
            asks: self.asks@,
            last_update_id: self.last_update_id,
            local_timestamp: self.local_timestamp,
        }
    }
}

/// What a market order of `size` gets from a book: asks walked from the
/// lowest price up for a buy, bids from the highest price down for a sell
/// (see `fill_outcome`).
pub open spec fn book_fill(b: BookView, size: Dec, is_buy: bool) -> Option<(Dec, Dec)> {
    fill_outcome(walk_order(sorted_listing(if is_buy { b.asks } else { b.bids }), is_buy), size)
}

impl L2OrderBook {
    pub open spec fn bid_map(&self) -> Map<PriceKey, Level> {
        self.bids@
    }

    pub open spec fn ask_map(&self) -> Map<PriceKey, Level> {
        self.asks@
    }

    /// Both sides keep each level under its own price's key, with a
    /// non-zero quantity.
    pub open spec fn is_consistent(&self) -> bool {
        levels_consistent(self.bid_map()) && levels_consistent(self.ask_map())
    }

    /// The side a market order of this direction takes from: asks for a buy,
    /// bids for a sell.
    pub open spec fn side(&self, is_buy: bool) -> Map<PriceKey, Level> {
        if is_buy {
            self.ask_map()
        } else {
            self.bid_map()
        }
    }

    /// An empty book for `symbol` on `exchange`.
    pub fn new(exchange: &str, symbol: &str) -> (r: L2OrderBook)
        ensures
            r.exchange@ == exchange@,
            r.symbol@ == symbol@,
            r.bid_map() == no_levels(),
            r.ask_map() == no_levels(),
            r.is_consistent(),
            r.last_update_id == 0,
            r.local_timestamp == 0,
    {
        L2OrderBook {
            exchange: exchange.to_string(),
            symbol: symbol.to_string(),
            bids: BTreeMap::new(),
            asks: BTreeMap::new(),
            last_update_id: 0,
            local_timestamp: 0,
        }
    }

    /// Sets (or, with a zero quantity, removes) the bid level at `price`.
    pub fn update_bid(&mut self, price: Dec, quantity: Dec)
        ensures
            final(self).bid_map() == side_after_update(old(self).bid_map(), price, quantity),
            final(self).ask_map() == old(self).ask_map(),
            old(self).is_consistent() ==> final(self).is_consistent(),
            final(self).exchange == old(self).exchange,
            final(self).symbol == old(self).symbol,
            final(self).last_update_id == old(self).last_update_id,
            final(self).local_timestamp == old(self).local_timestamp,
    {
        price.well_formed();
        quantity.well_formed();
        proof {
            if levels_consistent(self.bid_map()) {
                lemma_update_then_read(self.bid_map(), price, quantity);
            }
        }
        update_side(&mut self.bids, price, quantity);
    }

    /// Sets (or, with a zero quantity, removes) the ask level at `price`.
    pub fn update_ask(&mut self, price: Dec, quantity: Dec)
        ensures
            final(self).ask_map() == side_after_update(old(self).ask_map(), price, quantity),
            final(self).bid_map() == old(self).bid_map(),
            old(self).is_consistent() ==> final(self).is_consistent(),
            final(self).exchange == old(self).exchange,
            final(self).symbol == old(self).symbol,
            final(self).last_update_id == old(self).last_update_id,
            final(self).local_timestamp == old(self).local_timestamp,
    {
        price.well_formed();
        quantity.well_formed();
        proof {
            if levels_consistent(self.ask_map()) {
                lemma_update_then_read(self.ask_map(), price, quantity);
            }
        }
        update_side(&mut self.asks, price, quantity);
    }

    /// The bid levels from the lowest price up.
    pub fn bid_levels(&self) -> (r: Vec<Level>)
        ensures
            exists|s: Seq<(PriceKey, Level)>| lists_in_key_order(s, self.bid_map()) && r@ == walk_order(s, true),
    {
        levels_of(&self.bids)
    }

    /// The ask levels from the lowest price up.
    pub fn ask_levels(&self) -> (r: Vec<Level>)
        ensures
            exists|s: Seq<(PriceKey, Level)>| lists_in_key_order(s, self.ask_map()) && r@ == walk_order(s, true),
    {
        levels_of(&self.asks)
    }

    /// What a market order of `size` in this direction gets: see
    /// `fill_outcome`, over the side's levels in walking order.
    pub open spec fn fill_spec(&self, size: Dec, is_buy: bool) -> Option<(Dec, Dec)> {
        book_fill(self@, size, is_buy)
    }

    /// The levels a market order of this direction walks, in order: asks
    /// from the lowest price for a buy, bids from the highest for a sell.
    pub open spec fn walked_levels(&self, is_buy: bool) -> Seq<Level> {
        walk_order(sorted_listing(self.side(is_buy)), is_buy)
    }

    fn fill_checked(&self, size: Dec, is_buy: bool) -> (r: Option<(Dec, Dec)>)
        ensures
            r == self.fill_spec(size, is_buy),
            r matches Some((avg, f)) ==> (filled_law(self.walked_levels(is_buy), size) ==> f.units() == min_int(
                size.units(),
                depth(self.walked_levels(is_buy)),
            )),
            r matches Some((avg, f)) ==> (f.units() != 0 && filled_law(self.walked_levels(is_buy), size) && cost_law(
                self.walked_levels(is_buy),
                size,
            ) ==> fill_priced(self.walked_levels(is_buy), avg, f)),
    {
        let entries = if is_buy {
            collect_levels(&self.asks)
        } else {
            collect_levels(&self.bids)
        };
        fill_levels(&entries, is_buy, size)
    }

    /// Average price and quantity filled when a market order of `size` walks
    /// the book (asks from the lowest price for a buy, bids from the highest
    /// for a sell), stopping once `size` is filled; `(0, 0)` when nothing
    /// fills.  `None` where a decimal operation overflows.
    pub fn try_estimate_fill_price(&self, size: Dec, is_buy: bool) -> (r: Option<(Dec, Dec)>)
        ensures
            r == self.fill_spec(size, is_buy),
            r matches Some((avg, f)) ==> (filled_law(self.walked_levels(is_buy), size) ==> f.units() == min_int(
                size.units(),
                depth(self.walked_levels(is_buy)),
            )),
            r matches Some((avg, f)) ==> (f.units() != 0 && filled_law(self.walked_levels(is_buy), size) && cost_law(
                self.walked_levels(is_buy),
                size,
            ) ==> fill_priced(self.walked_levels(is_buy), avg, f)),
    {
        match self.fill_checked(size, is_buy) {
            None => None,
            Some(_) => Some(self.estimate_fill_price(size, is_buy)),
        }
    }

    /// Estimates the average fill price for a given size by walking the
    /// book; returns `(avg_price, total_filled)`.  Where the levels hold
    /// positive quantities, the size is not negative and the size and the
    /// side's total quantity fit in 96 bits at their largest scale
    /// (`filled_law`), the quantity filled is the smaller of the size and
    /// that total.  When, in addition, prices are positive and the size times
    /// the highest price fits at the combined scale (`cost_law`), a positive
    /// fill's average is the division of a cost that lies between the
    /// quantity filled at the side's lowest and at its highest price.
    pub fn estimate_fill_price(&self, size: Dec, is_buy: bool) -> (r: (Dec, Dec))
        requires
            self.fill_spec(size, is_buy) is Some,
        ensures
            Some(r) == self.fill_spec(size, is_buy),
            filled_law(self.walked_levels(is_buy), size) ==> r.1.units() == min_int(
                size.units(),
                depth(self.walked_levels(is_buy)),
            ),
            r.1.units() == 0 ==> r.0 == Dec::spec_zero(),
            r.1.units() != 0 && filled_law(self.walked_levels(is_buy), size) && cost_law(
                self.walked_levels(is_buy),
                size,
            ) ==> fill_priced(self.walked_levels(is_buy), r.0, r.1),
    {
        match self.fill_checked(size, is_buy) {
            Some(v) => v,
            None => (Dec::zero(), Dec::zero()),
        }
    }

    fn mid_checked(&self) -> (r: Option<Option<Dec>>)
        ensures
            exists|b: Option<Dec>, a: Option<Dec>|
                highest_price(self.bid_map(), b) && lowest_price(self.ask_map(), a) && r == (match (b, a) {
                    (Some(b), Some(a)) => match mid_of(b, a) {
                        Some(m) => Some(Some(m)),
                        None => None,
                    },
                    _ => Some(None),
                }),
    {
        let b = self.best_bid();
        let a = self.best_ask();
        match (b, a) {
            (Some(b), Some(a)) => {
                match b.checked_add(&a) {
                    None => None,
                    Some(sum) => match sum.checked_div(&Dec::two()) {
                        None => None,
                        Some(m) => Some(Some(m)),
                    },
                }
            },
            _ => Some(None),
        }
    }

    /// The mid price `(best_bid + best_ask) / 2` when both sides have a
    /// level: `Some(None)` when a side is empty, `None` where the arithmetic
    /// overflows.
    pub fn try_mid_price(&self) -> (r: Option<Option<Dec>>)
        ensures
            exists|b: Option<Dec>, a: Option<Dec>|
                highest_price(self.bid_map(), b) && lowest_price(self.ask_map(), a) && r == (match (b, a) {
                    (Some(b), Some(a)) => match mid_of(b, a) {
                        Some(m) => Some(Some(m)),
                        None => None,
                    },
                    _ => Some(None),
                }),
    {
        match self.mid_checked() {
            None => None,
            Some(_) => {
                proof {
                    lemma_mid_defined(self.bid_map(), self.ask_map());
                }
                Some(self.mid_price())
            },
        }
    }

    /// The mid price `(best_bid + best_ask) / 2`, `None` when a side is
    /// empty.
    pub fn mid_price(&self) -> (r: Option<Dec>)
        requires
            forall|b: Dec, a: Dec|
                highest_price(self.bid_map(), Some(b)) && lowest_price(self.ask_map(), Some(a))
                    ==> #[trigger] mid_of(b, a) is Some,
        ensures
            exists|b: Option<Dec>, a: Option<Dec>|
                highest_price(self.bid_map(), b) && lowest_price(self.ask_map(), a) && r == (match (b, a) {
                    (Some(b), Some(a)) => mid_of(b, a),
                    _ => None,
                }),
    {
        let b = self.best_bid();
        let a = self.best_ask();
        match (b, a) {
            (Some(b), Some(a)) => {
                match b.checked_add(&a) {
                    None => {
                        proof {
                            assert(mid_of(b, a) is Some);
                        }
                        None
                    },
                    Some(sum) => sum.checked_div(&Dec::two()),
                }
            },
            _ => None,
        }
    }

    /// The highest bid price (as `bids.keys().last()`).
    pub fn best_bid(&self) -> (r: Option<Dec>)
        ensures
            highest_price(self.bid_map(), r),
    {
        let levels = collect_levels(&self.bids);
        let n = levels.len();
        if n == 0 {
            proof {
                lemma_listing_empty(levels@, self.bid_map());
            }
            None
        } else {
            proof {
                lemma_listing_last(levels@, self.bid_map());
            }
            Some(levels[n - 1].1.price)
        }
    }

    /// The lowest ask price (as `asks.keys().next()`).
    pub fn best_ask(&self) -> (r: Option<Dec>)
        ensures
            lowest_price(self.ask_map(), r),
    {
        let levels = collect_levels(&self.asks);
        if levels.len() == 0 {
            proof {
                lemma_listing_empty(levels@, self.ask_map());
            }
            None
        } else {
            proof {
                lemma_listing_first(levels@, self.ask_map());
            }
            Some(levels[0].1.price)
        }
    }
}

/// Runs the walk of `fill_outcome` over `entries` (a listing in key order),
/// ascending or descending.
fn fill_levels(entries: &Vec<(PriceKey, Level)>, ascending: bool, size: Dec) -> (r: Option<(Dec, Dec)>)
    ensures
        r == fill_outcome(walk_order(entries@, ascending), size),
        r matches Some((avg, f)) ==> (filled_law(walk_order(entries@, ascending), size) ==> f.units() == min_int(
            size.units(),
            depth(walk_order(entries@, ascending)),
        )),
        r matches Some((avg, f)) ==> (f.units() != 0 && filled_law(walk_order(entries@, ascending), size) && cost_law(
            walk_order(entries@, ascending),
            size,
        ) ==> fill_priced(walk_order(entries@, ascending), avg, f)),
{
    let walked = walk_levels(entries, ascending, size);
    match walked {
        None => None,
        Some((cost, filled)) => {
            if filled.is_zero() {
                proof {
                    crate::decimal::lemma_zero_units();
                }
                Some((Dec::zero(), Dec::zero()))
            } else {
                match cost.checked_div(&filled) {
                    None => None,
                    Some(avg) => {
                        proof {
                            if filled.units() != 0 && filled_law(walk_order(entries@, ascending), size) && cost_law(
                                walk_order(entries@, ascending),
                                size,
                            ) {
                                assert(cost_between(walk_order(entries@, ascending), cost, filled));
                            }
                        }
                        Some((avg, filled))
                    },
                }
            }
        },
    }
}

fn walk_levels(entries: &Vec<(PriceKey, Level)>, ascending: bool, size: Dec) -> (r: Option<(Dec, Dec)>)
    ensures
        r == walk(walk_order(entries@, ascending), size, Dec::spec_zero(), Dec::spec_zero()),
        r matches Some((c, f)) ==> (filled_law(walk_order(entries@, ascending), size) ==> f.units() == min_int(
            size.units(),
            depth(walk_order(entries@, ascending)),
        )),
        r matches Some((c, f)) ==> (filled_law(walk_order(entries@, ascending), size) && cost_law(
            walk_order(entries@, ascending),
            size,
        ) ==> cost_between(walk_order(entries@, ascending), c, f)),
{
    let ghost w = walk_order(entries@, ascending);
    let n = entries.len();
    let mut remaining = size;
    let mut cost = Dec::zero();
    let mut filled = Dec::zero();
    let mut j: usize = 0;
    proof {
        assert(w.skip(0) =~= w);
        assert(w.take(0) =~= Seq::<Level>::empty());
        crate::decimal::lemma_zero_units();
        lemma_qty_scale(w, size);
    }
    while j < n
        invariant
            j <= n,
            n == entries@.len(),
            w.len() == n,
            w == walk_order(entries@, ascending),
            walk(w.skip(j as int), remaining, cost, filled) == walk(w, size, Dec::spec_zero(), Dec::spec_zero()),
            filled_law(w, size) ==> {
                &&& remaining.scl() <= qty_scale(w, size)
                &&& filled.scl() <= qty_scale(w, size)
                &&& remaining.units() == size.units() - depth(w.take(j as int))
                &&& filled.units() == size.units() - remaining.units()
                &&& remaining.units() >= 0
                &&& (j > 0 ==> remaining.units() > 0)
            },
            filled_law(w, size) && cost_law(w, size) ==> {
                &&& cost.scl() <= qty_scale(w, size) + price_scale(w)
                &&& cost.units() >= 0
                &&& cost_between(w, cost, filled)
            },
        decreases n - j,
    {
        let idx = if ascending { j } else { n - 1 - j };
        let l = entries[idx].1;
        proof {
            assert(l == w[j as int]);
            assert(w.skip(j as int)[0] == w[j as int]);
            assert(w.skip(j as int).drop_first() =~= w.skip(j + 1));
        }
        let take = remaining.min(l.quantity);
        proof {
            if filled_law(w, size) {
                lemma_fill_step_exact(w, size, j as int, remaining, filled, take);
                if cost_law(w, size) {
                    lemma_cost_product_exact(w, size, j as int, take);
                }
            }
        }
        let tp = match take.checked_mul(&l.price) {
            None => return None,
            Some(x) => x,
        };
        proof {
            if filled_law(w, size) && cost_law(w, size) {
                lemma_product_units(take, l.price);
                lemma_price_bounds(w);
                crate::decimal::lemma_pow10_28();
                crate::decimal::lemma_pow10_positive((28 - take.scl() - l.price.scl()) as nat);
                lemma_cost_sum_exact(w, size, cost, tp, filled.units(), take.units());
            }
        }
        let c2 = match cost.checked_add(&tp) {
            None => return None,
            Some(x) => x,
        };
        let f2 = match filled.checked_add(&take) {
            None => return None,
            Some(x) => x,
        };
        let r2 = match remaining.checked_sub(&take) {
            None => return None,
            Some(x) => x,
        };
        proof {
            assert(w.take(j + 1).drop_last() =~= w.take(j as int));
            if filled_law(w, size) {
                assert(positive_levels(w));
                assert(w[j as int].quantity.units() > 0);
                lemma_depth_prefix(w, j + 1);
                lemma_qty_scale(w, size);
                if cost_law(w, size) {
                    lemma_cost_step(w, cost, filled, tp, take, c2, f2);
                }
            }
        }
        if r2.is_zero() {
            return Some((c2, f2));
        }
        remaining = r2;
        cost = c2;
        filled = f2;
        j = j + 1;
    }
    proof {
        assert(w.take(n as int) =~= w);
    }
    Some((cost, filled))
}

/// One step of the walk under the fill law's premises: adding the quantity
/// taken to the quantity filled, and subtracting it from the quantity left,
/// need no rounding.
proof fn lemma_fill_step_exact(w: Seq<Level>, size: Dec, j: int, remaining: Dec, filled: Dec, take: Dec)
    requires
        filled_law(w, size),
        0 <= j < w.len(),
        remaining.scl() <= qty_scale(w, size),
        filled.scl() <= qty_scale(w, size),
        remaining.units() == size.units() - depth(w.take(j)),
        filled.units() == size.units() - remaining.units(),
        remaining.units() >= 0,
        take == (if remaining.units() <= w[j].quantity.units() { remaining } else { w[j].quantity }),
    ensures
        crate::decimal::exact_sum(filled, take, false),
        crate::decimal::exact_sum(remaining, take, true),
        take.scl() <= qty_scale(w, size),
        0 <= take.units() <= remaining.units(),
        take.units() <= size.units(),
        filled.units() >= 0,
{
    let sc = qty_scale(w, size);
    lemma_qty_scale(w, size);
    assert(w[j].quantity.scl() <= sc);
    assert(w[j].quantity.units() > 0);
    lemma_depth_prefix(w, j);
    lemma_depth_nonneg(w.take(j));
    assert(positive_levels(w.take(j))) by {
        assert forall|i: int| 0 <= i < w.take(j).len() implies (#[trigger] w.take(j)[i]).quantity.units() > 0 by {
            assert(w.take(j)[i] == w[i]);
        }
    }
    lemma_depth_nonneg(w.take(j));
    let c1 = crate::decimal::common_scale(filled, take);
    let p1 = crate::decimal::pow10((crate::decimal::MAX_SCALE - c1) as nat);
    crate::decimal::lemma_units_at(filled, c1);
    crate::decimal::lemma_units_at(take, c1);
    let mf = crate::decimal::mant_at(filled, c1);
    let mt = crate::decimal::mant_at(take, c1);
    crate::decimal::lemma_mant_fits(filled.units(), mf, c1, sc);
    crate::decimal::lemma_mant_fits(take.units(), mt, c1, sc);
    assert((mf + mt) * p1 == mf * p1 + mt * p1) by (nonlinear_arith);
    crate::decimal::lemma_mant_fits(filled.units() + take.units(), mf + mt, c1, sc);
    let c2 = crate::decimal::common_scale(remaining, take);
    let p2 = crate::decimal::pow10((crate::decimal::MAX_SCALE - c2) as nat);
    crate::decimal::lemma_units_at(remaining, c2);
    crate::decimal::lemma_units_at(take, c2);
    let mr = crate::decimal::mant_at(remaining, c2);
    let mt2 = crate::decimal::mant_at(take, c2);
    crate::decimal::lemma_mant_fits(remaining.units(), mr, c2, sc);
    crate::decimal::lemma_mant_fits(take.units(), mt2, c2, sc);
    assert((mr - mt2) * p2 == mr * p2 - mt2 * p2) by (nonlinear_arith);
    crate::decimal::lemma_mant_fits(remaining.units() - take.units(), mr - mt2, c2, sc);
}

/// Every price lies between the lowest and the highest, and its scale is
/// at most `price_scale`.
proof fn lemma_price_bounds(levels: Seq<Level>)
    ensures
        forall|i: int| 0 <= i < levels.len() ==> lowest_units(levels) <= (#[trigger] levels[i]).price.units()
            <= highest_units(levels) && levels[i].price.scl() <= price_scale(levels),
    decreases levels.len(),
{
    if levels.len() > 1 {
        let p = levels.drop_last();
        lemma_price_bounds(p);
        assert forall|i: int| 0 <= i < levels.len() implies lowest_units(levels) <= (#[trigger] levels[i]).price.units()
            <= highest_units(levels) && levels[i].price.scl() <= price_scale(levels) by {
            if i < levels.len() - 1 {
                assert(levels[i] == p[i]);
            }
        }
    } else if levels.len() == 1 {
        assert(levels.drop_last().len() == 0);
    }
}

/// The units of a product: `units(a) * units(b) == mant(a) * mant(b) *
/// 10^(28 - scale(a) - scale(b)) * 10^28`.
proof fn lemma_product_units(a: Dec, b: Dec)
    requires
        a.scl() + b.scl() <= crate::decimal::MAX_SCALE,
    ensures
        a.units() * b.units() == a.mant() * b.mant() * crate::decimal::pow10(
            (crate::decimal::MAX_SCALE - a.scl() - b.scl()) as nat,
        ) * crate::decimal::unit_count(),
{
    let sa = a.scl();
    let sb = b.scl();
    let pa = crate::decimal::pow10((28 - sa) as nat);
    let pb = crate::decimal::pow10((28 - sb) as nat);
    let pr = crate::decimal::pow10((28 - sa - sb) as nat);
    let p28 = crate::decimal::pow10(28);
    crate::decimal::lemma_units_def(a, 0, 0);
    crate::decimal::lemma_units_def(b, 0, 0);
    crate::decimal::lemma_pow10_adds((28 - sa - sb) as nat, sb);
    assert(((28 - sa - sb) + sb) as nat == (28 - sa) as nat);
    crate::decimal::lemma_pow10_adds(sb, (28 - sb) as nat);
    assert((sb + (28 - sb)) as nat == 28nat);
    crate::decimal::lemma_pow10_28();
    let ps = crate::decimal::pow10(sb);
    let ma = a.mant();
    let mb = b.mant();
    assert(pa == pr * ps);
    assert(ps * pb == p28);
    assert(a.units() == ma * pa);
    assert(b.units() == mb * pb);
    assert(a.units() * b.units() == ma * mb * pr * p28) by (nonlinear_arith)
        requires
            a.units() == ma * pa,
            b.units() == mb * pb,
            pa == pr * ps,
            ps * pb == p28,
    ;
    assert(p28 == crate::decimal::unit_count());
}

/// Under the cost law, the quantity taken times a level's price needs no
/// rounding, and its units times 10^28 are at most the size times the
/// highest price.
proof fn lemma_cost_product_exact(w: Seq<Level>, size: Dec, j: int, take: Dec)
    requires
        filled_law(w, size),
        cost_law(w, size),
        0 <= j < w.len(),
        take.scl() <= qty_scale(w, size),
        0 <= take.units() <= size.units(),
    ensures
        crate::decimal::exact_product(take, w[j].price),
        take.units() * w[j].price.units() <= size.units() * highest_units(w),
        lowest_units(w) * take.units() <= take.units() * w[j].price.units() <= highest_units(w) * take.units(),
{
    let price = w[j].price;
    lemma_price_bounds(w);
    let sc = (qty_scale(w, size) + price_scale(w)) as nat;
    let hi = highest_units(w);
    let lo = lowest_units(w);
    assert(price.units() > 0);
    assert(lo <= price.units() <= hi);
    assert(take.units() * price.units() <= size.units() * hi) by (nonlinear_arith)
        requires
            0 <= take.units() <= size.units(),
            0 < price.units() <= hi,
    ;
    assert(lo * take.units() <= take.units() * price.units() <= hi * take.units()) by (nonlinear_arith)
        requires
            0 <= take.units(),
            lo <= price.units() <= hi,
    ;
    lemma_product_units(take, price);
    let m = take.mant() * price.mant();
    let st = (take.scl() + price.scl()) as nat;
    let pst = crate::decimal::pow10((28 - st) as nat);
    let u = m * pst;
    let big = crate::decimal::MAX_MANTISSA * crate::decimal::pow10((28 - sc) as nat);
    crate::decimal::lemma_pow10_28();
    assert(u * crate::decimal::unit_count() == take.units() * price.units());
    assert(u <= big) by (nonlinear_arith)
        requires
            u * crate::decimal::unit_count() <= big * crate::decimal::unit_count(),
            crate::decimal::unit_count() > 0,
    ;
    crate::decimal::lemma_units_def(take, 0, 0);
    crate::decimal::lemma_units_def(price, 0, 0);
    crate::decimal::lemma_pow10_positive((28 - take.scl()) as nat);
    crate::decimal::lemma_pow10_positive((28 - price.scl()) as nat);
    crate::decimal::lemma_pow10_positive((28 - st) as nat);
    assert(take.mant() >= 0) by (nonlinear_arith)
        requires
            take.units() == take.mant() * crate::decimal::pow10((28 - take.scl()) as nat),
            take.units() >= 0,
            crate::decimal::pow10((28 - take.scl()) as nat) >= 1,
    ;
    assert(price.mant() > 0) by (nonlinear_arith)
        requires
            price.units() == price.mant() * crate::decimal::pow10((28 - price.scl()) as nat),
            price.units() > 0,
            crate::decimal::pow10((28 - price.scl()) as nat) >= 1,
    ;
    assert(u >= 0) by (nonlinear_arith)
        requires
            u == m * pst,
            m == take.mant() * price.mant(),
            take.mant() >= 0,
            price.mant() > 0,
            pst >= 1,
    ;
    crate::decimal::lemma_mant_fits(u, m, st, sc);
}

/// Under the cost law, adding a product to the cost needs no rounding.
proof fn lemma_cost_sum_exact(w: Seq<Level>, size: Dec, cost: Dec, tp: Dec, filled_units: int, take_units: int)
    requires
        cost_law(w, size),
        cost.scl() <= qty_scale(w, size) + price_scale(w),
        tp.scl() <= qty_scale(w, size) + price_scale(w),
        0 <= cost.units(),
        0 <= tp.units(),
        cost.units() * crate::decimal::unit_count() <= highest_units(w) * filled_units,
        tp.units() * crate::decimal::unit_count() <= highest_units(w) * take_units,
        0 <= filled_units,
        0 <= take_units,
        filled_units + take_units <= size.units(),
        highest_units(w) >= 0,
    ensures
        crate::decimal::exact_sum(cost, tp, false),
{
    let sc = (qty_scale(w, size) + price_scale(w)) as nat;
    let hi = highest_units(w);
    let big = crate::decimal::MAX_MANTISSA * crate::decimal::pow10((28 - sc) as nat);
    crate::decimal::lemma_pow10_28();
    let uc = crate::decimal::unit_count();
    assert((cost.units() + tp.units()) * uc <= size.units() * hi) by (nonlinear_arith)
        requires
            cost.units() * uc <= hi * filled_units,
            tp.units() * uc <= hi * take_units,
            filled_units + take_units <= size.units(),
            hi >= 0,
    ;
    assert(cost.units() + tp.units() <= big) by (nonlinear_arith)
        requires
            (cost.units() + tp.units()) * uc <= size.units() * hi,
            size.units() * hi <= big * uc,
            uc > 0,
    ;
    let c = crate::decimal::common_scale(cost, tp);
    let pc = crate::decimal::pow10((28 - c) as nat);
    crate::decimal::lemma_units_at(cost, c);
    crate::decimal::lemma_units_at(tp, c);
    let mc = crate::decimal::mant_at(cost, c);
    let mt = crate::decimal::mant_at(tp, c);
    crate::decimal::lemma_mant_fits(cost.units(), mc, c, sc);
    crate::decimal::lemma_mant_fits(tp.units(), mt, c, sc);
    assert((mc + mt) * pc == mc * pc + mt * pc) by (nonlinear_arith);
    crate::decimal::lemma_mant_fits(cost.units() + tp.units(), mc + mt, c, sc);
}

/// The cost of `filled` lies between `filled` at the lowest and at the
/// highest price of `levels` (in units, scaled by 10^28).
pub open spec fn cost_between(levels: Seq<Level>, cost: Dec, filled: Dec) -> bool {
    lowest_units(levels) * filled.units() <= cost.units() * crate::decimal::unit_count() <= highest_units(levels)
        * filled.units()
}

/// Whether `avg` is the average price of a fill of `filled` from `levels`:
/// the division of some cost by `filled`, where that cost lies between
/// `filled` at the lowest and at the highest price of `levels`.
pub open spec fn fill_priced(levels: Seq<Level>, avg: Dec, filled: Dec) -> bool {
    exists|cost: Dec| crate::decimal::decimal_div(cost, filled) == Some(avg) && cost_between(levels, cost, filled)
}

/// Adding a step's product to the cost keeps the cost between the bounds.
proof fn lemma_cost_step(w: Seq<Level>, cost: Dec, filled: Dec, tp: Dec, take: Dec, c2: Dec, f2: Dec)
    requires
        cost_between(w, cost, filled),
        lowest_units(w) * take.units() <= tp.units() * crate::decimal::unit_count() <= highest_units(w)
            * take.units(),
        c2.units() == cost.units() + tp.units(),
        f2.units() == filled.units() + take.units(),
    ensures
        cost_between(w, c2, f2),
{
    let lo = lowest_units(w);
    let hi = highest_units(w);
    let uc = crate::decimal::unit_count();
    assert(lo * f2.units() == lo * filled.units() + lo * take.units()) by (nonlinear_arith)
        requires
            f2.units() == filled.units() + take.units(),
    ;
    assert(hi * f2.units() == hi * filled.units() + hi * take.units()) by (nonlinear_arith)
        requires
            f2.units() == filled.units() + take.units(),
    ;
    assert(c2.units() * uc == cost.units() * uc + tp.units() * uc) by (nonlinear_arith)
        requires
            c2.units() == cost.units() + tp.units(),
    ;
}

/// The levels an order walks come in price order, best first: on a
/// consistent side listed in key order, a buy (ascending walk) meets
/// strictly increasing prices and a sell (descending walk) strictly
/// decreasing ones, so every level taken is at least as good as every level
/// not yet taken; the walk holds each level of the side once.
pub proof fn lemma_walk_price_order(s: Seq<(PriceKey, Level)>, m: Map<PriceKey, Level>, ascending: bool)
    requires
        lists_in_key_order(s, m),
        levels_consistent(m),
    ensures
        walk_order(s, ascending).len() == s.len(),
        forall|i: int, j: int|
            0 <= i < j < walk_order(s, ascending).len() ==> (if ascending {
                (#[trigger] walk_order(s, ascending)[i]).price.units() < (#[trigger] walk_order(s, ascending)[j]).price.units()
            } else {
                walk_order(s, ascending)[i].price.units() > walk_order(s, ascending)[j].price.units()
            }),
{
    let w = walk_order(s, ascending);
    let n = s.len();
    assert forall|i: int, j: int| 0 <= i < j < w.len() implies (if ascending {
        (#[trigger] w[i]).price.units() < (#[trigger] w[j]).price.units()
    } else {
        w[i].price.units() > w[j].price.units()
    }) by {
        if ascending {
            lemma_listed_prices_increase(s, m, i, j);
            assert(w[i] == s[i].1);
            assert(w[j] == s[j].1);
        } else {
            lemma_listed_prices_increase(s, m, n - 1 - j, n - 1 - i);
            assert(w[i] == s[n - 1 - i].1);
            assert(w[j] == s[n - 1 - j].1);
        }
    }
}

/// A market order on a consistent book meets the levels of its side best
/// price first: a buy takes asks at strictly increasing prices, a sell
/// takes bids at strictly decreasing prices (so a sell starts at the
/// highest bid), each level once.
pub proof fn lemma_book_walk_order(b: L2OrderBook, is_buy: bool, s: Seq<(PriceKey, Level)>)
    requires
        b.is_consistent(),
        lists_in_key_order(s, b.side(is_buy)),
    ensures
        b.walked_levels(is_buy).len() == b.side(is_buy).dom().len(),
        forall|i: int, j: int|
            0 <= i < j < b.walked_levels(is_buy).len() ==> (if is_buy {
                (#[trigger] b.walked_levels(is_buy)[i]).price.units() < (#[trigger] b.walked_levels(
                    is_buy,
                )[j]).price.units()
            } else {
                b.walked_levels(is_buy)[i].price.units() > b.walked_levels(is_buy)[j].price.units()
            }),
{
    lemma_sorted_listing(s, b.side(is_buy));
    lemma_listing_len(s, b.side(is_buy));
    lemma_walk_price_order(s, b.side(is_buy), is_buy);
}

/// On a consistent side listed in key order, a later entry has a strictly
/// greater price.
proof fn lemma_listed_prices_increase(s: Seq<(PriceKey, Level)>, m: Map<PriceKey, Level>, a: int, b: int)
    requires
        lists_in_key_order(s, m),
        levels_consistent(m),
        0 <= a < b < s.len(),
    ensures
        s[a].1.price.units() < s[b].1.price.units(),
{
    assert(key_lt(s[a].0, s[b].0));
    assert(m.contains_key(s[a].0));
    assert(m.contains_key(s[b].0));
    let pa = s[a].1.price;
    let pb = s[b].1.price;
    assert(pa.key() == s[a].0);
    assert(pb.key() == s[b].0);
    crate::decimal::lemma_key_order(pa, pb);
}

/// Positive levels hold a non-negative total.
proof fn lemma_depth_nonneg(levels: Seq<Level>)
    requires
        positive_levels(levels),
    ensures
        depth(levels) >= 0,
    decreases levels.len(),
{
    if levels.len() > 0 {
        let p = levels.drop_last();
        assert(positive_levels(p)) by {
            assert forall|i: int| 0 <= i < p.len() implies (#[trigger] p[i]).quantity.units() > 0 by {
                assert(p[i] == levels[i]);
            }
        }
        lemma_depth_nonneg(p);
        assert(levels[levels.len() - 1].quantity.units() > 0);
    }
}

/// The premises of the fill law: positive quantities, a non-negative size,
/// and the size and the total quantity small enough to be written in 96
/// bits at the largest scale among them (so that no addition or
/// subtraction of quantities rounds).
pub open spec fn filled_law(levels: Seq<Level>, size: Dec) -> bool {
    let s = qty_scale(levels, size);
    &&& positive_levels(levels)
    &&& size.units() >= 0
    &&& s <= crate::decimal::MAX_SCALE
    &&& size.units() <= crate::decimal::MAX_MANTISSA * crate::decimal::pow10((crate::decimal::MAX_SCALE - s) as nat)
    &&& depth(levels) <= crate::decimal::MAX_MANTISSA * crate::decimal::pow10((crate::decimal::MAX_SCALE - s) as nat)
}

/// `size` and every quantity have a scale no larger than `qty_scale`.
proof fn lemma_qty_scale(levels: Seq<Level>, size: Dec)
    ensures
        size.scl() <= qty_scale(levels, size),
        forall|i: int| 0 <= i < levels.len() ==> (#[trigger] levels[i]).quantity.scl() <= qty_scale(levels, size),
    decreases levels.len(),
{
    if levels.len() > 0 {
        let p = levels.drop_last();
        lemma_qty_scale(p, size);
        assert forall|i: int| 0 <= i < levels.len() implies (#[trigger] levels[i]).quantity.scl() <= qty_scale(levels, size) by {
            if i < levels.len() - 1 {
                assert(levels[i] == p[i]);
            }
        }
    }
}

/// A prefix of positive levels holds no more than all of them.
proof fn lemma_depth_prefix(levels: Seq<Level>, k: int)
    requires
        positive_levels(levels),
        0 <= k <= levels.len(),
    ensures
        depth(levels.take(k)) <= depth(levels),
    decreases levels.len(),
{
    if k == levels.len() {
        assert(levels.take(k) =~= levels);
    } else {
        let p = levels.drop_last();
        assert(positive_levels(p)) by {
            assert forall|i: int| 0 <= i < p.len() implies (#[trigger] p[i]).quantity.units() > 0 by {
                assert(p[i] == levels[i]);
            }
        }
        lemma_depth_prefix(p, k);
        assert(p.take(k) =~= levels.take(k));
        assert(levels[levels.len() - 1].quantity.units() > 0);
    }
}

impl Clone for L2OrderBook {
    fn clone(&self) -> (r: L2OrderBook)
        ensures
            r@ == self@,
            r.exchange@ == self.exchange@,
            r.symbol@ == self.symbol@,
            r.bid_map() == self.bid_map(),
            r.ask_map() == self.ask_map(),
            r.last_update_id == self.last_update_id,
            r.local_timestamp == self.local_timestamp,
    {
        L2OrderBook {
            exchange: self.exchange.clone(),
            symbol: self.symbol.clone(),
            bids: self.bids.clone(),
            asks: self.asks.clone(),
            last_update_id: self.last_update_id,
            local_timestamp: self.local_timestamp,
        }
    }
}

fn update_side(side: &mut BTreeMap<PriceKey, Level>, price: Dec, quantity: Dec)
    ensures
        final(side)@ == side_after_update(old(side)@, price, quantity),
{
    let key = price.order_key();
    if quantity.is_zero() {
        side.remove(&key);
    } else {
        let kept = match side.get(&key) {
            Some(l) => l.price,
            None => price,
        };
        side.insert(key, Level { price: kept, quantity });
    }
}

fn levels_of(side: &BTreeMap<PriceKey, Level>) -> (r: Vec<Level>)
    ensures
        exists|s: Seq<(PriceKey, Level)>| lists_in_key_order(s, side@) && r@ == walk_order(s, true),
{
    let entries = collect_levels(side);
    let mut out: Vec<Level> = Vec::new();
    let mut i: usize = 0;
    while i < entries.len()
        invariant
            i <= entries@.len(),
            out@ == walk_order(entries@, true).take(i as int),
        decreases entries@.len() - i,
    {
        out.push(entries[i].1);
        i = i + 1;
        proof {
            assert(out@ =~= walk_order(entries@, true).take(i as int));
        }
    }
    proof {
        assert(out@ =~= walk_order(entries@, true));
    }
    out
}

proof fn lemma_listing_empty(s: Seq<(PriceKey, Level)>, m: Map<PriceKey, Level>)
    requires
        lists_in_key_order(s, m),
        s.len() == 0,
    ensures
        m.dom().is_empty(),
{
    assert forall|k: PriceKey| !m.contains_key(k) by {
        if m.contains_key(k) {
            let i = choose|i: int| 0 <= i < s.len() && s[i].0 == k;
        }
    }
    assert(m.dom() =~= Set::empty());
}

proof fn lemma_listing_last(s: Seq<(PriceKey, Level)>, m: Map<PriceKey, Level>)
    requires
        lists_in_key_order(s, m),
        s.len() > 0,
    ensures
        highest_price(m, Some(s[s.len() - 1].1.price)),
{
    let n = s.len() - 1;
    let k = s[n].0;
    assert(m.contains_key(k) && m[k] == s[n].1);
    assert forall|k2: PriceKey| #[trigger] m.contains_key(k2) implies !key_lt(k, k2) by {
        let i = choose|i: int| 0 <= i < s.len() && s[i].0 == k2;
        if i < n {
            assert(key_lt(s[i].0, s[n].0));
        }
    }
}

proof fn lemma_listing_first(s: Seq<(PriceKey, Level)>, m: Map<PriceKey, Level>)
    requires
        lists_in_key_order(s, m),
        s.len() > 0,
    ensures
        lowest_price(m, Some(s[0].1.price)),
{
    let k = s[0].0;
    assert(m.contains_key(k) && m[k] == s[0].1);
    assert forall|k2: PriceKey| #[trigger] m.contains_key(k2) implies !key_lt(k2, k) by {
        let i = choose|i: int| 0 <= i < s.len() && s[i].0 == k2;
        if 0 < i {
            assert(key_lt(s[0].0, s[i].0));
        }
    }
}

/// Every level is stored under the key of its own price, with a well-formed
/// price and a non-zero, well-formed quantity.
pub open spec fn levels_consistent(side: Map<PriceKey, Level>) -> bool {
    forall|k: PriceKey| #[trigger] side.contains_key(k) ==> {
        &&& side[k].price.key() == k
        &&& side[k].price.wf()
        &&& side[k].quantity.wf()
        &&& side[k].quantity.units() != 0
    }
}

/// Reading after writing: after an update at `price`, the side has a level
/// at that price (equal as a number) holding exactly the new quantity, or,
/// when the quantity is zero, no level there; every other level is as it
/// was.  Consistency of the side is kept.
pub proof fn lemma_update_then_read(side: Map<PriceKey, Level>, price: Dec, quantity: Dec)
    requires
        levels_consistent(side),
        price.wf(),
        quantity.wf(),
    ensures
        ({
            let after = side_after_update(side, price, quantity);
            &&& quantity.units() == 0 ==> !after.contains_key(price.key())
            &&& quantity.units() != 0 ==> {
                &&& after.contains_key(price.key())
                &&& after[price.key()].quantity == quantity
                &&& after[price.key()].price.units() == price.units()
            }
            &&& forall|k: PriceKey| k != price.key() ==> (#[trigger] after.contains_key(k) == side.contains_key(k)
                && (side.contains_key(k) ==> after[k] == side[k]))
            &&& levels_consistent(after)
        }),
{
    crate::decimal::lemma_units_zero(quantity);
    if side.contains_key(price.key()) {
        let old_price = side[price.key()].price;
        crate::decimal::lemma_key_order(old_price, price);
    }
}

/// Updates at prices that are different numbers commute.
pub proof fn lemma_updates_commute(side: Map<PriceKey, Level>, p1: Dec, q1: Dec, p2: Dec, q2: Dec)
    requires
        p1.wf(),
        p2.wf(),
        p1.units() != p2.units(),
    ensures
        side_after_update(side_after_update(side, p1, q1), p2, q2) == side_after_update(
            side_after_update(side, p2, q2),
            p1,
            q1,
        ),
{
    crate::decimal::lemma_key_order(p1, p2);
    assert(side_after_update(side_after_update(side, p1, q1), p2, q2) =~= side_after_update(
        side_after_update(side, p2, q2),
        p1,
        q1,
    ));
}

/// On a consistent side the highest level's price is at least every price
/// on the side, and the lowest level's price at most every price.
pub proof fn lemma_best_prices_bound(side: Map<PriceKey, Level>, hi: Option<Dec>, lo: Option<Dec>)
    requires
        levels_consistent(side),
        highest_price(side, hi),
        lowest_price(side, lo),
    ensures
        hi matches Some(h) ==> forall|k: PriceKey| #[trigger] side.contains_key(k) ==> side[k].price.units() <= h.units(),
        lo matches Some(l) ==> forall|k: PriceKey| #[trigger] side.contains_key(k) ==> l.units() <= side[k].price.units(),
{
    if hi is Some {
        let h = hi->0;
        let kh = choose|k: PriceKey| #[trigger] side.contains_key(k) && side[k].price == h
            && forall|k2: PriceKey| #[trigger] side.contains_key(k2) ==> !key_lt(k, k2);
        assert forall|k: PriceKey| #[trigger] side.contains_key(k) implies side[k].price.units() <= h.units() by {
            crate::decimal::lemma_key_order(side[k].price, h);
            assert(!key_lt(kh, k));
        }
    }
    if lo is Some {
        let l = lo->0;
        let kl = choose|k: PriceKey| #[trigger] side.contains_key(k) && side[k].price == l
            && forall|k2: PriceKey| #[trigger] side.contains_key(k2) ==> !key_lt(k2, k);
        assert forall|k: PriceKey| #[trigger] side.contains_key(k) implies l.units() <= side[k].price.units() by {
            crate::decimal::lemma_key_order(side[k].price, l);
            assert(!key_lt(k, kl));
        }
    }
}

/// The highest and lowest prices of a side are unique.
proof fn lemma_best_unique(side: Map<PriceKey, Level>, p: Dec, q: Dec, lowest: bool)
    requires
        lowest ==> lowest_price(side, Some(p)) && lowest_price(side, Some(q)),
        !lowest ==> highest_price(side, Some(p)) && highest_price(side, Some(q)),
    ensures
        p == q,
{
    if lowest {
        let kp = choose|k: PriceKey| #[trigger] side.contains_key(k) && side[k].price == p
            && forall|k2: PriceKey| #[trigger] side.contains_key(k2) ==> !key_lt(k2, k);
        let kq = choose|k: PriceKey| #[trigger] side.contains_key(k) && side[k].price == q
            && forall|k2: PriceKey| #[trigger] side.contains_key(k2) ==> !key_lt(k2, k);
        assert(!key_lt(kp, kq) && !key_lt(kq, kp));
    } else {
        let kp = choose|k: PriceKey| #[trigger] side.contains_key(k) && side[k].price == p
            && forall|k2: PriceKey| #[trigger] side.contains_key(k2) ==> !key_lt(k, k2);
        let kq = choose|k: PriceKey| #[trigger] side.contains_key(k) && side[k].price == q
            && forall|k2: PriceKey| #[trigger] side.contains_key(k2) ==> !key_lt(k, k2);
        assert(!key_lt(kp, kq) && !key_lt(kq, kp));
    }
}

/// When the checked mid price is defined, so is the mid of every pair of
/// best prices.
proof fn lemma_mid_defined(bids: Map<PriceKey, Level>, asks: Map<PriceKey, Level>)
    requires
        exists|b: Option<Dec>, a: Option<Dec>|
            highest_price(bids, b) && lowest_price(asks, a) && (match (b, a) {
                (Some(b), Some(a)) => mid_of(b, a) is Some,
                _ => true,
            }),
    ensures
        forall|b: Dec, a: Dec| highest_price(bids, Some(b)) && lowest_price(asks, Some(a)) ==> #[trigger] mid_of(b, a) is Some,
{
    let (b0, a0) = choose|b: Option<Dec>, a: Option<Dec>|
        highest_price(bids, b) && lowest_price(asks, a) && (match (b, a) {
            (Some(b), Some(a)) => mid_of(b, a) is Some,
            _ => true,
        });
    assert forall|b: Dec, a: Dec| highest_price(bids, Some(b)) && lowest_price(asks, Some(a)) implies #[trigger] mid_of(b, a) is Some by {
        if b0 is None {
            assert(bids.contains_key(choose|k: PriceKey| #[trigger] bids.contains_key(k) && bids[k].price == b
                && forall|k2: PriceKey| #[trigger] bids.contains_key(k2) ==> !key_lt(k, k2)));
        } else if a0 is None {
            assert(asks.contains_key(choose|k: PriceKey| #[trigger] asks.contains_key(k) && asks[k].price == a
                && forall|k2: PriceKey| #[trigger] asks.contains_key(k2) ==> !key_lt(k2, k)));
        } else {
            lemma_best_unique(bids, b, b0->0, false);
            lemma_best_unique(asks, a, a0->0, true);
        }
    }
}

/// A market order against an empty side fills nothing: `(0, 0)`.
pub proof fn lemma_empty_side_fills_nothing(size: Dec, ascending: bool)
    ensures
        fill_outcome(walk_order(sorted_listing(no_levels()), ascending), size) == Some(
            (Dec::spec_zero(), Dec::spec_zero()),
        ),
{
    let e = Seq::<(PriceKey, Level)>::empty();
    assert(lists_in_key_order(e, no_levels()));
    lemma_sorted_listing(e, no_levels());
    assert(walk_order(e, ascending) =~= Seq::<Level>::empty());
    crate::decimal::lemma_zero_units();
}

} // verus!
