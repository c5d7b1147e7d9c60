//! Cross-venue arbitrage detection over the latest order book of each
//! exchange.

use crate::book::{BookView, L2OrderBook};
use crate::decimal::Dec;
use crate::error::Error;
use crate::normalization::{AssetMapper, NormalizationEngine, ParityState};
use crate::risk::RiskAssessor;
use crate::text::text_eq;
use dashmap::DashMap;
use std::sync::Arc;
use vstd::prelude::*;

verus! {

#[verifier::external_type_specification]
#[verifier::external_body]
#[verifier::reject_recursive_types(K)]
#[verifier::reject_recursive_types(V)]
#[verifier::reject_recursive_types(S)]
pub struct ExDashMap<K, V, S>(DashMap<K, V, S>);

/// The books of all exchanges, by exchange name.
pub type BookTable = DashMap<String, L2OrderBook>;

/// What a `DashMap` of books holds: each exchange's book, by the
/// exchange's name.
pub uninterp spec fn book_table(m: DashMap<String, L2OrderBook>) -> Map<Seq<char>, BookView>;

/// Calls `DashMap::new`: the map is empty.
#[verifier::external_body]
fn books_new() -> (r: BookTable)
    ensures
        book_table(r).dom() == Set::<Seq<char>>::empty(),
{
    DashMap::new()
}

/// Calls `DashMap::insert`: afterwards the map holds `v` under `k`, and
/// the other entries are unchanged.
#[verifier::external_body]
fn books_insert(m: &mut DashMap<String, L2OrderBook>, k: String, v: L2OrderBook)
    ensures
        book_table(*final(m)) == book_table(*old(m)).insert(k@, v@),
{
    m.insert(k, v);
}

/// Calls `DashMap::get` and clones the book found (with `L2OrderBook::clone`,
/// which keeps the view): `None` exactly when no book is held under `k`.
#[verifier::external_body]
fn books_get(m: &DashMap<String, L2OrderBook>, k: &str) -> (r: Option<L2OrderBook>)
    ensures
        match r {
            Some(b) => book_table(*m).contains_key(k@) && b@ == book_table(*m)[k@],
            None => !book_table(*m).contains_key(k@),
        },
{
    m.get(k).map(|e| e.value().clone())
}

/// Calls `DashMap::iter` and hands out each key: every key once, in the
/// map's iteration order, which depends on the hasher's seed and so is left
/// open.
#[verifier::external_body]
fn books_keys(m: &DashMap<String, L2OrderBook>) -> (r: Vec<String>)
    ensures
        lists_names(r@.map_values(|k: String| k@), book_table(*m).dom()),
{
    m.iter().map(|e| e.key().clone()).collect()
}

/// `keys` lists the names in `dom`, each once.
pub open spec fn lists_names(keys: Seq<Seq<char>>, dom: Set<Seq<char>>) -> bool {
    &&& keys.no_duplicates()
    &&& forall|i: int| 0 <= i < keys.len() ==> #[trigger] dom.contains(keys[i])
    &&& forall|k: Seq<char>| #[trigger] dom.contains(k) ==> keys.contains(k)
}

/// A detected opportunity: buy `size_btc` on one exchange, sell it on
/// another.
#[derive(Debug)]
pub struct ArbOpportunity {
    pub buy_exchange: String,
    pub sell_exchange: String,
    pub symbol: String,
    pub size_btc: Dec,
    pub buy_price: Dec,
    pub sell_price: Dec,
    pub gross_spread_pct: Dec,
    pub net_after_all_pct: Dec,
    pub net_profit_usd: Dec,
    pub net_pct: Dec,
    pub confidence: String,
    pub notes: String,
    pub timestamp: i64,
}

/// What an opportunity holds, as plain values.
pub struct OppView {
    pub buy_exchange: Seq<char>,
    pub sell_exchange: Seq<char>,
    pub symbol: Seq<char>,
    pub size_btc: Dec,
    pub buy_price: Dec,
    pub sell_price: Dec,
    pub gross_spread_pct: Dec,
    pub net_after_all_pct: Dec,
    pub net_profit_usd: Dec,
    pub net_pct: Dec,
    pub confidence: Seq<char>,
    pub notes: Seq<char>,
    pub timestamp: i64,
}

impl View for ArbOpportunity {
    type V = OppView;

    open spec fn view(&self) -> OppView {
        OppView {
            buy_exchange: self.buy_exchange@,
            sell_exchange: self.sell_exchange@,
            symbol: self.symbol@,
            size_btc: self.size_btc,
            buy_price: self.buy_price,
            sell_price: self.sell_price,
            gross_spread_pct: self.gross_spread_pct,
            net_after_all_pct: self.net_after_all_pct,
            net_profit_usd: self.net_profit_usd,
            net_pct: self.net_pct,
            confidence: self.confidence@,
            notes: self.notes@,
            timestamp: self.timestamp,
        }
    }
}

impl Clone for ArbOpportunity {
    fn clone(&self) -> (r: ArbOpportunity)
        ensures
            r@ == self@,
    {
        ArbOpportunity {
            buy_exchange: self.buy_exchange.clone(),
            sell_exchange: self.sell_exchange.clone(),
            symbol: self.symbol.clone(),
            size_btc: self.size_btc,
            buy_price: self.buy_price,
            sell_price: self.sell_price,
            gross_spread_pct: self.gross_spread_pct,
            net_after_all_pct: self.net_after_all_pct,
            net_profit_usd: self.net_profit_usd,
            net_pct: self.net_pct,
            confidence: self.confidence.clone(),
            notes: self.notes.clone(),
            timestamp: self.timestamp,
        }
    }
}

/// An optional opportunity, by its view.
pub open spec fn opt_view(o: Option<ArbOpportunity>) -> Option<OppView> {
    match o {
        Some(o) => Some(o@),
        None => None,
    }
}

/// What the scanner holds, as plain values.
pub struct ScanView {
    pub table: Map<Seq<char>, BookView>,
    pub trade_size: Dec,
    pub risk: RiskAssessor,
    pub parity: ParityState,
    pub symbols: Map<Seq<char>, (Seq<char>, Seq<char>)>,
}

/// The taker fee, 0.1% (0.001).
pub open spec fn fee_rate() -> Dec {
    Dec::lit(1, 3)
}

/// The net return an opportunity must exceed, 0.01%.
pub open spec fn min_edge_pct() -> Dec {
    Dec::lit(1, 2)
}

/// The terms of a trade buying at `bp` and selling at `sp` (both in USD):
/// cost `bp * size * (1 + fee)`, revenue `sp * size * (1 - fee)`, net
/// profit `revenue - cost` and net return `net / cost * 100`; when the net
/// return exceeds 0.01%, the gross spread `(sp - bp) / bp * 100` and the
/// risk filter decide.  `None` where a decimal operation overflows or
/// divides by zero.
pub open spec fn opp_terms(c: ScanView, b: Seq<char>, s: Seq<char>, bp: Dec, sp: Dec, now: i64) -> Option<Option<OppView>> {
    let size = c.trade_size;
    let one = Dec::lit(10, 1);
    let hundred = Dec::lit(100, 0);
    match (crate::decimal::decimal_mul(bp, size), crate::decimal::decimal_add(one, fee_rate())) {
        (Some(x), Some(up)) => match crate::decimal::decimal_mul(x, up) {
            None => None,
            Some(cost) => match (crate::decimal::decimal_mul(sp, size), crate::decimal::decimal_sub(one, fee_rate())) {
                (Some(y), Some(down)) => match crate::decimal::decimal_mul(y, down) {
                    None => None,
                    Some(revenue) => match crate::decimal::decimal_sub(revenue, cost) {
                        None => None,
                        Some(net) => match crate::decimal::decimal_div(net, cost) {
                            None => None,
                            Some(q) => match crate::decimal::decimal_mul(q, hundred) {
                                None => None,
                                Some(net_pct) => if net_pct.units() > min_edge_pct().units() {
                                    match crate::decimal::decimal_sub(sp, bp) {
                                        None => None,
                                        Some(d) => match crate::decimal::decimal_div(d, bp) {
                                            None => None,
                                            Some(g) => match crate::decimal::decimal_mul(g, hundred) {
                                                None => None,
                                                Some(gross) => {
                                                    let o = OppView {
                                                        buy_exchange: b,
                                                        sell_exchange: s,
                                                        symbol: "BTC/USD"@,
                                                        size_btc: size,
                                                        buy_price: bp,
                                                        sell_price: sp,
                                                        gross_spread_pct: gross,
                                                        net_after_all_pct: net_pct,
                                                        net_profit_usd: net,
                                                        net_pct,
                                                        confidence: "HIGH"@,
                                                        notes: "L2 Depth Validated"@,
                                                        timestamp: now,
                                                    };
                                                    match c.risk.acceptable(net_pct, size, bp) {
                                                        None => None,
                                                        Some(true) => Some(Some(o)),
                                                        Some(false) => Some(None),
                                                    }
                                                },
                                            },
                                        },
                                    }
                                } else {
                                    Some(None)
                                },
                            },
                        },
                    },
                },
                _ => None,
            },
        },
        _ => None,
    }
}

/// The outcome of buying on `b` and selling on `s`: both books must be
/// held, both fills must reach the trade size, both symbols must be known;
/// the fill prices are converted to USD and priced by `opp_terms`.
/// `Some(None)` when there is no opportunity; `None` where a decimal
/// operation overflows or divides by zero.
pub open spec fn pair_eval(c: ScanView, b: Seq<char>, s: Seq<char>, now: i64) -> Option<Option<OppView>> {
    if !c.table.contains_key(b) || !c.table.contains_key(s) {
        Some(None)
    } else {
        let bb = c.table[b];
        let sb = c.table[s];
        match crate::book::book_fill(bb, c.trade_size, true) {
            None => None,
            Some((bp_raw, bf)) => match crate::book::book_fill(sb, c.trade_size, false) {
                None => None,
                Some((sp_raw, sf)) => if bf.units() < c.trade_size.units() || sf.units() < c.trade_size.units() {
                    Some(None)
                } else if !c.symbols.contains_key(bb.symbol) || !c.symbols.contains_key(sb.symbol) {
                    Some(None)
                } else {
                    match (
                        crate::normalization::canonical_price(c.parity, bp_raw, c.symbols[bb.symbol].1),
                        crate::normalization::canonical_price(c.parity, sp_raw, c.symbols[sb.symbol].1),
                    ) {
                        (Some(bp), Some(sp)) => opp_terms(c, b, s, bp, sp, now),
                        _ => None,
                    }
                },
            },
        }
    }
}

/// The best opportunity after the pairs from `(i, j)` on, in the order
/// `keys[0..]` buy × `keys[0..]` sell, skipping a name paired with itself:
/// an opportunity replaces the best so far only when its net profit is
/// strictly greater.  `None` where a pair's evaluation overflows.
pub open spec fn scan(c: ScanView, keys: Seq<Seq<char>>, i: int, j: int, best: Option<OppView>, now: i64) -> Option<Option<OppView>>
    decreases keys.len() - i, keys.len() - j,
{
    if i < 0 || j < 0 || i >= keys.len() {
        Some(best)
    } else if j >= keys.len() {
        scan(c, keys, i + 1, 0, best, now)
    } else if keys[i] == keys[j] {
        scan(c, keys, i, j + 1, best, now)
    } else {
        match pair_eval(c, keys[i], keys[j], now) {
            None => None,
            Some(None) => scan(c, keys, i, j + 1, best, now),
            Some(Some(o)) => {
                let nb = match best {
                    Some(cur) => if o.net_profit_usd.units() > cur.net_profit_usd.units() { Some(o) } else { best },
                    None => Some(o),
                };
                scan(c, keys, i, j + 1, nb, now)
            },
        }
    }
}

/// When every pair evaluates, so does the scan.
pub proof fn lemma_scan_evaluates(c: ScanView, keys: Seq<Seq<char>>, i: int, j: int, best: Option<OppView>, now: i64)
    requires
        ArbitrageScanner::all_pairs_evaluate(c),
        lists_names(keys, c.table.dom()),
    ensures
        scan(c, keys, i, j, best, now) is Some,
    decreases keys.len() - i, keys.len() - j,
{
    if i < 0 || j < 0 || i >= keys.len() {
    } else if j >= keys.len() {
        lemma_scan_evaluates(c, keys, i + 1, 0, best, now);
    } else if keys[i] == keys[j] {
        lemma_scan_evaluates(c, keys, i, j + 1, best, now);
    } else {
        assert(c.table.contains_key(keys[i]));
        assert(c.table.contains_key(keys[j]));
        assert(pair_eval(c, keys[i], keys[j], now) is Some);
        match pair_eval(c, keys[i], keys[j], now) {
            None => {},
            Some(None) => lemma_scan_evaluates(c, keys, i, j + 1, best, now),
            Some(Some(o)) => {
                let nb = match best {
                    Some(cur) => if o.net_profit_usd.units() > cur.net_profit_usd.units() { Some(o) } else { best },
                    None => Some(o),
                };
                lemma_scan_evaluates(c, keys, i, j + 1, nb, now);
            },
        }
    }
}

/// Position `(p, q)` comes at or after `(i, j)` in the scan's order.
pub open spec fn at_or_after(n: int, i: int, j: int, p: int, q: int) -> bool {
    0 <= p < n && 0 <= q < n && (p > i || (p == i && q >= j))
}

/// Net profit of `a` is at most that of `b`.
pub open spec fn no_better(a: OppView, b: OppView) -> bool {
    a.net_profit_usd.units() <= b.net_profit_usd.units()
}

proof fn lemma_scan_from(c: ScanView, keys: Seq<Seq<char>>, i: int, j: int, best: Option<OppView>, now: i64)
    requires
        0 <= i,
        0 <= j,
    ensures
        match scan(c, keys, i, j, best, now) {
            None => true,
            Some(res) => {
                &&& (best matches Some(b) ==> res matches Some(r) && no_better(b, r))
                &&& (forall|p: int, q: int|
                    at_or_after(keys.len() as int, i, j, p, q) && keys[p] != keys[q] ==> match #[trigger] pair_eval(
                        c,
                        keys[p],
                        keys[q],
                        now,
                    ) {
                        Some(Some(o2)) => res matches Some(r) && no_better(o2, r),
                        Some(None) => true,
                        None => false,
                    })
                &&& (res matches Some(r) ==> (best == Some(r) || exists|p: int, q: int|
                    at_or_after(keys.len() as int, i, j, p, q) && keys[p] != keys[q] && #[trigger] pair_eval(
                        c,
                        keys[p],
                        keys[q],
                        now,
                    ) == Some(Some(r))))
            },
        },
    decreases keys.len() - i, keys.len() - j,
{
    let n = keys.len() as int;
    if i >= n {
        assert forall|p: int, q: int| !at_or_after(n, i, j, p, q) by {}
    } else if j >= n {
        lemma_scan_from(c, keys, i + 1, 0, best, now);
        assert forall|p: int, q: int| at_or_after(n, i, j, p, q) implies at_or_after(n, i + 1, 0, p, q) by {}
    } else if keys[i] == keys[j] {
        lemma_scan_from(c, keys, i, j + 1, best, now);
        assert forall|p: int, q: int| at_or_after(n, i, j, p, q) && keys[p] != keys[q] implies at_or_after(
            n,
            i,
            j + 1,
            p,
            q,
        ) by {}
    } else {
        match pair_eval(c, keys[i], keys[j], now) {
            None => {},
            Some(None) => {
                lemma_scan_from(c, keys, i, j + 1, best, now);
                assert forall|p: int, q: int| at_or_after(n, i, j, p, q) && !at_or_after(n, i, j + 1, p, q) implies p
                    == i && q == j by {}
            },
            Some(Some(o)) => {
                let nb = match best {
                    Some(cur) => if o.net_profit_usd.units() > cur.net_profit_usd.units() { Some(o) } else { best },
                    None => Some(o),
                };
                lemma_scan_from(c, keys, i, j + 1, nb, now);
                assert forall|p: int, q: int| at_or_after(n, i, j, p, q) && !at_or_after(n, i, j + 1, p, q) implies p
                    == i && q == j by {}
                match scan(c, keys, i, j + 1, nb, now) {
                    None => {},
                    Some(res) => {
                        let r = res->0;
                        if nb == Some(r) {
                            if nb == Some(o) {
                                assert(at_or_after(n, i, j, i, j));
                            }
                        }
                        assert forall|p: int, q: int| at_or_after(n, i, j + 1, p, q) implies at_or_after(n, i, j, p, q) by {}
                    },
                }
            },
        }
    }
}

/// The opportunity a scan reports is the one of some ordered pair of
/// distinct exchanges, and no pair offers a greater net profit; a scan that
/// reports none found no pair offering one.
pub proof fn lemma_reported_opportunity_is_best(c: ScanView, keys: Seq<Seq<char>>, now: i64)
    requires
        lists_names(keys, c.table.dom()),
    ensures
        scan(c, keys, 0, 0, None, now) matches Some(Some(o)) ==> {
            &&& exists|b: Seq<char>, s: Seq<char>|
                c.table.contains_key(b) && c.table.contains_key(s) && b != s && #[trigger] pair_eval(c, b, s, now) == Some(
                    Some(o),
                )
            &&& forall|b: Seq<char>, s: Seq<char>|
                c.table.contains_key(b) && c.table.contains_key(s) && b != s ==> match #[trigger] pair_eval(c, b, s, now) {
                    Some(Some(o2)) => no_better(o2, o),
                    _ => true,
                }
        },
        scan(c, keys, 0, 0, None, now) == Some(None::<OppView>) ==> forall|b: Seq<char>, s: Seq<char>|
            c.table.contains_key(b) && c.table.contains_key(s) && b != s ==> #[trigger] pair_eval(c, b, s, now) == Some(
                None::<OppView>,
            ),
{
    lemma_scan_from(c, keys, 0, 0, None, now);
    let n = keys.len() as int;
    match scan(c, keys, 0, 0, None, now) {
        None => {},
        Some(res) => {
            assert forall|b: Seq<char>, s: Seq<char>|
                c.table.contains_key(b) && c.table.contains_key(s) && b != s implies match #[trigger] pair_eval(c, b, s, now) {
                    Some(Some(o2)) => res matches Some(r) && no_better(o2, r),
                    Some(None) => true,
                    None => false,
                } by {
                assert(keys.contains(b));
                assert(keys.contains(s));
                let p = choose|p: int| 0 <= p < n && keys[p] == b;
                let q = choose|q: int| 0 <= q < n && keys[q] == s;
                assert(at_or_after(n, 0, 0, p, q));
            }
            if res is Some {
                let r = res->0;
                let (p, q) = choose|p: int, q: int|
                    at_or_after(n, 0, 0, p, q) && keys[p] != keys[q] && #[trigger] pair_eval(c, keys[p], keys[q], now) == Some(Some(r));
                assert(c.table.contains_key(keys[p]));
                assert(c.table.contains_key(keys[q]));
            }
        },
    }
}

/// An opportunity found for a pair buys on the first exchange and sells
/// on the second, for the trade size; its net return exceeds 0.01% and the
/// risk bounds' minimum, and its notional is within the bounds' maximum.
pub proof fn lemma_pair_opportunity(c: ScanView, b: Seq<char>, s: Seq<char>, now: i64)
    ensures
        pair_eval(c, b, s, now) matches Some(Some(o)) ==> {
            &&& o.buy_exchange == b
            &&& o.sell_exchange == s
            &&& o.size_btc == c.trade_size
            &&& o.net_pct == o.net_after_all_pct
            &&& o.net_pct.units() > min_edge_pct().units()
            &&& c.risk.acceptable(o.net_pct, o.size_btc, o.buy_price) == Some(true)
            &&& o.net_pct.units() >= c.risk.min_net_pct.units()
            &&& crate::decimal::decimal_mul(o.size_btc, o.buy_price) matches Some(n) && n.units()
                <= c.risk.max_notional_usd.units()
            &&& o.timestamp == now
        },
{
}

/// Whether a pair evaluates does not depend on the time, which only stamps
/// the opportunity.
proof fn lemma_pair_eval_time(c: ScanView, b: Seq<char>, s: Seq<char>, t1: i64, t2: i64)
    ensures
        pair_eval(c, b, s, t1) is Some <==> pair_eval(c, b, s, t2) is Some,
{
}

/// A scan that evaluates shows that every pair evaluates, at any time.
proof fn lemma_scan_some_evaluates(c: ScanView, keys: Seq<Seq<char>>, now: i64)
    requires
        lists_names(keys, c.table.dom()),
        scan(c, keys, 0, 0, None, now) is Some,
    ensures
        ArbitrageScanner::all_pairs_evaluate(c),
{
    lemma_scan_from(c, keys, 0, 0, None, now);
    let n = keys.len() as int;
    assert forall|b: Seq<char>, s: Seq<char>, t: i64|
        c.table.contains_key(b) && c.table.contains_key(s) && b != s implies #[trigger] pair_eval(c, b, s, t) is Some by {
        assert(keys.contains(b));
        assert(keys.contains(s));
        let p = choose|p: int| 0 <= p < n && keys[p] == b;
        let q = choose|q: int| 0 <= q < n && keys[q] == s;
        assert(at_or_after(n, 0, 0, p, q));
        assert(pair_eval(c, keys[p], keys[q], now) is Some);
        lemma_pair_eval_time(c, b, s, now, t);
    }
}

/// `usd` is the USD value of `price` quoted in `quote`: the price times
/// the USDT, USDC or BUSD parity for those quotes, the price itself for
/// USD.
pub open spec fn usd_value_of(p: ParityState, price: Dec, quote: Seq<char>, usd: Dec) -> bool {
    &&& quote == "USDT"@ ==> crate::decimal::decimal_mul(price, p.usdt_usd) == Some(usd)
    &&& quote == "USDC"@ ==> crate::decimal::decimal_mul(price, p.usdc_usd) == Some(usd)
    &&& quote == "BUSD"@ ==> crate::decimal::decimal_mul(price, p.busd_usd) == Some(usd)
    &&& quote == "USD"@ ==> usd == price
}

/// An opportunity found for a pair is priced in USD on both sides: its buy
/// price is the buy book's fill price for the trade size (a buy, walking
/// the asks) converted from that book's quote currency, and its sell price
/// the sell book's fill price (a sell, walking the bids) converted from
/// its own quote currency; both books fill the whole size.
pub proof fn lemma_pair_prices(c: ScanView, b: Seq<char>, s: Seq<char>, now: i64, o: OppView)
    requires
        pair_eval(c, b, s, now) == Some(Some(o)),
    ensures
        c.table.contains_key(b),
        c.table.contains_key(s),
        c.symbols.contains_key(c.table[b].symbol),
        c.symbols.contains_key(c.table[s].symbol),
        match crate::book::book_fill(c.table[b], c.trade_size, true) {
            Some((bp, bf)) => bf.units() >= c.trade_size.units() && usd_value_of(
                c.parity,
                bp,
                c.symbols[c.table[b].symbol].1,
                o.buy_price,
            ),
            None => false,
        },
        match crate::book::book_fill(c.table[s], c.trade_size, false) {
            Some((sp, sf)) => sf.units() >= c.trade_size.units() && usd_value_of(
                c.parity,
                sp,
                c.symbols[c.table[s].symbol].1,
                o.sell_price,
            ),
            None => false,
        },
{
    let bb = c.table[b];
    let sb = c.table[s];
    let (bp_raw, bf) = crate::book::book_fill(bb, c.trade_size, true)->0;
    let (sp_raw, sf) = crate::book::book_fill(sb, c.trade_size, false)->0;
    let bq = c.symbols[bb.symbol].1;
    let sq = c.symbols[sb.symbol].1;
    let bp = crate::normalization::canonical_price(c.parity, bp_raw, bq)->0;
    let sp = crate::normalization::canonical_price(c.parity, sp_raw, sq)->0;
    assert(opp_terms(c, b, s, bp, sp, now) == Some(Some(o)));
    lemma_opp_terms_prices(c, b, s, bp, sp, now, o);
    lemma_canonical_usd(c.parity, bp_raw, bq, bp);
    lemma_canonical_usd(c.parity, sp_raw, sq, sp);
}

/// The opportunity `opp_terms` gives carries the prices it was given.
proof fn lemma_opp_terms_prices(c: ScanView, b: Seq<char>, s: Seq<char>, bp: Dec, sp: Dec, now: i64, o: OppView)
    requires
        opp_terms(c, b, s, bp, sp, now) == Some(Some(o)),
    ensures
        o.buy_price == bp,
        o.sell_price == sp,
{
}

/// A converted price is the USD value of the price.
proof fn lemma_canonical_usd(p: ParityState, price: Dec, quote: Seq<char>, usd: Dec)
    requires
        crate::normalization::canonical_price(p, price, quote) == Some(usd),
    ensures
        usd_value_of(p, price, quote, usd),
{
    reveal_strlit("USDT");
    reveal_strlit("USDC");
    reveal_strlit("BUSD");
    reveal_strlit("USD");
    assert("USD"@.len() == 3);
    assert("USDT"@.len() == 4);
    assert("USDC"@.len() == 4);
    assert("BUSD"@.len() == 4);
    assert("USDT"@[3] != "USDC"@[3]);
    assert("USDT"@ != "USDC"@);
    assert("USDT"@[0] != "BUSD"@[0]);
    assert("USDT"@ != "BUSD"@);
    assert("USDC"@[0] != "BUSD"@[0]);
    assert("USDC"@ != "BUSD"@);
}

/// An opportunity restamped at `t`.
pub open spec fn restamp(o: Option<OppView>, t: i64) -> Option<OppView> {
    match o {
        Some(v) => Some(OppView { timestamp: t, ..v }),
        None => None,
    }
}

/// What `update_book` may return after its scan over `keys`: no
/// opportunity, where the scan finds none at any time; an opportunity,
/// exactly the one the scan finds at its timestamp; `Error::Clock` only
/// where the scan finds one.
pub open spec fn update_outcome(c: ScanView, keys: Seq<Seq<char>>, r: Result<Option<ArbOpportunity>, Error>) -> bool {
    match r {
        Ok(None) => forall|now: i64| #[trigger] scan(c, keys, 0, 0, None, now) == Some(None::<OppView>),
        Ok(Some(o)) => scan(c, keys, 0, 0, None, o.timestamp) == Some(Some(o@)),
        Err(e) => e is Clock && scan(c, keys, 0, 0, None, 0) matches Some(Some(_)),
    }
}

/// The time of a pair's evaluation only stamps the opportunity found.
proof fn lemma_pair_eval_restamp(c: ScanView, b: Seq<char>, s: Seq<char>, t: i64)
    ensures
        pair_eval(c, b, s, t) == (match pair_eval(c, b, s, 0) {
            Some(x) => Some(restamp(x, t)),
            None => None,
        }),
{
}

/// The time of a scan only stamps the opportunity it reports.
pub proof fn lemma_scan_time(c: ScanView, keys: Seq<Seq<char>>, i: int, j: int, best: Option<OppView>, t: i64)
    ensures
        scan(c, keys, i, j, restamp(best, t), t) == (match scan(c, keys, i, j, best, 0) {
            Some(x) => Some(restamp(x, t)),
            None => None,
        }),
    decreases keys.len() - i, keys.len() - j,
{
    if i < 0 || j < 0 || i >= keys.len() {
    } else if j >= keys.len() {
        lemma_scan_time(c, keys, i + 1, 0, best, t);
    } else if keys[i] == keys[j] {
        lemma_scan_time(c, keys, i, j + 1, best, t);
    } else {
        lemma_pair_eval_restamp(c, keys[i], keys[j], t);
        match pair_eval(c, keys[i], keys[j], 0) {
            None => {},
            Some(None) => {
                lemma_scan_time(c, keys, i, j + 1, best, t);
            },
            Some(Some(o)) => {
                let nb = match best {
                    Some(cur) => if o.net_profit_usd.units() > cur.net_profit_usd.units() { Some(o) } else { best },
                    None => Some(o),
                };
                lemma_scan_time(c, keys, i, j + 1, nb, t);
            },
        }
    }
}

/// Scans the latest book of every exchange for the most profitable route.
pub struct ArbitrageScanner {
    books: DashMap<String, L2OrderBook>,
    trade_size: Dec,
    risk_assessor: RiskAssessor,
    norm_engine: Arc<NormalizationEngine>,
    asset_mapper: AssetMapper,
}

impl View for ArbitrageScanner {
    type V = ScanView;

    closed spec fn view(&self) -> ScanView {
        ScanView {
            table: book_table(self.books),
            trade_size: self.trade_size,
            risk: self.risk_assessor,
            parity: (*self.norm_engine).parity(),
            symbols: self.asset_mapper.symbols(),
        }
    }
}

/// The scanner's state after storing `book` as its exchange's latest.
pub open spec fn with_book(c: ScanView, book: BookView) -> ScanView {
    ScanView { table: c.table.insert(book.exchange, book), ..c }
}

impl ArbitrageScanner {
    /// A scanner trading `trade_size` BTC, with no books yet, the default
    /// risk bounds and the standard symbols.
    pub fn new(trade_size: Dec, norm_engine: Arc<NormalizationEngine>) -> (r: ArbitrageScanner)
        ensures
            r@.table.dom() == Set::<Seq<char>>::empty(),
            r@.trade_size == trade_size,
            r@.risk == RiskAssessor::standard(),
            r@.parity == (*norm_engine).parity(),
            r@.symbols == crate::normalization::standard_symbols(),
    {
        ArbitrageScanner {
            books: books_new(),
            trade_size,
            risk_assessor: RiskAssessor::default(),
            norm_engine,
            asset_mapper: AssetMapper::new(),
        }
    }

    /// Whether every ordered pair of distinct exchanges can be evaluated
    /// without a decimal operation overflowing, whatever the time.
    pub open spec fn all_pairs_evaluate(c: ScanView) -> bool {
        forall|b: Seq<char>, s: Seq<char>, now: i64|
            c.table.contains_key(b) && c.table.contains_key(s) && b != s ==> #[trigger] pair_eval(c, b, s, now) is Some
    }

    fn store(&mut self, book: L2OrderBook)
        ensures
            final(self)@ == with_book(old(self)@, book@),
    {
        let name = book.exchange.clone();
        books_insert(&mut self.books, name, book);
        proof {
            assert(self@ =~= with_book(old(self)@, book@));
        }
    }

    /// Stores `book` as the latest of its exchange and scans every ordered
    /// pair of distinct exchanges, at time `now`, for the opportunity with
    /// the greatest net profit (the first found among equals, in the map's
    /// iteration order).  `None` where a decimal operation overflows.
    pub fn try_update_book_at(&mut self, book: L2OrderBook, now: i64) -> (r: Option<Option<ArbOpportunity>>)
        ensures
            final(self)@ == with_book(old(self)@, book@),
            exists|keys: Seq<Seq<char>>|
                lists_names(keys, final(self)@.table.dom()) && (match r {
                    None => scan(final(self)@, keys, 0, 0, None, now) is None,
                    Some(o) => scan(final(self)@, keys, 0, 0, None, now) == Some(opt_view(o)),
                }),
    {
        self.store(book.clone());
        let probe = self.find_best_opportunity(now);
        match probe {
            None => None,
            Some(_) => {
                proof {
                    let keys = choose|keys: Seq<Seq<char>>|
                        lists_names(keys, self@.table.dom()) && scan(self@, keys, 0, 0, None, now) is Some;
                    lemma_scan_some_evaluates(self@, keys, now);
                    assert(self@.table.insert(book@.exchange, book@) =~= self@.table);
                    assert(with_book(self@, book@) == self@);
                }
                Some(self.update_book_at(book, now))
            },
        }
    }

    /// As `try_update_book_at`, when no evaluation overflows.
    pub fn update_book_at(&mut self, book: L2OrderBook, now: i64) -> (r: Option<ArbOpportunity>)
        requires
            Self::all_pairs_evaluate(with_book(old(self)@, book@)),
        ensures
            final(self)@ == with_book(old(self)@, book@),
            exists|keys: Seq<Seq<char>>|
                lists_names(keys, final(self)@.table.dom()) && scan(final(self)@, keys, 0, 0, None, now) == Some(
                    opt_view(r),
                ),
    {
        self.store(book);
        match self.find_best_opportunity(now) {
            Some(o) => o,
            None => {
                proof {
                    let keys = choose|keys: Seq<Seq<char>>|
                        lists_names(keys, self@.table.dom()) && scan(self@, keys, 0, 0, None, now) is None;
                    lemma_scan_evaluates(self@, keys, 0, 0, None, now);
                }
                None
            },
        }
    }

    /// As `update_book`, with `None` in place of a call whose requirement
    /// fails, that is where a decimal operation overflows.
    pub fn try_update_book(&mut self, book: L2OrderBook) -> (r: Option<Result<Option<ArbOpportunity>, Error>>)
        ensures
            final(self)@ == with_book(old(self)@, book@),
            exists|keys: Seq<Seq<char>>|
                lists_names(keys, final(self)@.table.dom()) && (match r {
                    None => scan(final(self)@, keys, 0, 0, None, 0) is None,
                    Some(x) => update_outcome(final(self)@, keys, x),
                }),
    {
        self.store(book.clone());
        let probe = self.find_best_opportunity(0);
        match probe {
            None => None,
            Some(_) => {
                proof {
                    let keys = choose|keys: Seq<Seq<char>>|
                        lists_names(keys, self@.table.dom()) && scan(self@, keys, 0, 0, None, 0) is Some;
                    lemma_scan_some_evaluates(self@, keys, 0);
                    assert(self@.table.insert(book@.exchange, book@) =~= self@.table);
                    assert(with_book(self@, book@) == self@);
                }
                Some(self.update_book(book))
            },
        }
    }

    /// Stores `book` as the latest of its exchange and returns the most
    /// profitable opportunity across all pairs of exchanges, if any,
    /// stamped with the current time.  The clock is read only when an
    /// opportunity is found; where it reads before the Unix epoch the
    /// result is `Error::Clock`.
    pub fn update_book(&mut self, book: L2OrderBook) -> (r: Result<Option<ArbOpportunity>, Error>)
        requires
            Self::all_pairs_evaluate(with_book(old(self)@, book@)),
        ensures
            final(self)@ == with_book(old(self)@, book@),
            exists|keys: Seq<Seq<char>>|
                lists_names(keys, final(self)@.table.dom()) && update_outcome(final(self)@, keys, r),
    {
        let found = self.update_book_at(book, 0);
        let ghost keys = choose|keys: Seq<Seq<char>>|
            lists_names(keys, self@.table.dom()) && scan(self@, keys, 0, 0, None, 0) == Some(opt_view(found));
        proof {
            assert(lists_names(keys, self@.table.dom()));
            assert(scan(self@, keys, 0, 0, None, 0) == Some(opt_view(found)));
        }
        match found {
            None => {
                proof {
                    assert forall|now: i64| #[trigger] scan(self@, keys, 0, 0, None, now) == Some(None::<OppView>) by {
                        lemma_scan_time(self@, keys, 0, 0, None, now);
                    }
                }
                let r: Result<Option<ArbOpportunity>, Error> = Ok(None);
                proof {
                    assert(update_outcome(self@, keys, r));
                }
                r
            },
            Some(o) => match crate::clock::now_millis() {
                None => {
                    let r: Result<Option<ArbOpportunity>, Error> = Err(Error::Clock);
                    proof {
                        assert(update_outcome(self@, keys, r));
                    }
                    r
                },
                Some(t) => {
                    let ghost before = o@;
                    let mut o = o;
                    o.timestamp = t;
                    proof {
                        lemma_scan_time(self@, keys, 0, 0, None, t);
                        assert(o@ == (OppView { timestamp: t, ..before }));
                    }
                    let r: Result<Option<ArbOpportunity>, Error> = Ok(Some(o));
                    proof {
                        assert(update_outcome(self@, keys, r));
                    }
                    r
                },
            },
        }
    }

    /// Sets the parity of `asset` (USDT, USDC or BUSD; others are ignored)
    /// by which the scanner converts prices from now on.
    pub fn update_parity(&mut self, asset: &str, rate: Dec)
        ensures
            final(self)@ == (ScanView { parity: crate::normalization::parity_after_update(old(self)@.parity, asset@, rate), ..old(self)@ }),
    {
        let mut engine = NormalizationEngine::with_parity(self.norm_engine.parity_state());
        engine.update_parity(asset, rate);
        self.norm_engine = Arc::new(engine);
    }

    fn find_best_opportunity(&self, now: i64) -> (r: Option<Option<ArbOpportunity>>)
        ensures
            exists|keys: Seq<Seq<char>>|
                lists_names(keys, self@.table.dom()) && (match r {
                    None => scan(self@, keys, 0, 0, None, now) is None,
                    Some(o) => scan(self@, keys, 0, 0, None, now) == Some(opt_view(o)),
                }),
    {
        let keys = books_keys(&self.books);
        let ghost ks = keys@.map_values(|k: String| k@);
        let ghost target = scan(self@, ks, 0, 0, None, now);
        let n = keys.len();
        let mut best: Option<ArbOpportunity> = None;
        let mut i: usize = 0;
        while i < n
            invariant
                i <= n,
                n == keys@.len(),
                ks == keys@.map_values(|k: String| k@),
                lists_names(ks, self@.table.dom()),
                target == scan(self@, ks, 0, 0, None, now),
                scan(self@, ks, i as int, 0, opt_view(best), now) == target,
            decreases n - i,
        {
            let mut j: usize = 0;
            while j < n
                invariant
                    i < n,
                    j <= n,
                    n == keys@.len(),
                    ks == keys@.map_values(|k: String| k@),
                    lists_names(ks, self@.table.dom()),
                    target == scan(self@, ks, 0, 0, None, now),
                    scan(self@, ks, i as int, j as int, opt_view(best), now) == target,
                decreases n - j,
            {
                proof {
                    assert(ks[i as int] == keys@[i as int]@);
                    assert(ks[j as int] == keys@[j as int]@);
                }
                if !text_eq(&keys[i], &keys[j]) {
                    match self.analyze_pair(&keys[i], &keys[j], now) {
                        None => {
                            proof {
                                assert(scan(self@, ks, i as int, j as int, opt_view(best), now) is None);
                                assert(lists_names(ks, self@.table.dom()));
                            }
                            return None;
                        },
                        Some(None) => {},
                        Some(Some(o)) => {
                            let replace = match &best {
                                Some(cur) => o.net_profit_usd.gt(&cur.net_profit_usd),
                                None => true,
                            };
                            if replace {
                                best = Some(o);
                            }
                        },
                    }
                }
                j = j + 1;
            }
            i = i + 1;
        }
        Some(best)
    }

    /// Buying on `buy_ex` and selling on `sell_ex`, as `pair_eval`.
    fn analyze_pair(&self, buy_ex: &str, sell_ex: &str, now: i64) -> (r: Option<Option<ArbOpportunity>>)
        ensures
            match r {
                None => pair_eval(self@, buy_ex@, sell_ex@, now) is None,
                Some(o) => pair_eval(self@, buy_ex@, sell_ex@, now) == Some(opt_view(o)),
            },
    {
        let buy_book = match books_get(&self.books, buy_ex) {
            Some(b) => b,
            None => return Some(None),
        };
        let sell_book = match books_get(&self.books, sell_ex) {
            Some(b) => b,
            None => return Some(None),
        };
        let (buy_price_raw, buy_filled) = match buy_book.try_estimate_fill_price(self.trade_size, true) {
            Some(v) => v,
            None => return None,
        };
        let (sell_price_raw, sell_filled) = match sell_book.try_estimate_fill_price(self.trade_size, false) {
            Some(v) => v,
            None => return None,
        };
        if buy_filled.lt(&self.trade_size) || sell_filled.lt(&self.trade_size) {
            return Some(None);
        }
        let (_, buy_quote) = match self.asset_mapper.resolve(&buy_book.symbol) {
            Some(p) => p,
            None => return Some(None),
        };
        let (_, sell_quote) = match self.asset_mapper.resolve(&sell_book.symbol) {
            Some(p) => p,
            None => return Some(None),
        };
        let buy_price = match self.norm_engine.try_to_canonical(buy_price_raw, &buy_quote) {
            Some(p) => p,
            None => return None,
        };
        let sell_price = match self.norm_engine.try_to_canonical(sell_price_raw, &sell_quote) {
            Some(p) => p,
            None => return None,
        };
        self.price_pair(buy_ex, sell_ex, buy_price, sell_price, now)
    }

    /// The terms of a pair once its prices are known, as `opp_terms`.
    fn price_pair(&self, buy_ex: &str, sell_ex: &str, buy_price: Dec, sell_price: Dec, now: i64) -> (r: Option<Option<ArbOpportunity>>)
        ensures
            match r {
                None => opp_terms(self@, buy_ex@, sell_ex@, buy_price, sell_price, now) is None,
                Some(o) => opp_terms(self@, buy_ex@, sell_ex@, buy_price, sell_price, now) == Some(opt_view(o)),
            },
    {
        let size = self.trade_size;
        let one = Dec::new(10, 1);
        let hundred = Dec::new(100, 0);
        let fee = Dec::new(1, 3);
        let x = match buy_price.checked_mul(&size) {
            Some(v) => v,
            None => return None,
        };
        let up = match one.checked_add(&fee) {
            Some(v) => v,
            None => return None,
        };
        let cost = match x.checked_mul(&up) {
            Some(v) => v,
            None => return None,
        };
        let y = match sell_price.checked_mul(&size) {
            Some(v) => v,
            None => return None,
        };
        let down = match one.checked_sub(&fee) {
            Some(v) => v,
            None => return None,
        };
        let revenue = match y.checked_mul(&down) {
            Some(v) => v,
            None => return None,
        };
        let net = match revenue.checked_sub(&cost) {
            Some(v) => v,
            None => return None,
        };
        let q = match net.checked_div(&cost) {
            Some(v) => v,
            None => return None,
        };
        let net_pct = match q.checked_mul(&hundred) {
            Some(v) => v,
            None => return None,
        };
        if !net_pct.gt(&Dec::new(1, 2)) {
            return Some(None);
        }
        let d = match sell_price.checked_sub(&buy_price) {
            Some(v) => v,
            None => return None,
        };
        let g = match d.checked_div(&buy_price) {
            Some(v) => v,
            None => return None,
        };
        let gross = match g.checked_mul(&hundred) {
            Some(v) => v,
            None => return None,
        };
        let ok = match self.risk_assessor.try_is_acceptable_terms(net_pct, size, buy_price) {
            Some(v) => v,
            None => return None,
        };
        if !ok {
            return Some(None);
        }
        proof {
            reveal_strlit("BTC/USD");
            reveal_strlit("HIGH");
            reveal_strlit("L2 Depth Validated");
        }
        Some(
            Some(
                ArbOpportunity {
                    buy_exchange: buy_ex.to_string(),
                    sell_exchange: sell_ex.to_string(),
                    symbol: "BTC/USD".to_string(),
                    size_btc: size,
                    buy_price,
                    sell_price,
                    gross_spread_pct: gross,
                    net_after_all_pct: net_pct,
                    net_profit_usd: net,
                    net_pct,
                    confidence: "HIGH".to_string(),
                    notes: "L2 Depth Validated".to_string(),
                    timestamp: now,
                },
            ),
        )
    }
}

} // verus!
