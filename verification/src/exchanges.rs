//! Decisions of the price discovery over the tickers of an upstream API:
//! which tickers to keep, how to answer each response, and the fee profile
//! of each venue.

use crate::text::{contains, lowercase, parse_u64, text_eq, uppercase};
use vstd::hash_map::StringHashMap;
use vstd::prelude::*;

verus! {

/// What to do with one response of the upstream API.
#[derive(Clone, Copy, Debug, PartialEq, Eq, Structural)]
pub enum FetchStep {
    /// A 2xx status: read the body and stop.
    Success,
    /// Status 429: wait `retry_after_secs` seconds before the next attempt.
    RateLimited { retry_after_secs: u64 },
    /// Another status: wait `delay_ms` milliseconds before the next attempt.
    UpstreamError { status: u16, delay_ms: u64 },
    /// No response: wait `delay_ms` milliseconds before the next attempt.
    NetworkError { delay_ms: u64 },
}

/// The pause after a failed attempt: 800 ms times the attempt's number
/// (counting from one).
pub open spec fn retry_delay(attempt: u32) -> u64 {
    (800 * (attempt + 1)) as u64
}

/// The answer to attempt `attempt` (from zero): `status` is `None` when the
/// request failed without a response; `retry_after` is the text of the
/// "retry-after" header, when it is there and readable.  A 429 waits for
/// the header's number of seconds, else `4 * (attempt + 1)`.
pub open spec fn fetch_step(attempt: u32, status: Option<u16>, retry_after: Option<Seq<char>>) -> FetchStep {
    match status {
        None => FetchStep::NetworkError { delay_ms: retry_delay(attempt) },
        Some(s) => if 200 <= s <= 299 {
            FetchStep::Success
        } else if s == 429 {
            let parsed = match retry_after {
                Some(t) => crate::text::u64_parse(t),
                None => None,
            };
            FetchStep::RateLimited {
                retry_after_secs: match parsed {
                    Some(n) => n,
                    None => (4 * (attempt + 1)) as u64,
                },
            }
        } else {
            FetchStep::UpstreamError { status: s, delay_ms: retry_delay(attempt) }
        },
    }
}

/// Decides what to do with the response to attempt `attempt`.
pub fn classify_response(attempt: u32, status: Option<u16>, retry_after: Option<&str>) -> (r: FetchStep)
    ensures
        r == fetch_step(attempt, status, match retry_after {
            Some(t) => Some(t@),
            None => None,
        }),
{
    match status {
        None => FetchStep::NetworkError { delay_ms: 800 * (attempt as u64 + 1) },
        Some(s) => {
            if 200 <= s && s <= 299 {
                FetchStep::Success
            } else if s == 429 {
                let parsed = match retry_after {
                    Some(t) => parse_u64(t),
                    None => None,
                };
                let secs = match parsed {
                    Some(n) => n,
                    None => (attempt as u64 + 1) * 4,
                };
                FetchStep::RateLimited { retry_after_secs: secs }
            } else {
                FetchStep::UpstreamError { status: s, delay_ms: 800 * (attempt as u64 + 1) }
            }
        },
    }
}

/// Whether a quote currency, in upper case, is USD, USDT or USDC.
pub open spec fn supported_quote(target: Seq<char>) -> bool {
    let t = crate::text::uppercase_of(target);
    t == "USD"@ || t == "USDT"@ || t == "USDC"@
}

/// Whether the ticker's target currency is one the engine trades against.
pub fn is_supported_quote(target: &str) -> (r: bool)
    ensures
        r == supported_quote(target@),
{
    proof {
        reveal_strlit("USD");
        reveal_strlit("USDT");
        reveal_strlit("USDC");
    }
    let t = uppercase(target);
    text_eq(t.as_str(), "USD") || text_eq(t.as_str(), "USDT") || text_eq(t.as_str(), "USDC")
}

/// What the selection reads of one ticker: its target currency, its
/// exchange's name, whether its last price is at least 10000 and whether
/// its 24h volume is at least the configured minimum.
#[derive(Debug)]
pub struct TickerFacts {
    pub target: String,
    pub exchange_name: String,
    pub price_ok: bool,
    pub volume_ok: bool,
}

/// The supported targets are USD, USDT and USDC, in any case: each of them
/// is supported, and a supported target's upper case is "USD" followed by
/// at most one letter, which is T or C.
pub proof fn lemma_supported_quotes(target: Seq<char>)
    ensures
        ({
            let u = crate::text::uppercase_of(target);
            &&& (u == "USD"@ || u == "USDT"@ || u == "USDC"@) ==> supported_quote(target)
            &&& supported_quote(target) ==> {
                &&& u.len() >= 3
                &&& u.subrange(0, 3) == "USD"@
                &&& (u.len() == 3 || (u.len() == 4 && (u[3] == 'T' || u[3] == 'C')))
            }
        }),
{
    reveal_strlit("USD");
    reveal_strlit("USDT");
    reveal_strlit("USDC");
    let u = crate::text::uppercase_of(target);
    if u == "USDT"@ {
        assert(u.subrange(0, 3) =~= "USD"@);
    } else if u == "USDC"@ {
        assert(u.subrange(0, 3) =~= "USD"@);
    } else if u == "USD"@ {
        assert(u.subrange(0, 3) =~= "USD"@);
    }
}

/// Whether ticker `t` qualifies on its own.
pub open spec fn qualifies(t: TickerFacts) -> bool {
    supported_quote(t.target@) && t.price_ok && t.volume_ok
}

/// The tickers kept from `i` on, given the exchanges already kept: each
/// qualifying ticker of an exchange not yet kept.
pub open spec fn select_from(ts: Seq<TickerFacts>, i: int, seen: Set<Seq<char>>) -> Seq<int>
    decreases ts.len() - i,
{
    if i < 0 || i >= ts.len() {
        Seq::empty()
    } else if qualifies(ts[i]) && !seen.contains(ts[i].exchange_name@) {
        seq![i] + select_from(ts, i + 1, seen.insert(ts[i].exchange_name@))
    } else {
        select_from(ts, i + 1, seen)
    }
}

/// The indices of the tickers to keep, in order: the first qualifying
/// ticker of each exchange.
pub fn select_tickers(tickers: &Vec<TickerFacts>) -> (r: Vec<usize>)
    ensures
        r@.map_values(|i: usize| i as int) == select_from(tickers@, 0, Set::empty()),
{
    let mut seen: StringHashMap<()> = StringHashMap::new();
    let mut out: Vec<usize> = Vec::new();
    let mut i: usize = 0;
    proof {
        assert(seen@.dom() =~= Set::<Seq<char>>::empty());
        assert(out@.map_values(|i: usize| i as int) + select_from(tickers@, 0, Set::empty()) =~= select_from(tickers@, 0, Set::empty()));
    }
    while i < tickers.len()
        invariant
            i <= tickers@.len(),
            out@.map_values(|k: usize| k as int) + select_from(tickers@, i as int, seen@.dom()) == select_from(tickers@, 0, Set::empty()),
        decreases tickers@.len() - i,
    {
        let t = &tickers[i];
        let ghost before = out@.map_values(|k: usize| k as int);
        let ghost seen0 = seen@.dom();
        if is_supported_quote(t.target.as_str()) && !seen.contains_key(t.exchange_name.as_str()) && t.price_ok && t.volume_ok {
            seen.insert(t.exchange_name.clone(), ());
            out.push(i);
            proof {
                assert(seen@.dom() =~= seen0.insert(tickers@[i as int].exchange_name@));
                assert(out@.map_values(|k: usize| k as int) =~= before.push(i as int));
                assert(before.push(i as int) + select_from(tickers@, i + 1, seen@.dom()) =~= before + (seq![i as int] + select_from(tickers@, i + 1, seen@.dom())));
            }
        }
        i = i + 1;
    }
    proof {
        assert(out@.map_values(|k: usize| k as int) + Seq::<int>::empty() =~= out@.map_values(|k: usize| k as int));
    }
    out
}

/// Trading venues with a known fee profile.
#[derive(Clone, Copy, Debug, PartialEq, Eq, Structural)]
pub enum Venue {
    Binance,
    Coinbase,
    Kraken,
    Okx,
    Bybit,
    Bitfinex,
    Kucoin,
    Other,
}

/// The venue an exchange's name (in lower case) names, by the first of
/// "binance", "coinbase", "kraken", "okx", "bybit", "bitfinex", "kucoin"
/// that it contains.
pub open spec fn venue_of(lower: Seq<char>) -> Venue {
    if crate::text::contains_text(lower, "binance"@) {
        Venue::Binance
    } else if crate::text::contains_text(lower, "coinbase"@) {
        Venue::Coinbase
    } else if crate::text::contains_text(lower, "kraken"@) {
        Venue::Kraken
    } else if crate::text::contains_text(lower, "okx"@) {
        Venue::Okx
    } else if crate::text::contains_text(lower, "bybit"@) {
        Venue::Bybit
    } else if crate::text::contains_text(lower, "bitfinex"@) {
        Venue::Bitfinex
    } else if crate::text::contains_text(lower, "kucoin"@) {
        Venue::Kucoin
    } else {
        Venue::Other
    }
}

/// A venue is given only to names that contain its word, and names that
/// contain none of the seven words are `Other`: Binance only when the
/// lower-case name contains "binance", Coinbase "coinbase", Kraken
/// "kraken", Okx "okx", Bybit "bybit", Bitfinex "bitfinex", Kucoin
/// "kucoin".  A name containing one of the words has a venue (the first
/// word in that order decides), so only names with none of them are
/// `Other`.
pub proof fn lemma_venue_by_name(lower: Seq<char>)
    ensures
        venue_of(lower) == Venue::Binance ==> crate::text::contains_text(lower, "binance"@),
        venue_of(lower) == Venue::Coinbase ==> crate::text::contains_text(lower, "coinbase"@),
        venue_of(lower) == Venue::Kraken ==> crate::text::contains_text(lower, "kraken"@),
        venue_of(lower) == Venue::Okx ==> crate::text::contains_text(lower, "okx"@),
        venue_of(lower) == Venue::Bybit ==> crate::text::contains_text(lower, "bybit"@),
        venue_of(lower) == Venue::Bitfinex ==> crate::text::contains_text(lower, "bitfinex"@),
        venue_of(lower) == Venue::Kucoin ==> crate::text::contains_text(lower, "kucoin"@),
        !crate::text::contains_text(lower, "binance"@) && !crate::text::contains_text(lower, "coinbase"@)
            && !crate::text::contains_text(lower, "kraken"@) && !crate::text::contains_text(lower, "okx"@)
            && !crate::text::contains_text(lower, "bybit"@) && !crate::text::contains_text(lower, "bitfinex"@)
            && !crate::text::contains_text(lower, "kucoin"@) ==> venue_of(lower) == Venue::Other,
        crate::text::contains_text(lower, "binance"@) ==> venue_of(lower) == Venue::Binance,
        crate::text::contains_text(lower, "kucoin"@) ==> venue_of(lower) != Venue::Other,
        crate::text::contains_text(lower, "coinbase"@) ==> venue_of(lower) != Venue::Other,
        crate::text::contains_text(lower, "kraken"@) ==> venue_of(lower) != Venue::Other,
        crate::text::contains_text(lower, "okx"@) ==> venue_of(lower) != Venue::Other,
        crate::text::contains_text(lower, "bybit"@) ==> venue_of(lower) != Venue::Other,
        crate::text::contains_text(lower, "bitfinex"@) ==> venue_of(lower) != Venue::Other,
{
}

impl Venue {
    /// The venue of an exchange, by its name in any case.
    pub fn of_exchange(name: &str) -> (r: Venue)
        ensures
            r == venue_of(crate::text::lowercase_of(name@)),
    {
        let l = lowercase(name);
        let n = l.as_str();
        if contains(n, "binance") {
            Venue::Binance
        } else if contains(n, "coinbase") {
            Venue::Coinbase
        } else if contains(n, "kraken") {
            Venue::Kraken
        } else if contains(n, "okx") {
            Venue::Okx
        } else if contains(n, "bybit") {
            Venue::Bybit
        } else if contains(n, "bitfinex") {
            Venue::Bitfinex
        } else if contains(n, "kucoin") {
            Venue::Kucoin
        } else {
            Venue::Other
        }
    }

    /// Typical minutes for a BTC withdrawal to arrive from this venue.
    pub fn transfer_minutes(&self) -> (r: u32)
        ensures
            r == (match *self {
                Venue::Binance => 25u32,
                Venue::Coinbase => 20u32,
                Venue::Kraken => 35u32,
                Venue::Okx => 30u32,
                Venue::Bybit => 30u32,
                Venue::Bitfinex => 45u32,
                Venue::Kucoin => 40u32,
                Venue::Other => 50u32,
            }),
    {
        match self {
            Venue::Binance => 25,
            Venue::Coinbase => 20,
            Venue::Kraken => 35,
            Venue::Okx => 30,
            Venue::Bybit => 30,
            Venue::Bitfinex => 45,
            Venue::Kucoin => 40,
            Venue::Other => 50,
        }
    }
}

proof fn lemma_select_from(ts: Seq<TickerFacts>, i: int, seen: Set<Seq<char>>)
    requires
        0 <= i,
    ensures
        ({
            let r = select_from(ts, i, seen);
            &&& forall|a: int| 0 <= a < r.len() ==> i <= #[trigger] r[a] < ts.len() && qualifies(ts[r[a]])
                && !seen.contains(ts[r[a]].exchange_name@)
            &&& forall|a: int, b: int| 0 <= a < b < r.len() ==> #[trigger] r[a] < #[trigger] r[b]
                && ts[r[a]].exchange_name@ != ts[r[b]].exchange_name@
            &&& forall|k: int| i <= k < ts.len() && #[trigger] qualifies(ts[k]) && !seen.contains(ts[k].exchange_name@)
                ==> exists|a: int| 0 <= a < r.len() && r[a] <= k && #[trigger] ts[r[a]].exchange_name@ == ts[k].exchange_name@
        }),
    decreases ts.len() - i,
{
    if i >= ts.len() {
    } else if qualifies(ts[i]) && !seen.contains(ts[i].exchange_name@) {
        let seen2 = seen.insert(ts[i].exchange_name@);
        lemma_select_from(ts, i + 1, seen2);
        let rest = select_from(ts, i + 1, seen2);
        let r = select_from(ts, i, seen);
        assert(r == seq![i] + rest);
        assert forall|a: int| 0 <= a < r.len() implies i <= #[trigger] r[a] < ts.len() && qualifies(ts[r[a]])
            && !seen.contains(ts[r[a]].exchange_name@) by {
            if a > 0 {
                assert(r[a] == rest[a - 1]);
            }
        }
        assert forall|a: int, b: int| 0 <= a < b < r.len() implies #[trigger] r[a] < #[trigger] r[b]
            && ts[r[a]].exchange_name@ != ts[r[b]].exchange_name@ by {
            assert(r[b] == rest[b - 1]);
            if a > 0 {
                assert(r[a] == rest[a - 1]);
            }
        }
        assert forall|k: int| i <= k < ts.len() && #[trigger] qualifies(ts[k]) && !seen.contains(ts[k].exchange_name@)
            implies exists|a: int| 0 <= a < r.len() && r[a] <= k && #[trigger] ts[r[a]].exchange_name@ == ts[k].exchange_name@ by {
            if ts[k].exchange_name@ == ts[i].exchange_name@ {
                assert(r[0] == i);
            } else if k > i {
                assert(!seen2.contains(ts[k].exchange_name@));
                let a = choose|a: int| 0 <= a < rest.len() && rest[a] <= k && #[trigger] ts[rest[a]].exchange_name@ == ts[k].exchange_name@;
                assert(r[a + 1] == rest[a]);
            }
        }
    } else {
        lemma_select_from(ts, i + 1, seen);
        let r = select_from(ts, i, seen);
        assert forall|k: int| i <= k < ts.len() && #[trigger] qualifies(ts[k]) && !seen.contains(ts[k].exchange_name@)
            implies exists|a: int| 0 <= a < r.len() && r[a] <= k && #[trigger] ts[r[a]].exchange_name@ == ts[k].exchange_name@ by {
            if k == i {
                assert(false);
            }
        }
    }
}

/// The tickers kept are the first qualifying ticker of each exchange: each
/// qualifies, they come in order, no two share an exchange, and every
/// exchange with a qualifying ticker has one kept, at or before it.
pub proof fn lemma_selection(ts: Seq<TickerFacts>)
    ensures
        ({
            let r = select_from(ts, 0, Set::empty());
            &&& forall|a: int| 0 <= a < r.len() ==> 0 <= #[trigger] r[a] < ts.len() && qualifies(ts[r[a]])
            &&& forall|a: int, b: int| 0 <= a < b < r.len() ==> #[trigger] r[a] < #[trigger] r[b]
                && ts[r[a]].exchange_name@ != ts[r[b]].exchange_name@
            &&& forall|k: int| 0 <= k < ts.len() && #[trigger] qualifies(ts[k])
                ==> exists|a: int| 0 <= a < r.len() && r[a] <= k && #[trigger] ts[r[a]].exchange_name@ == ts[k].exchange_name@
        }),
{
    lemma_select_from(ts, 0, Set::empty());
}

} // verus!
