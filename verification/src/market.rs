//! Market events and the decoding of the exchanges' feed messages.

use crate::book::{BookView, L2OrderBook, Level, PriceKey};
use crate::decimal::Dec;
use crate::error::Error;
use crate::json::JsonValue;
use vstd::prelude::*;

verus! {

/// A trade printed by an exchange.
#[derive(Debug)]
pub struct TradeUpdate {
    pub exchange: String,
    pub price: Dec,
    pub quantity: Dec,
    pub is_buyer_maker: bool,
    pub timestamp: i64,
}

/// What a trade holds, as plain values.
pub struct TradeView {
    pub exchange: Seq<char>,
    pub price: Dec,
    pub quantity: Dec,
    pub is_buyer_maker: bool,
    pub timestamp: i64,
}

/// An event of a market data feed.
#[derive(Debug)]
pub enum MarketEvent {
    OrderBookUpdate(L2OrderBook),
    Trade(TradeUpdate),
    /// A feed is alive (the exchange's name).
    Heartbeat(String),
    /// A feed went quiet (the exchange's name).
    Stale(String),
}

/// What an event holds, as plain values.
pub enum EventView {
    OrderBookUpdate(BookView),
    Trade(TradeView),
    Heartbeat(Seq<char>),
    Stale(Seq<char>),
}

impl View for MarketEvent {
    type V = EventView;

    open spec fn view(&self) -> EventView {
        match self {
            MarketEvent::OrderBookUpdate(b) => EventView::OrderBookUpdate(b@),
            MarketEvent::Trade(t) => EventView::Trade(
                TradeView {
                    exchange: t.exchange@,
                    price: t.price,
                    quantity: t.quantity,
                    is_buyer_maker: t.is_buyer_maker,
                    timestamp: t.timestamp,
                },
            ),
            MarketEvent::Heartbeat(s) => EventView::Heartbeat(s@),
            MarketEvent::Stale(s) => EventView::Stale(s@),
        }
    }
}

/// What decoding a feed message gives: an event, a text that is not JSON,
/// or a message the feed does not handle.
pub enum Decoded {
    Event(EventView),
    NotJson,
    /// A message the feed does not handle, with the error's text.
    Unhandled(Seq<char>),
}

/// Whether a decoding result is what `d` describes.
pub open spec fn decoded_as(r: Result<MarketEvent, Error>, d: Decoded) -> bool {
    match (r, d) {
        (Ok(e), Decoded::Event(v)) => e@ == v,
        (Err(Error::Json(_)), Decoded::NotJson) => true,
        (Err(Error::MalformedResponse(m)), Decoded::Unhandled(t)) => m@ == t,
        _ => false,
    }
}

impl Clone for TradeUpdate {
    fn clone(&self) -> (r: TradeUpdate)
        ensures
            r.exchange@ == self.exchange@,
            r.price == self.price,
            r.quantity == self.quantity,
            r.is_buyer_maker == self.is_buyer_maker,
            r.timestamp == self.timestamp,
    {
        TradeUpdate {
            exchange: self.exchange.clone(),
            price: self.price,
            quantity: self.quantity,
            is_buyer_maker: self.is_buyer_maker,
            timestamp: self.timestamp,
        }
    }
}

impl Clone for MarketEvent {
    fn clone(&self) -> (r: MarketEvent)
        ensures
            r@ == self@,
    {
        match self {
            MarketEvent::OrderBookUpdate(b) => MarketEvent::OrderBookUpdate(b.clone()),
            MarketEvent::Trade(t) => MarketEvent::Trade(t.clone()),
            MarketEvent::Heartbeat(s) => MarketEvent::Heartbeat(s.clone()),
            MarketEvent::Stale(s) => MarketEvent::Stale(s.clone()),
        }
    }
}

/// A side after applying `updates` in order (see `side_after_update`).
pub open spec fn apply_levels(side: Map<PriceKey, Level>, updates: Seq<(Dec, Dec)>) -> Map<PriceKey, Level>
    decreases updates.len(),
{
    if updates.len() == 0 {
        side
    } else {
        apply_levels(
            crate::book::side_after_update(side, updates[0].0, updates[0].1),
            updates.drop_first(),
        )
    }
}

/// The book holding, on each side, the given updates applied in order.
pub open spec fn book_from(exchange: Seq<char>, symbol: Seq<char>, bids: Seq<(Dec, Dec)>, asks: Seq<(Dec, Dec)>, ts: i64) -> BookView {
    BookView {
        exchange,
        symbol,
        bids: apply_levels(crate::book::no_levels(), bids),
        asks: apply_levels(crate::book::no_levels(), asks),
        last_update_id: 0,
        local_timestamp: ts,
    }
}

fn apply_to_bids(book: &mut L2OrderBook, updates: &Vec<(Dec, Dec)>)
    ensures
        final(book)@ == (BookView { bids: apply_levels(old(book)@.bids, updates@), ..old(book)@ }),
        old(book).is_consistent() ==> final(book).is_consistent(),
{
    let mut i: usize = 0;
    proof {
        assert(updates@.skip(0) =~= updates@);
    }
    while i < updates.len()
        invariant
            i <= updates@.len(),
            apply_levels(book@.bids, updates@.skip(i as int)) == apply_levels(old(book)@.bids, updates@),
            book@ == (BookView { bids: book@.bids, ..old(book)@ }),
            old(book).is_consistent() ==> book.is_consistent(),
        decreases updates@.len() - i,
    {
        proof {
            assert(updates@.skip(i as int).drop_first() =~= updates@.skip(i + 1));
        }
        book.update_bid(updates[i].0, updates[i].1);
        i = i + 1;
    }
    proof {
        assert(updates@.skip(i as int) =~= Seq::<(Dec, Dec)>::empty());
    }
}

fn apply_to_asks(book: &mut L2OrderBook, updates: &Vec<(Dec, Dec)>)
    ensures
        final(book)@ == (BookView { asks: apply_levels(old(book)@.asks, updates@), ..old(book)@ }),
        old(book).is_consistent() ==> final(book).is_consistent(),
{
    let mut i: usize = 0;
    proof {
        assert(updates@.skip(0) =~= updates@);
    }
    while i < updates.len()
        invariant
            i <= updates@.len(),
            apply_levels(book@.asks, updates@.skip(i as int)) == apply_levels(old(book)@.asks, updates@),
            book@ == (BookView { asks: book@.asks, ..old(book)@ }),
            old(book).is_consistent() ==> book.is_consistent(),
        decreases updates@.len() - i,
    {
        proof {
            assert(updates@.skip(i as int).drop_first() =~= updates@.skip(i + 1));
        }
        book.update_ask(updates[i].0, updates[i].1);
        i = i + 1;
    }
    proof {
        assert(updates@.skip(i as int) =~= Seq::<(Dec, Dec)>::empty());
    }
}


/// Prepends `o` to a sequence that may be missing.
pub open spec fn prepend(o: Seq<(Dec, Dec)>, rest: Option<Seq<(Dec, Dec)>>) -> Option<Seq<(Dec, Dec)>> {
    match rest {
        None => None,
        Some(r) => Some(o + r),
    }
}

/// A Binance level `[price, quantity]`: two texts that parse as decimals;
/// `None` where an element is missing, not a text, or not a decimal.
pub open spec fn binance_level(e: JsonValue) -> Option<(Dec, Dec)> {
    match crate::json::as_text(crate::json::element(e, 0)) {
        None => None,
        Some(ps) => match crate::decimal::decimal_parse(ps) {
            None => None,
            Some(p) => match crate::json::as_text(crate::json::element(e, 1)) {
                None => None,
                Some(qs) => match crate::decimal::decimal_parse(qs) {
                    None => None,
                    Some(q) => Some((p, q)),
                },
            },
        },
    }
}

/// The Binance levels of a list, in order; `None` where one is malformed.
pub open spec fn binance_levels(items: Seq<JsonValue>) -> Option<Seq<(Dec, Dec)>>
    decreases items.len(),
{
    if items.len() == 0 {
        Some(Seq::empty())
    } else {
        match binance_level(items[0]) {
            None => None,
            Some(l) => prepend(seq![l], binance_levels(items.drop_first())),
        }
    }
}

/// The levels under `key`: none when it is not a list.
pub open spec fn binance_side(v: JsonValue, key: Seq<char>) -> Option<Seq<(Dec, Dec)>> {
    match crate::json::as_items(crate::json::field(v, key)) {
        None => Some(Seq::empty()),
        Some(items) => binance_levels(items),
    }
}

/// What a Binance message decodes to on `stream`: a depth snapshot gives a
/// "BTC/USDT" book stamped `now`, a trade message a trade; another stream
/// is not handled.  `None` where a listed level is malformed (see
/// `binance_level`), or a trade lacks a decimal text under "p" or "q", a
/// boolean under "m" or an integer under "T".
pub open spec fn binance_decode(name: Seq<char>, v: JsonValue, stream: Seq<char>, now: i64) -> Option<Decoded> {
    if stream == "depth20@100ms"@ {
        match (binance_side(v, "bids"@), binance_side(v, "asks"@)) {
            (Some(b), Some(a)) => Some(Decoded::Event(EventView::OrderBookUpdate(book_from(name, "BTC/USDT"@, b, a, now)))),
            _ => None,
        }
    } else if stream == "trade"@ {
        match (
            crate::json::as_text(crate::json::field(v, "p"@)),
            crate::json::as_text(crate::json::field(v, "q"@)),
            crate::json::as_flag(crate::json::field(v, "m"@)),
            crate::json::as_int(crate::json::field(v, "T"@)),
        ) {
            (Some(ps), Some(qs), Some(m), Some(t)) => match (crate::decimal::decimal_parse(ps), crate::decimal::decimal_parse(qs)) {
                (Some(p), Some(q)) => Some(Decoded::Event(EventView::Trade(
                    TradeView { exchange: name, price: p, quantity: q, is_buyer_maker: m, timestamp: t },
                ))),
                _ => None,
            },
            _ => None,
        }
    } else {
        Some(Decoded::Unhandled("Unknown Binance stream"@))
    }
}

/// What a Binance message text decodes to (see `binance_decode`).
pub open spec fn binance_outcome(name: Seq<char>, text: Seq<char>, stream: Seq<char>, now: i64) -> Option<Decoded> {
    match crate::json::json_parse(text) {
        None => Some(Decoded::NotJson),
        Some(v) => binance_decode(name, v, stream, now),
    }
}

/// A Kraken number: the text under the key parsed as a decimal, "0" when
/// it is not a text, and zero when it does not parse.
pub open spec fn kraken_num(v: JsonValue) -> Dec {
    let t = match crate::json::as_text(v) {
        Some(s) => s,
        None => "0"@,
    };
    match crate::decimal::decimal_parse(t) {
        Some(d) => d,
        None => Dec::spec_zero(),
    }
}

/// The Kraken levels `{price, qty}` of a list, in order.
pub open spec fn kraken_levels(items: Seq<JsonValue>) -> Seq<(Dec, Dec)> {
    items.map_values(|e: JsonValue| (kraken_num(crate::json::field(e, "price"@)), kraken_num(crate::json::field(e, "qty"@))))
}

/// The Kraken levels under `key`: none when it is not a list.
pub open spec fn kraken_side(data: JsonValue, key: Seq<char>) -> Seq<(Dec, Dec)> {
    match crate::json::as_items(crate::json::field(data, key)) {
        None => Seq::empty(),
        Some(items) => kraken_levels(items),
    }
}

/// What a Kraken message decodes to: a book update (channel "book", type
/// "update") gives a "BTC/USD" book from the first data item; any other
/// message is not handled.
pub open spec fn kraken_decode(name: Seq<char>, v: JsonValue) -> Decoded {
    if crate::json::as_text(crate::json::field(v, "channel"@)) == Some("book"@)
        && crate::json::as_text(crate::json::field(v, "type"@)) == Some("update"@) {
        let data = crate::json::element(crate::json::field(v, "data"@), 0);
        Decoded::Event(EventView::OrderBookUpdate(
            book_from(name, "BTC/USD"@, kraken_side(data, "bids"@), kraken_side(data, "asks"@), 0),
        ))
    } else {
        Decoded::Unhandled("Unhandled Kraken msg"@)
    }
}

/// What a Kraken message text decodes to (see `kraken_decode`).
pub open spec fn kraken_outcome(name: Seq<char>, text: Seq<char>) -> Decoded {
    match crate::json::json_parse(text) {
        None => Decoded::NotJson,
        Some(v) => kraken_decode(name, v),
    }
}

fn binance_levels_of(items: &Vec<JsonValue>) -> (r: Option<Vec<(Dec, Dec)>>)
    ensures
        match r {
            Some(v) => binance_levels(items@) == Some(v@),
            None => binance_levels(items@) is None,
        },
{
    let mut out: Vec<(Dec, Dec)> = Vec::new();
    let mut i: usize = 0;
    proof {
        assert(items@.skip(0) =~= items@);
        assert(out@ + Seq::<(Dec, Dec)>::empty() =~= out@);
    }
    while i < items.len()
        invariant
            i <= items@.len(),
            binance_levels(items@) == prepend(out@, binance_levels(items@.skip(i as int))),
        decreases items@.len() - i,
    {
        let e = &items[i];
        proof {
            assert(items@.skip(i as int)[0] == items@[i as int]);
            assert(items@.skip(i as int).drop_first() =~= items@.skip(i + 1));
        }
        let ps = match e.at(0).as_str() {
            Some(t) => t,
            None => return None,
        };
        let p = match Dec::parse(ps) {
            Some(d) => d,
            None => return None,
        };
        let qs = match e.at(1).as_str() {
            Some(t) => t,
            None => return None,
        };
        let q = match Dec::parse(qs) {
            Some(d) => d,
            None => return None,
        };
        let ghost before = out@;
        out.push((p, q));
        proof {
            assert(before + (seq![(p, q)] + binance_levels(items@.skip(i + 1))->0) =~= out@ + binance_levels(items@.skip(i + 1))->0);
        }
        i = i + 1;
    }
    proof {
        assert(items@.skip(i as int) =~= Seq::<JsonValue>::empty());
        assert(out@ + Seq::<(Dec, Dec)>::empty() =~= out@);
    }
    Some(out)
}

fn binance_side_of(v: &JsonValue, key: &str) -> (r: Option<Vec<(Dec, Dec)>>)
    ensures
        match r {
            Some(l) => binance_side(*v, key@) == Some(l@),
            None => binance_side(*v, key@) is None,
        },
{
    match v.get(key).as_array() {
        None => Some(Vec::new()),
        Some(items) => binance_levels_of(items),
    }
}

fn kraken_levels_of(items: &Vec<JsonValue>) -> (r: Vec<(Dec, Dec)>)
    ensures
        r@ == kraken_levels(items@),
{
    let mut out: Vec<(Dec, Dec)> = Vec::new();
    let mut i: usize = 0;
    while i < items.len()
        invariant
            i <= items@.len(),
            out@ == kraken_levels(items@).take(i as int),
        decreases items@.len() - i,
    {
        let e = &items[i];
        let p = kraken_number(e.get("price"));
        let q = kraken_number(e.get("qty"));
        out.push((p, q));
        proof {
            reveal_strlit("price");
            reveal_strlit("qty");
            assert(out@ =~= kraken_levels(items@).take(i + 1));
        }
        i = i + 1;
    }
    proof {
        assert(out@ =~= kraken_levels(items@));
    }
    out
}

fn kraken_number(v: &JsonValue) -> (r: Dec)
    ensures
        r == kraken_num(*v),
{
    let t = match v.as_str() {
        Some(s) => s,
        None => "0",
    };
    match Dec::parse(t) {
        Some(d) => d,
        None => Dec::zero(),
    }
}

fn kraken_side_of(data: &JsonValue, key: &str) -> (r: Vec<(Dec, Dec)>)
    ensures
        r@ == kraken_side(*data, key@),
{
    match data.get(key).as_array() {
        None => Vec::new(),
        Some(items) => kraken_levels_of(items),
    }
}

/// The Binance spot feed.
pub struct BinanceExchange {
    name: String,
    base_url: String,
}

impl BinanceExchange {
    pub closed spec fn name_view(&self) -> Seq<char> {
        self.name@
    }

    pub closed spec fn base_url_view(&self) -> Seq<char> {
        self.base_url@
    }

    /// The feed named "Binance" at "wss://stream.binance.com:9443/ws".
    pub fn new() -> (r: BinanceExchange)
        ensures
            r.name_view() == "Binance"@,
            r.base_url_view() == "wss://stream.binance.com:9443/ws"@,
    {
        BinanceExchange { name: "Binance".to_string(), base_url: "wss://stream.binance.com:9443/ws".to_string() }
    }

    pub fn name(&self) -> (r: &str)
        ensures
            r@ == self.name_view(),
    {
        self.name.as_str()
    }

    /// The feed always reports itself healthy.
    pub fn is_healthy(&self) -> (r: bool)
        ensures
            r,
    {
        true
    }

    /// The stream address `{base_url}/{symbol in lower case}@{stream_name}`.
    pub fn stream_url(&self, symbol: &str, stream_name: &str) -> (r: String)
        ensures
            r@ == self.base_url_view() + "/"@ + crate::text::lowercase_of(symbol@) + "@"@ + stream_name@,
    {
        let lower = crate::text::lowercase(symbol);
        let mut url = self.base_url.clone();
        url.append("/");
        url.append(lower.as_str());
        url.append("@");
        url.append(stream_name);
        url
    }

    fn decode(&self, v: &JsonValue, stream_name: &str, now: i64) -> (r: Option<Result<MarketEvent, Error>>)
        ensures
            match r {
                Some(e) => binance_decode(self.name_view(), *v, stream_name@, now) matches Some(d) && decoded_as(e, d),
                None => binance_decode(self.name_view(), *v, stream_name@, now) is None,
            },
            r matches Some(Ok(MarketEvent::OrderBookUpdate(b))) ==> b.is_consistent(),
    {
        proof {
            reveal_strlit("depth20@100ms");
            reveal_strlit("trade");
            reveal_strlit("bids");
            reveal_strlit("asks");
            reveal_strlit("BTC/USDT");
            reveal_strlit("p");
            reveal_strlit("q");
            reveal_strlit("m");
            reveal_strlit("T");
        }
        if crate::text::text_eq(stream_name, "depth20@100ms") {
            let bids = match binance_side_of(v, "bids") {
                Some(l) => l,
                None => return None,
            };
            let asks = match binance_side_of(v, "asks") {
                Some(l) => l,
                None => return None,
            };
            let mut book = L2OrderBook::new(self.name.as_str(), "BTC/USDT");
            apply_to_bids(&mut book, &bids);
            apply_to_asks(&mut book, &asks);
            book.local_timestamp = now;
            proof {
                assert(book@ == book_from(self.name_view(), "BTC/USDT"@, bids@, asks@, now));
            }
            Some(Ok(MarketEvent::OrderBookUpdate(book)))
        } else if crate::text::text_eq(stream_name, "trade") {
            let ps = match v.get("p").as_str() {
                Some(t) => t,
                None => return None,
            };
            let qs = match v.get("q").as_str() {
                Some(t) => t,
                None => return None,
            };
            let m = match v.get("m").as_bool() {
                Some(b) => b,
                None => return None,
            };
            let t = match v.get("T").as_i64() {
                Some(x) => x,
                None => return None,
            };
            let p = match Dec::parse(ps) {
                Some(d) => d,
                None => return None,
            };
            let q = match Dec::parse(qs) {
                Some(d) => d,
                None => return None,
            };
            Some(
                Ok(
                    MarketEvent::Trade(
                        TradeUpdate {
                            exchange: self.name.clone(),
                            price: p,
                            quantity: q,
                            is_buyer_maker: m,
                            timestamp: t,
                        },
                    ),
                ),
            )
        } else {
            Some(Err(Error::MalformedResponse("Unknown Binance stream".to_string())))
        }
    }

    /// Decodes a message of `stream_name` received at `now`; `None` where
    /// `binance_outcome` is `None`: a listed level, or a trade field, is
    /// missing or not of its kind.
    pub fn try_parse_message_at(&self, text: &str, stream_name: &str, now: i64) -> (r: Option<Result<MarketEvent, Error>>)
        ensures
            match r {
                Some(e) => binance_outcome(self.name_view(), text@, stream_name@, now) matches Some(d) && decoded_as(e, d),
                None => binance_outcome(self.name_view(), text@, stream_name@, now) is None,
            },
            r matches Some(Ok(MarketEvent::OrderBookUpdate(b))) ==> b.is_consistent(),
    {
        let probe = match crate::json::parse(text) {
            Err(_) => true,
            Ok(v) => self.decode(&v, stream_name, now).is_some(),
        };
        if probe {
            Some(self.parse_message_at(text, stream_name, now))
        } else {
            None
        }
    }

    /// Decodes a message of `stream_name` received at `now`.
    pub fn parse_message_at(&self, text: &str, stream_name: &str, now: i64) -> (r: Result<MarketEvent, Error>)
        requires
            binance_outcome(self.name_view(), text@, stream_name@, now) is Some,
        ensures
            binance_outcome(self.name_view(), text@, stream_name@, now) matches Some(d) && decoded_as(r, d),
            r matches Ok(MarketEvent::OrderBookUpdate(b)) ==> b.is_consistent(),
    {
        match crate::json::parse(text) {
            Err(e) => Err(e),
            Ok(v) => match self.decode(&v, stream_name, now) {
                Some(e) => e,
                None => Err(Error::MalformedResponse("Unknown Binance stream".to_string())),
            },
        }
    }

    /// Decodes a message of `stream_name`.  A depth book is stamped with
    /// the current time, read once the book is built; where the clock reads
    /// before the Unix epoch the result is `Error::Clock`.  Other messages
    /// do not read the clock.
    pub fn parse_message(&self, text: &str, stream_name: &str) -> (r: Result<MarketEvent, Error>)
        requires
            forall|now: i64| #[trigger] binance_outcome(self.name_view(), text@, stream_name@, now) is Some,
        ensures
            stamped_decoding(self.name_view(), text@, stream_name@, r),
    {
        let r0 = self.parse_message_at(text, stream_name, 0);
        match r0 {
            Ok(MarketEvent::OrderBookUpdate(book)) => match crate::clock::now_millis() {
                None => Err(Error::Clock),
                Some(t) => {
                    let mut b = book;
                    b.local_timestamp = t;
                    proof {
                        lemma_binance_time(self.name_view(), text@, stream_name@, t);
                    }
                    Ok(MarketEvent::OrderBookUpdate(b))
                },
            },
            other => {
                proof {
                    assert forall|now: i64|
                        #[trigger] binance_outcome(self.name_view(), text@, stream_name@, now) matches Some(d)
                            && decoded_as(other, d) by {
                        lemma_binance_time(self.name_view(), text@, stream_name@, now);
                    }
                }
                other
            },
        }
    }

    /// As `parse_message`, with `None` in place of a call whose requirement
    /// fails: a listed level, or a trade field, is missing or not of its
    /// kind.
    pub fn try_parse_message(&self, text: &str, stream_name: &str) -> (r: Option<Result<MarketEvent, Error>>)
        ensures
            r is None <==> binance_outcome(self.name_view(), text@, stream_name@, 0) is None,
            r matches Some(x) ==> stamped_decoding(self.name_view(), text@, stream_name@, x),
    {
        match self.try_parse_message_at(text, stream_name, 0) {
            None => None,
            Some(_) => {
                proof {
                    assert forall|now: i64| #[trigger]
                        binance_outcome(self.name_view(), text@, stream_name@, now) is Some by {
                        lemma_binance_time(self.name_view(), text@, stream_name@, now);
                    }
                }
                Some(self.parse_message(text, stream_name))
            },
        }
    }
}

/// Whether `r` is what a Binance message decodes to when a book is stamped
/// with the clock: `Error::Clock` only for a message that decodes to a
/// book; a book exactly as decoded at its own timestamp; anything else as
/// decoded at every time.
pub open spec fn stamped_decoding(name: Seq<char>, text: Seq<char>, stream: Seq<char>, r: Result<MarketEvent, Error>) -> bool {
    match r {
        Err(Error::Clock) => binance_outcome(name, text, stream, 0) matches Some(
            Decoded::Event(EventView::OrderBookUpdate(_)),
        ),
        Ok(MarketEvent::OrderBookUpdate(b)) => binance_outcome(name, text, stream, b.local_timestamp) matches Some(d)
            && decoded_as(r, d) && b.is_consistent(),
        _ => forall|now: i64| #[trigger]
            binance_outcome(name, text, stream, now) matches Some(d) && decoded_as(r, d),
    }
}

/// A Kraken message decodes to an event only when it is JSON whose
/// "channel" is the text "book" and whose "type" is the text "update"; the
/// event is then a "BTC/USD" book of the feed.  Every other message (a
/// status or heartbeat message, a book snapshot) is unhandled, with the
/// text "Unhandled Kraken msg", and a text that is not JSON is reported as
/// such.
pub proof fn lemma_kraken_book_updates_only(name: Seq<char>, text: Seq<char>)
    ensures
        kraken_outcome(name, text) matches Decoded::Event(e) ==> {
            &&& crate::json::json_parse(text) matches Some(v)
            &&& crate::json::as_text(crate::json::field(v, "channel"@)) == Some("book"@)
            &&& crate::json::as_text(crate::json::field(v, "type"@)) == Some("update"@)
            &&& e matches EventView::OrderBookUpdate(b) && b.exchange == name && b.symbol == "BTC/USD"@
        },
        crate::json::json_parse(text) matches Some(v) ==> (crate::json::as_text(crate::json::field(v, "channel"@))
            != Some("book"@) ==> kraken_outcome(name, text) == Decoded::Unhandled("Unhandled Kraken msg"@)),
        crate::json::json_parse(text) matches Some(v) ==> (crate::json::as_text(crate::json::field(v, "type"@))
            != Some("update"@) ==> kraken_outcome(name, text) == Decoded::Unhandled("Unhandled Kraken msg"@)),
        crate::json::json_parse(text) matches Some(v) ==> (crate::json::as_text(crate::json::field(v, "channel"@))
            == Some("book"@) && crate::json::as_text(crate::json::field(v, "type"@)) == Some("update"@) ==> kraken_outcome(
            name,
            text,
        ) is Event),
        crate::json::json_parse(text) is None ==> kraken_outcome(name, text) == Decoded::NotJson,
{
}

/// `d` with a decoded book restamped at `t`; other results as they are.
pub open spec fn restamped(d: Option<Decoded>, t: i64) -> Option<Decoded> {
    match d {
        Some(Decoded::Event(EventView::OrderBookUpdate(b))) => Some(
            Decoded::Event(EventView::OrderBookUpdate(BookView { local_timestamp: t, ..b })),
        ),
        _ => d,
    }
}

/// The time of a Binance message only stamps the book it decodes to.
pub proof fn lemma_binance_time(name: Seq<char>, text: Seq<char>, stream: Seq<char>, t: i64)
    ensures
        binance_outcome(name, text, stream, t) == restamped(binance_outcome(name, text, stream, 0), t),
{
}

/// The Kraken v2 feed.
pub struct KrakenExchange {
    name: String,
    base_url: String,
}

impl KrakenExchange {
    pub closed spec fn name_view(&self) -> Seq<char> {
        self.name@
    }

    pub closed spec fn base_url_view(&self) -> Seq<char> {
        self.base_url@
    }

    /// The feed named "Kraken" at "wss://ws.kraken.com/v2".
    pub fn new() -> (r: KrakenExchange)
        ensures
            r.name_view() == "Kraken"@,
            r.base_url_view() == "wss://ws.kraken.com/v2"@,
    {
        KrakenExchange { name: "Kraken".to_string(), base_url: "wss://ws.kraken.com/v2".to_string() }
    }

    pub fn name(&self) -> (r: &str)
        ensures
            r@ == self.name_view(),
    {
        self.name.as_str()
    }

    pub fn base_url(&self) -> (r: &str)
        ensures
            r@ == self.base_url_view(),
    {
        self.base_url.as_str()
    }

    /// The feed always reports itself healthy.
    pub fn is_healthy(&self) -> (r: bool)
        ensures
            r,
    {
        true
    }

    /// Decodes a Kraken message (see `kraken_outcome`).
    pub fn parse_message(&self, text: &str) -> (r: Result<MarketEvent, Error>)
        ensures
            decoded_as(r, kraken_outcome(self.name_view(), text@)),
            r matches Ok(MarketEvent::OrderBookUpdate(b)) ==> b.is_consistent(),
    {
        proof {
            reveal_strlit("channel");
            reveal_strlit("type");
            reveal_strlit("book");
            reveal_strlit("update");
            reveal_strlit("data");
            reveal_strlit("bids");
            reveal_strlit("asks");
            reveal_strlit("BTC/USD");
        }
        let v = match crate::json::parse(text) {
            Ok(v) => v,
            Err(e) => return Err(e),
        };
        if v.get("channel").is_text("book") && v.get("type").is_text("update") {
            let data = v.get("data").at(0);
            let bids = kraken_side_of(data, "bids");
            let asks = kraken_side_of(data, "asks");
            let mut book = L2OrderBook::new(self.name.as_str(), "BTC/USD");
            apply_to_bids(&mut book, &bids);
            apply_to_asks(&mut book, &asks);
            return Ok(MarketEvent::OrderBookUpdate(book));
        }
        Err(Error::MalformedResponse("Unhandled Kraken msg".to_string()))
    }
}

} // verus!
