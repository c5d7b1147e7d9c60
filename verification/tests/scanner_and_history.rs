use quantum_arbitrage::book::L2OrderBook;
use quantum_arbitrage::decimal::Dec;
use quantum_arbitrage::history::OpportunityLog;
use quantum_arbitrage::normalization::NormalizationEngine;
use quantum_arbitrage::scanner::{ArbOpportunity, ArbitrageScanner};
use rust_decimal::Decimal;
use std::str::FromStr;
use std::sync::Arc;

fn d(s: &str) -> Dec {
    Dec::parse(s).expect("decimal text")
}

fn to_decimal(x: Dec) -> Decimal {
    Decimal::from_i128_with_scale(x.mantissa(), x.scale())
}

fn dec(s: &str) -> Decimal {
    Decimal::from_str(s).unwrap()
}

fn book(exchange: &str, symbol: &str, bid: &str, ask: &str, qty: &str) -> L2OrderBook {
    let mut b = L2OrderBook::new(exchange, symbol);
    b.update_bid(d(bid), d(qty));
    b.update_ask(d(ask), d(qty));
    b
}

fn scanner() -> ArbitrageScanner {
    ArbitrageScanner::new(d("0.1"), Arc::new(NormalizationEngine::new()))
}

#[test]
fn single_book_gives_nothing() {
    let mut s = scanner();
    assert!(s.update_book_at(book("A", "BTC/USD", "99", "100", "1"), 5).is_none());
}

#[test]
fn spread_gives_opportunity_with_exact_terms() {
    let mut s = scanner();
    assert!(s.update_book_at(book("A", "BTC/USD", "99", "100", "1"), 1).is_none());
    let opp = s.update_book_at(book("B", "BTC/USD", "101", "102", "1"), 77).expect("opportunity");
    assert_eq!(opp.buy_exchange, "A");
    assert_eq!(opp.sell_exchange, "B");
    assert_eq!(opp.symbol, "BTC/USD");
    assert_eq!(opp.confidence, "HIGH");
    assert_eq!(opp.notes, "L2 Depth Validated");
    assert_eq!(opp.timestamp, 77);
    assert_eq!(to_decimal(opp.size_btc), dec("0.1"));
    let size = dec("0.1");
    let cost = dec("100") * size * (dec("1.0") + dec("0.001"));
    let revenue = dec("101") * size * (dec("1.0") - dec("0.001"));
    let net = revenue - cost;
    let net_pct = (net / cost) * dec("100");
    let gross = ((dec("101") - dec("100")) / dec("100")) * dec("100");
    assert_eq!(to_decimal(opp.buy_price), dec("100"));
    assert_eq!(to_decimal(opp.sell_price), dec("101"));
    assert_eq!(to_decimal(opp.net_profit_usd), net);
    assert_eq!(to_decimal(opp.net_pct), net_pct);
    assert_eq!(to_decimal(opp.net_after_all_pct), net_pct);
    assert_eq!(to_decimal(opp.gross_spread_pct), gross);
}

#[test]
fn no_opportunity_without_spread() {
    let mut s = scanner();
    s.update_book_at(book("A", "BTC/USD", "99", "100", "1"), 1);
    assert!(s.update_book_at(book("B", "BTC/USD", "99.5", "100.5", "1"), 2).is_none());
}

#[test]
fn thin_books_are_skipped() {
    let mut s = scanner();
    s.update_book_at(book("A", "BTC/USD", "99", "100", "0.05"), 1);
    assert!(s.update_book_at(book("B", "BTC/USD", "110", "111", "1"), 2).is_none());
}

#[test]
fn unknown_symbols_are_skipped() {
    let mut s = scanner();
    s.update_book_at(book("Binance", "BTC/USDT", "99", "100", "1"), 1);
    assert!(s.update_book_at(book("B", "BTC/USD", "110", "111", "1"), 2).is_none());
}

#[test]
fn usdt_books_are_normalised() {
    let mut s = scanner();
    s.update_book_at(book("A", "BTCUSDT", "99", "100", "1"), 1);
    let opp = s.update_book_at(book("B", "BTC-USD", "101", "102", "1"), 2).expect("opportunity");
    assert_eq!(opp.buy_exchange, "A");
    assert_eq!(to_decimal(opp.buy_price), dec("100.0"));
}

#[test]
fn best_of_several_pairs_is_reported() {
    let mut s = scanner();
    s.update_book_at(book("A", "BTC/USD", "99", "100", "1"), 1);
    s.update_book_at(book("B", "BTC/USD", "101", "102", "1"), 2);
    let opp = s.update_book_at(book("C", "BTC/USD", "103", "104", "1"), 3).expect("opportunity");
    assert_eq!(opp.buy_exchange, "A");
    assert_eq!(opp.sell_exchange, "C");
}

#[test]
fn newer_book_replaces_older_one() {
    let mut s = scanner();
    s.update_book_at(book("A", "BTC/USD", "99", "100", "1"), 1);
    assert!(s.update_book_at(book("B", "BTC/USD", "101", "102", "1"), 2).is_some());
    assert!(s.update_book_at(book("B", "BTC/USD", "99.5", "100.5", "1"), 3).is_none());
}

#[test]
fn try_update_reports_overflow() {
    let mut s = ArbitrageScanner::new(Dec::from_i128_with_scale(79228162514264337593543950335, 0).unwrap(), Arc::new(NormalizationEngine::new()));
    let huge = Dec::from_i128_with_scale(79228162514264337593543950335, 0).unwrap();
    let mut a = L2OrderBook::new("A", "BTC/USD");
    a.update_ask(huge, huge);
    a.update_bid(huge, huge);
    assert!(s.try_update_book_at(a, 1).is_some());
    let mut b = L2OrderBook::new("B", "BTC/USD");
    b.update_ask(huge, huge);
    b.update_bid(huge, huge);
    assert!(s.try_update_book_at(b, 2).is_none());
}

#[test]
fn update_book_uses_the_clock() {
    let mut s = scanner();
    assert!(matches!(s.update_book(book("A", "BTC/USD", "99", "100", "1")), Ok(None)));
    let opp = s.update_book(book("B", "BTC/USD", "101", "102", "1")).expect("clock").expect("opportunity");
    assert!(opp.timestamp > 1_600_000_000_000);
    assert_eq!(opp.buy_exchange, "A");
    assert_eq!(opp.sell_exchange, "B");
    match s.try_update_book(book("C", "BTC/USD", "99", "100.5", "1")) {
        Some(Ok(Some(o))) => assert_eq!((o.buy_exchange.as_str(), o.sell_exchange.as_str()), ("A", "B")),
        other => panic!("unexpected {:?}", other.map(|r| r.map(|o| o.is_some()))),
    }
}

#[test]
fn scanner_parity_update_reaches_the_scan() {
    let mut s = scanner();
    s.update_book_at(book("A", "BTCUSDT", "99", "100", "1"), 1);
    let opp = s.update_book_at(book("B", "BTC/USD", "101", "102", "1"), 2).expect("opportunity at par");
    assert!(opp.buy_price == d("100.0"));
    s.update_parity("USDT", d("1.02"));
    assert!(s.update_book_at(book("B", "BTC/USD", "101", "102", "1"), 3).is_none());
    s.update_parity("USDT", d("0.98"));
    let opp = s.update_book_at(book("B", "BTC/USD", "101", "102", "1"), 4).expect("opportunity");
    assert!(opp.buy_price == d("98"));
}

fn sample_opp(n: i64) -> ArbOpportunity {
    ArbOpportunity {
        buy_exchange: "A".to_string(),
        sell_exchange: "B".to_string(),
        symbol: "BTC/USD".to_string(),
        size_btc: d("0.1"),
        buy_price: d("100"),
        sell_price: d("101"),
        gross_spread_pct: d("1"),
        net_after_all_pct: d("0.8"),
        net_profit_usd: d("0.08"),
        net_pct: d("0.8"),
        confidence: "HIGH".to_string(),
        notes: "L2 Depth Validated".to_string(),
        timestamp: n,
    }
}

#[test]
fn history_keeps_newest_first_and_at_most_100() {
    let mut log = OpportunityLog::new();
    assert_eq!(log.len(), 0);
    for n in 0..105 {
        log.record(sample_opp(n));
    }
    assert_eq!(log.len(), 100);
    let items = log.snapshot();
    assert_eq!(items.len(), 100);
    assert_eq!(items[0].timestamp, 104);
    assert_eq!(items[99].timestamp, 5);
}
