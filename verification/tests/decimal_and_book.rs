use quantum_arbitrage::book::L2OrderBook;
use quantum_arbitrage::decimal::{Dec, DecOrder};
use rust_decimal::Decimal;
use std::str::FromStr;

fn d(s: &str) -> Dec {
    Dec::parse(s).expect("decimal text")
}

fn to_decimal(x: Dec) -> Decimal {
    Decimal::from_i128_with_scale(x.mantissa(), x.scale())
}

#[test]
fn dec_new_keeps_mantissa_and_scale() {
    let x = Dec::new(12345, 2);
    assert_eq!(x.mantissa(), 12345);
    assert_eq!(x.scale(), 2);
    assert_eq!(to_decimal(x), Decimal::from_str("123.45").unwrap());
}

#[test]
fn dec_from_i128_with_scale_checks_range() {
    assert!(Dec::from_i128_with_scale(5, 28).is_some());
    assert!(Dec::from_i128_with_scale(5, 29).is_none());
    assert!(Dec::from_i128_with_scale(79228162514264337593543950335, 0).is_some());
    assert!(Dec::from_i128_with_scale(79228162514264337593543950336, 0).is_none());
    assert!(Dec::from_i128_with_scale(-79228162514264337593543950336, 0).is_none());
}

#[test]
fn dec_parse_reads_text() {
    let x = d("100.50");
    assert_eq!(x.mantissa(), 10050);
    assert_eq!(x.scale(), 2);
    assert!(Dec::parse("abc").is_none());
    assert!(Dec::parse("").is_none());
    let n = d("-0.001");
    assert_eq!(n.mantissa(), -1);
    assert_eq!(n.scale(), 3);
}

#[test]
fn dec_arithmetic_matches_rust_decimal() {
    let a = d("1.5");
    let b = d("2.25");
    assert_eq!(to_decimal(a.checked_add(&b).unwrap()), Decimal::from_str("3.75").unwrap());
    assert_eq!(to_decimal(a.checked_sub(&b).unwrap()), Decimal::from_str("-0.75").unwrap());
    assert_eq!(to_decimal(a.checked_mul(&b).unwrap()), Decimal::from_str("3.375").unwrap());
    assert_eq!(to_decimal(b.checked_div(&a).unwrap()), Decimal::from_str("1.5").unwrap());
    assert!(a.checked_div(&Dec::zero()).is_none());
    let big = Dec::from_i128_with_scale(79228162514264337593543950335, 0).unwrap();
    assert!(big.checked_add(&big).is_none());
    assert!(big.checked_mul(&Dec::new(2, 0)).is_none());
}

#[test]
fn dec_compares_by_value() {
    assert_eq!(d("1.0").compare(&d("1.00")), DecOrder::Equal);
    assert!(d("1.0") == d("1.000"));
    assert!(d("1.0") != d("1.01"));
    assert_eq!(d("-2").compare(&d("1")), DecOrder::Less);
    assert_eq!(d("3.1").compare(&d("3.09")), DecOrder::Greater);
    assert!(d("0.5").lt(&d("0.51")));
    assert!(d("0.5").le(&d("0.50")));
    assert!(d("0.6").gt(&d("0.59")));
    assert!(d("0.0").is_zero());
    assert!(!d("0.01").is_zero());
}

#[test]
fn dec_min_prefers_first_on_ties() {
    let a = d("2.0");
    let b = d("2.00");
    let m = a.min(b);
    assert_eq!(m.scale(), 1);
    assert_eq!(d("3").min(d("1.5")).mantissa(), 15);
}

#[test]
fn dec_abs_keeps_scale() {
    let x = d("-12.30").abs();
    assert_eq!(x.mantissa(), 1230);
    assert_eq!(x.scale(), 2);
    assert_eq!(d("4.5").abs().mantissa(), 45);
}

#[test]
fn dec_order_key_is_whole_part_and_fraction() {
    let unit: u128 = 10_000_000_000_000_000_000_000_000_000;
    assert_eq!(d("1.5").order_key(), (1, unit / 2));
    assert_eq!(d("-1.5").order_key(), (-2, unit / 2));
    assert_eq!(d("-3").order_key(), (-3, 0));
    assert_eq!(d("100.0").order_key(), d("100.00").order_key());
    assert!(d("99.99").order_key() < d("100").order_key());
    assert!(d("-0.1").order_key() < d("0").order_key());
}

fn sample_book() -> L2OrderBook {
    let mut book = L2OrderBook::new("Kraken", "BTC/USD");
    book.update_bid(d("99.0"), d("1.0"));
    book.update_bid(d("98.5"), d("2.0"));
    book.update_ask(d("100.0"), d("1.0"));
    book.update_ask(d("101.0"), d("2.0"));
    book
}

#[test]
fn book_new_is_empty() {
    let book = L2OrderBook::new("Binance", "BTC/USDT");
    assert_eq!(book.exchange, "Binance");
    assert_eq!(book.symbol, "BTC/USDT");
    assert!(book.best_bid().is_none());
    assert!(book.best_ask().is_none());
    assert!(book.mid_price().is_none());
    assert_eq!(book.last_update_id, 0);
    assert_eq!(book.local_timestamp, 0);
}

#[test]
fn book_best_prices() {
    let book = sample_book();
    assert!(book.best_bid().unwrap() == d("99"));
    assert!(book.best_ask().unwrap() == d("100"));
    assert!(book.mid_price().unwrap() == d("99.5"));
}

#[test]
fn book_zero_quantity_removes_level() {
    let mut book = sample_book();
    book.update_ask(d("100.0"), d("0"));
    assert!(book.best_ask().unwrap() == d("101"));
    book.update_ask(d("101"), d("0.000"));
    assert!(book.best_ask().is_none());
    book.update_bid(d("42"), d("0"));
    assert_eq!(book.bid_levels().len(), 2);
}

#[test]
fn book_equal_prices_share_a_level() {
    let mut book = L2OrderBook::new("X", "BTC/USD");
    book.update_bid(d("100.0"), d("1"));
    book.update_bid(d("100.00"), d("3"));
    let levels = book.bid_levels();
    assert_eq!(levels.len(), 1);
    assert_eq!(levels[0].price.scale(), 1);
    assert!(levels[0].quantity == d("3"));
}

#[test]
fn book_levels_come_in_price_order() {
    let mut book = L2OrderBook::new("X", "BTC/USD");
    book.update_ask(d("105"), d("1"));
    book.update_ask(d("101.5"), d("1"));
    book.update_ask(d("103"), d("1"));
    let prices: Vec<Decimal> = book.ask_levels().iter().map(|l| to_decimal(l.price)).collect();
    assert_eq!(
        prices,
        vec![Decimal::from_str("101.5").unwrap(), Decimal::from_str("103").unwrap(), Decimal::from_str("105").unwrap()]
    );
}

#[test]
fn fill_buy_walks_asks_from_lowest() {
    let book = sample_book();
    let (avg, filled) = book.estimate_fill_price(d("2.0"), true);
    assert!(filled == d("2"));
    assert!(avg == d("100.5"));
}

#[test]
fn fill_sell_walks_bids_from_highest() {
    let book = sample_book();
    let (avg, filled) = book.estimate_fill_price(d("3.0"), false);
    assert!(filled == d("3"));
    assert_eq!(to_decimal(avg), Decimal::from_str("99").unwrap() / Decimal::from_str("3").unwrap() + Decimal::from_str("98.5").unwrap() * Decimal::from_str("2").unwrap() / Decimal::from_str("3").unwrap());
}

#[test]
fn fill_stops_when_size_reached() {
    let book = sample_book();
    let (avg, filled) = book.estimate_fill_price(d("0.5"), true);
    assert!(filled == d("0.5"));
    assert!(avg == d("100"));
}

#[test]
fn fill_is_partial_when_book_is_thin() {
    let book = sample_book();
    let (avg, filled) = book.estimate_fill_price(d("10"), true);
    assert!(filled == d("3"));
    assert_eq!(to_decimal(avg), Decimal::from_str("302").unwrap() / Decimal::from_str("3").unwrap());
}

#[test]
fn fill_on_empty_side_is_zero() {
    let book = L2OrderBook::new("X", "BTC/USD");
    let (avg, filled) = book.estimate_fill_price(d("1"), true);
    assert!(avg.is_zero());
    assert!(filled.is_zero());
    assert_eq!(book.try_estimate_fill_price(d("1"), false).map(|(a, f)| (a.is_zero(), f.is_zero())), Some((true, true)));
}

#[test]
fn fill_overflow_is_reported() {
    let mut book = L2OrderBook::new("X", "BTC/USD");
    let huge = Dec::from_i128_with_scale(79228162514264337593543950335, 0).unwrap();
    book.update_ask(huge, huge);
    assert!(book.try_estimate_fill_price(huge, true).is_none());
}

#[test]
fn mid_price_overflow_is_reported() {
    let mut book = L2OrderBook::new("X", "BTC/USD");
    let huge = Dec::from_i128_with_scale(79228162514264337593543950335, 0).unwrap();
    book.update_ask(huge, d("1"));
    book.update_bid(huge, d("1"));
    assert!(book.try_mid_price().is_none());
    let empty = L2OrderBook::new("X", "BTC/USD");
    assert!(matches!(empty.try_mid_price(), Some(None)));
}

#[test]
fn book_clone_keeps_levels() {
    let book = sample_book();
    let copy = book.clone();
    assert_eq!(copy.exchange, "Kraken");
    assert_eq!(copy.bid_levels().len(), 2);
    assert!(copy.best_ask().unwrap() == d("100"));
}

#[test]
fn fill_quantity_is_size_or_depth() {
    let mut b = L2OrderBook::new("X", "BTC/USD");
    b.update_ask(d("100"), d("0.4"));
    b.update_ask(d("101"), d("0.35"));
    b.update_ask(d("102"), d("0.25"));
    let (_, f) = b.estimate_fill_price(d("0.5"), true);
    assert!(f == d("0.5"));
    let (_, f) = b.estimate_fill_price(d("3"), true);
    assert!(f == d("1.00"));
    let (_, f) = b.estimate_fill_price(d("0"), true);
    assert!(f == d("0"));
}
