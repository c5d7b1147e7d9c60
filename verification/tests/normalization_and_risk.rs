use quantum_arbitrage::decimal::Dec;
use quantum_arbitrage::normalization::{AssetMapper, NormalizationEngine, ParityState};
use quantum_arbitrage::risk::RiskAssessor;
use quantum_arbitrage::scanner::ArbOpportunity;
use rust_decimal::Decimal;
use std::str::FromStr;

fn d(s: &str) -> Dec {
    Dec::parse(s).expect("decimal text")
}

fn to_decimal(x: Dec) -> Decimal {
    Decimal::from_i128_with_scale(x.mantissa(), x.scale())
}

#[test]
fn parity_defaults_to_one() {
    let p = ParityState::default();
    assert_eq!((p.usdt_usd.mantissa(), p.usdt_usd.scale()), (10, 1));
    assert!(p.usdc_usd == d("1"));
    assert!(p.busd_usd == d("1"));
    let engine = NormalizationEngine::new();
    assert!(engine.parity_state().usdt_usd == d("1.0"));
}

#[test]
fn canonical_price_at_par() {
    let engine = NormalizationEngine::new();
    assert_eq!(to_decimal(engine.to_canonical(d("65000.5"), "USDT")), Decimal::from_str("65000.50").unwrap());
    assert_eq!(engine.to_canonical(d("65000.5"), "USD").scale(), 1);
    assert!(engine.to_canonical(d("7"), "EUR") == d("7"));
}

#[test]
fn canonical_price_uses_updated_parity() {
    let mut engine = NormalizationEngine::new();
    engine.update_parity("USDT", d("0.999"));
    engine.update_parity("USDC", d("1.001"));
    engine.update_parity("BUSD", d("0.99"));
    engine.update_parity("DAI", d("5"));
    assert_eq!(to_decimal(engine.to_canonical(d("100"), "USDT")), Decimal::from_str("99.9").unwrap());
    assert_eq!(to_decimal(engine.to_canonical(d("100"), "USDC")), Decimal::from_str("100.1").unwrap());
    assert_eq!(to_decimal(engine.to_canonical(d("100"), "BUSD")), Decimal::from_str("99").unwrap());
    assert!(engine.to_canonical(d("100"), "DAI") == d("100"));
    assert!(engine.to_canonical(d("100"), "USD") == d("100"));
    assert!(engine.to_canonical(d("100"), "usdt") == d("100"));
}

#[test]
fn canonical_price_overflow_is_reported() {
    let mut engine = NormalizationEngine::new();
    engine.update_parity("USDT", d("10"));
    let huge = Dec::from_i128_with_scale(79228162514264337593543950335, 0).unwrap();
    assert!(engine.try_to_canonical(huge, "USDT").is_none());
    assert!(engine.try_to_canonical(huge, "USD").is_some());
}

#[test]
fn no_depeg_at_par() {
    let engine = NormalizationEngine::new();
    assert!(engine.check_depeg(d("0.01")).is_empty());
}

#[test]
fn depeg_alerts_in_order() {
    let mut engine = NormalizationEngine::new();
    engine.update_parity("USDT", d("0.97"));
    assert_eq!(engine.check_depeg(d("0.02")), vec!["USDT".to_string()]);
    engine.update_parity("USDC", d("1.05"));
    engine.update_parity("BUSD", d("0.5"));
    assert_eq!(engine.check_depeg(d("0.02")), vec!["USDT".to_string(), "USDC".to_string(), "BUSD".to_string()]);
    assert_eq!(engine.check_depeg(d("0.03")), vec!["USDC".to_string(), "BUSD".to_string()]);
    assert_eq!(engine.check_depeg(d("0.05")), vec!["BUSD".to_string()]);
    assert!(engine.check_depeg(d("0.5")).is_empty());
}

#[test]
fn depeg_reports_every_stablecoin() {
    let mut engine = NormalizationEngine::new();
    engine.update_parity("USDT", d("0.97"));
    engine.update_parity("BUSD", d("0.9"));
    assert_eq!(engine.check_depeg(d("0.02")), vec!["USDT".to_string(), "BUSD".to_string()]);
    assert_eq!(engine.check_depeg(d("0.03")), vec!["BUSD".to_string()]);
    assert_eq!(engine.try_check_depeg(d("0.02")), Some(vec!["USDT".to_string(), "BUSD".to_string()]));
}

#[test]
fn asset_mapper_resolves_known_symbols() {
    let m = AssetMapper::new();
    assert_eq!(m.resolve("BTCUSDT"), Some(("BTC".to_string(), "USDT".to_string())));
    assert_eq!(m.resolve("BTC/USD"), Some(("BTC".to_string(), "USD".to_string())));
    assert_eq!(m.resolve("BTC-USD"), Some(("BTC".to_string(), "USD".to_string())));
    assert_eq!(m.resolve("BTC/USDT"), None);
    assert_eq!(m.resolve("btcusdt"), None);
}

#[test]
fn risk_defaults() {
    let r = RiskAssessor::default();
    assert!(r.max_notional_usd == d("10000"));
    assert!(r.min_net_pct == d("0.05"));
    assert!(r.max_volatility == d("0.02"));
}

#[test]
fn risk_filters_thin_and_large_trades() {
    let r = RiskAssessor::default();
    assert_eq!(r.try_is_acceptable_terms(d("0.04"), d("0.1"), d("65000")), Some(false));
    assert_eq!(r.try_is_acceptable_terms(d("0.05"), d("0.1"), d("65000")), Some(true));
    assert_eq!(r.try_is_acceptable_terms(d("1"), d("1"), d("10000")), Some(true));
    assert_eq!(r.try_is_acceptable_terms(d("1"), d("1"), d("10000.01")), Some(false));
    let huge = Dec::from_i128_with_scale(79228162514264337593543950335, 0).unwrap();
    assert_eq!(r.try_is_acceptable_terms(d("1"), huge, huge), None);
    assert_eq!(r.try_is_acceptable_terms(d("0"), huge, huge), Some(false));
}

fn opp(net_pct: &str, size: &str, buy: &str) -> ArbOpportunity {
    ArbOpportunity {
        buy_exchange: "Kraken".to_string(),
        sell_exchange: "Binance".to_string(),
        symbol: "BTC/USD".to_string(),
        size_btc: d(size),
        buy_price: d(buy),
        sell_price: d(buy),
        gross_spread_pct: d("0"),
        net_after_all_pct: d(net_pct),
        net_profit_usd: d("0"),
        net_pct: d(net_pct),
        confidence: "HIGH".to_string(),
        notes: "L2 Depth Validated".to_string(),
        timestamp: 0,
    }
}

#[test]
fn risk_judges_whole_opportunities() {
    let r = RiskAssessor::default();
    assert!(r.is_acceptable(&opp("0.06", "0.1", "65000")));
    assert!(!r.is_acceptable(&opp("0.049", "0.1", "65000")));
    assert!(!r.is_acceptable(&opp("0.5", "1", "65000")));
    assert_eq!(r.try_is_acceptable(&opp("0.5", "0.1", "65000")), Some(true));
    assert_eq!(r.try_is_acceptable(&opp("0.01", "0.1", "65000")), Some(false));
    let huge = "79228162514264337593543950335";
    assert_eq!(r.try_is_acceptable(&opp("1", huge, huge)), None);
}
