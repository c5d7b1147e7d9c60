use quantum_arbitrage::arbitrage::Confidence;
use quantum_arbitrage::decimal::Dec;
use quantum_arbitrage::error::Error;
use quantum_arbitrage::exchanges::{classify_response, is_supported_quote, select_tickers, FetchStep, TickerFacts, Venue};
use quantum_arbitrage::json::{parse, JsonNumber, JsonValue};
use quantum_arbitrage::retry::{FetchRetry, GiveUp};
use quantum_arbitrage::market::{BinanceExchange, KrakenExchange, MarketEvent};
use quantum_arbitrage::supervisor::{Backoff, FeedAction, FeedEvent, FeedLoop, FeedPhase, TaskStatus};
use quantum_arbitrage::text::{contains, parse_u64, text_eq};

fn d(s: &str) -> Dec {
    Dec::parse(s).expect("decimal text")
}

#[test]
fn binance_new_and_url() {
    let b = BinanceExchange::new();
    assert_eq!(b.name(), "Binance");
    assert!(b.is_healthy());
    assert_eq!(b.stream_url("BTCUSDT", "depth20@100ms"), "wss://stream.binance.com:9443/ws/btcusdt@depth20@100ms");
}

#[test]
fn kraken_new() {
    let k = KrakenExchange::new();
    assert_eq!(k.name(), "Kraken");
    assert_eq!(k.base_url(), "wss://ws.kraken.com/v2");
    assert!(k.is_healthy());
}

#[test]
fn binance_depth_message() {
    let b = BinanceExchange::new();
    let text = r#"{"lastUpdateId":1,"bids":[["100.5","2.0"],["100.0","0"]],"asks":[["101.0","1.5"],["102","3"]]}"#;
    match b.parse_message_at(text, "depth20@100ms", 1234) {
        Ok(MarketEvent::OrderBookUpdate(book)) => {
            assert_eq!(book.exchange, "Binance");
            assert_eq!(book.symbol, "BTC/USDT");
            assert_eq!(book.local_timestamp, 1234);
            assert_eq!(book.bid_levels().len(), 1);
            assert!(book.best_bid().unwrap() == d("100.5"));
            assert!(book.best_ask().unwrap() == d("101"));
            assert_eq!(book.ask_levels().len(), 2);
        }
        other => panic!("unexpected {:?}", other),
    }
}

#[test]
fn binance_trade_message() {
    let b = BinanceExchange::new();
    let text = r#"{"e":"trade","p":"65000.10","q":"0.002","m":true,"T":1700000000000}"#;
    match b.parse_message(text, "trade") {
        Ok(MarketEvent::Trade(t)) => {
            assert_eq!(t.exchange, "Binance");
            assert!(t.price == d("65000.1"));
            assert!(t.quantity == d("0.002"));
            assert!(t.is_buyer_maker);
            assert_eq!(t.timestamp, 1700000000000);
        }
        other => panic!("unexpected {:?}", other),
    }
}

#[test]
fn binance_unknown_stream_and_bad_json() {
    let b = BinanceExchange::new();
    assert!(matches!(b.parse_message_at("{}", "kline_1m", 0), Err(Error::MalformedResponse(ref m)) if m == "Unknown Binance stream"));
    assert!(matches!(b.parse_message("{}", "kline_1m"), Err(Error::MalformedResponse(ref m)) if m == "Unknown Binance stream"));
    assert!(matches!(b.parse_message_at("not json", "trade", 0), Err(Error::Json(_))));
    assert!(matches!(b.parse_message("not json", "depth20@100ms"), Err(Error::Json(_))));
}

#[test]
fn binance_depth_book_is_stamped_now() {
    let b = BinanceExchange::new();
    match b.parse_message(r#"{"bids":[["100","1"]],"asks":[["101","2"]]}"#, "depth20@100ms") {
        Ok(MarketEvent::OrderBookUpdate(book)) => {
            assert!(book.local_timestamp > 1_600_000_000_000);
            assert!(book.best_bid().unwrap() == d("100"));
            assert!(book.best_ask().unwrap() == d("101"));
        }
        other => panic!("unexpected {:?}", other),
    }
}

#[test]
fn binance_malformed_levels_are_caught() {
    let b = BinanceExchange::new();
    assert!(b.try_parse_message_at(r#"{"bids":[[100.5,"2"]]}"#, "depth20@100ms", 0).is_none());
    assert!(b.try_parse_message_at(r#"{"bids":[["x","2"]]}"#, "depth20@100ms", 0).is_none());
    assert!(b.try_parse_message_at(r#"{"p":"1","q":"1","m":true}"#, "trade", 0).is_none());
    assert!(matches!(b.try_parse_message_at(r#"{"bids":"none"}"#, "depth20@100ms", 0), Some(Ok(MarketEvent::OrderBookUpdate(_)))));
    assert!(matches!(b.try_parse_message_at("[", "trade", 0), Some(Err(Error::Json(_)))));
}

#[test]
fn kraken_book_update() {
    let k = KrakenExchange::new();
    let text = r#"{"channel":"book","type":"update","data":[{"symbol":"BTC/USD","bids":[{"price":"64000.1","qty":"0.5"},{"price":"63999","qty":"0"}],"asks":[{"price":"64001.2","qty":"1.25"},{"price":7,"qty":"1"}]}]}"#;
    match k.parse_message(text) {
        Ok(MarketEvent::OrderBookUpdate(book)) => {
            assert_eq!(book.exchange, "Kraken");
            assert_eq!(book.symbol, "BTC/USD");
            assert_eq!(book.local_timestamp, 0);
            assert_eq!(book.bid_levels().len(), 1);
            assert!(book.best_bid().unwrap() == d("64000.1"));
            assert_eq!(book.ask_levels().len(), 2);
            assert!(book.best_ask().unwrap() == d("0"));
        }
        other => panic!("unexpected {:?}", other),
    }
}

#[test]
fn kraken_other_messages() {
    let k = KrakenExchange::new();
    assert!(matches!(k.parse_message(r#"{"channel":"book","type":"snapshot","data":[]}"#), Err(Error::MalformedResponse(ref m)) if m == "Unhandled Kraken msg"));
    assert!(matches!(k.parse_message(r#"{"channel":"heartbeat"}"#), Err(Error::MalformedResponse(ref m)) if m == "Unhandled Kraken msg"));
    assert!(matches!(k.parse_message("{"), Err(Error::Json(_))));
    match k.parse_message(r#"{"channel":"book","type":"update"}"#) {
        Ok(MarketEvent::OrderBookUpdate(book)) => assert!(book.best_bid().is_none()),
        other => panic!("unexpected {:?}", other),
    }
}

#[test]
fn json_navigation() {
    let v = parse(r#"{"a":[1,-2,3.5,"x",true,null],"b":{"c":"d"}}"#).unwrap();
    let a = v.get("a");
    assert_eq!(a.as_array().map(|x| x.len()), Some(6));
    assert_eq!(a.at(0).as_i64(), Some(1));
    assert_eq!(a.at(1).as_i64(), Some(-2));
    assert!(matches!(a.at(2), JsonValue::Number(JsonNumber::Float)));
    assert_eq!(a.at(3).as_str(), Some("x"));
    assert_eq!(a.at(4).as_bool(), Some(true));
    assert!(matches!(a.at(5), JsonValue::Null));
    assert!(matches!(a.at(6), JsonValue::Null));
    assert!(v.get("b").get("c").is_text("d"));
    assert!(matches!(v.get("zz"), JsonValue::Null));
    let big = parse("18446744073709551615").unwrap();
    assert_eq!(big.as_i64(), None);
}

#[test]
fn backoff_doubles_to_sixty_and_resets() {
    let mut b = Backoff::new();
    let mut seen = Vec::new();
    for _ in 0..8 {
        seen.push(b.current_secs());
        b.advance();
    }
    assert_eq!(seen, vec![1, 2, 4, 8, 16, 32, 60, 60]);
    b.reset();
    assert_eq!(b.current_secs(), 1);
}

#[test]
fn feed_waits_longer_after_each_failure() {
    let mut feed = FeedLoop::new();
    assert_eq!(feed.phase(), FeedPhase::Connecting);
    let mut waits = Vec::new();
    for _ in 0..8 {
        match feed.step(FeedEvent::ConnectFailed) {
            FeedAction::Wait(secs) => waits.push(secs),
            other => panic!("expected a wait, got {:?}", other),
        }
        assert_eq!(feed.phase(), FeedPhase::Waiting);
        assert_eq!(feed.step(FeedEvent::WaitOver), FeedAction::Connect);
        assert_eq!(feed.phase(), FeedPhase::Connecting);
    }
    assert_eq!(waits, vec![1, 2, 4, 8, 16, 32, 60, 60]);
}

#[test]
fn feed_connection_resets_the_wait() {
    let mut feed = FeedLoop::new();
    feed.step(FeedEvent::ConnectFailed);
    feed.step(FeedEvent::WaitOver);
    feed.step(FeedEvent::Disconnected);
    feed.step(FeedEvent::WaitOver);
    assert_eq!(feed.step(FeedEvent::Connected), FeedAction::Listen);
    assert_eq!(feed.phase(), FeedPhase::Listening);
    assert_eq!(feed.step(FeedEvent::Disconnected), FeedAction::Wait(1));
}

#[test]
fn feed_stops_for_good_when_nobody_listens() {
    let mut feed = FeedLoop::new();
    feed.step(FeedEvent::Connected);
    assert_eq!(feed.step(FeedEvent::DeliveryFailed), FeedAction::Stop);
    assert_eq!(feed.phase(), FeedPhase::Stopped);
    for ev in [FeedEvent::Connected, FeedEvent::ConnectFailed, FeedEvent::Disconnected, FeedEvent::WaitOver] {
        assert_eq!(feed.step(ev), FeedAction::Stop);
        assert_eq!(feed.phase(), FeedPhase::Stopped);
    }
}

#[test]
fn task_status_variants() {
    let s = TaskStatus::Crashed("boom".to_string());
    assert!(matches!(s, TaskStatus::Crashed(ref m) if m == "boom"));
    assert!(matches!(TaskStatus::Starting, TaskStatus::Starting));
    assert!(matches!(TaskStatus::Running, TaskStatus::Running));
    assert!(matches!(TaskStatus::Restarting, TaskStatus::Restarting));
}

#[test]
fn fetch_steps() {
    assert_eq!(classify_response(0, Some(200), None), FetchStep::Success);
    assert_eq!(classify_response(0, Some(204), None), FetchStep::Success);
    assert_eq!(classify_response(1, Some(429), Some("7")), FetchStep::RateLimited { retry_after_secs: 7 });
    assert_eq!(classify_response(2, Some(429), None), FetchStep::RateLimited { retry_after_secs: 12 });
    assert_eq!(classify_response(0, Some(429), Some("soon")), FetchStep::RateLimited { retry_after_secs: 4 });
    assert_eq!(classify_response(1, Some(503), None), FetchStep::UpstreamError { status: 503, delay_ms: 1600 });
    assert_eq!(classify_response(0, Some(302), None), FetchStep::UpstreamError { status: 302, delay_ms: 800 });
    assert_eq!(classify_response(2, None, None), FetchStep::NetworkError { delay_ms: 2400 });
}

#[test]
fn supported_quotes() {
    assert!(is_supported_quote("usd"));
    assert!(is_supported_quote("USDT"));
    assert!(is_supported_quote("usdc"));
    assert!(!is_supported_quote("EUR"));
    assert!(!is_supported_quote(""));
    assert!(!is_supported_quote("USDTX"));
}

fn ticker(target: &str, name: &str, price_ok: bool, volume_ok: bool) -> TickerFacts {
    TickerFacts { target: target.to_string(), exchange_name: name.to_string(), price_ok, volume_ok }
}

#[test]
fn ticker_selection_keeps_first_qualifying_per_exchange() {
    let ts = vec![
        ticker("EUR", "Binance", true, true),
        ticker("USDT", "Binance", true, false),
        ticker("USDT", "Binance", true, true),
        ticker("usd", "Kraken", false, true),
        ticker("USDC", "Binance", true, true),
        ticker("USD", "Kraken", true, true),
        ticker("USD", "Coinbase", true, true),
    ];
    assert_eq!(select_tickers(&ts), vec![2, 5, 6]);
    assert!(select_tickers(&Vec::new()).is_empty());
}

#[test]
fn venues_and_transfer_times() {
    assert_eq!(Venue::of_exchange("Binance US"), Venue::Binance);
    assert_eq!(Venue::of_exchange("COINBASE Exchange"), Venue::Coinbase);
    assert_eq!(Venue::of_exchange("Kraken"), Venue::Kraken);
    assert_eq!(Venue::of_exchange("OKX"), Venue::Okx);
    assert_eq!(Venue::of_exchange("Bybit"), Venue::Bybit);
    assert_eq!(Venue::of_exchange("Bitfinex"), Venue::Bitfinex);
    assert_eq!(Venue::of_exchange("KuCoin"), Venue::Kucoin);
    assert_eq!(Venue::of_exchange("Gemini"), Venue::Other);
    assert_eq!(Venue::Binance.transfer_minutes(), 25);
    assert_eq!(Venue::Coinbase.transfer_minutes(), 20);
    assert_eq!(Venue::Kraken.transfer_minutes(), 35);
    assert_eq!(Venue::Other.transfer_minutes(), 50);
}

#[test]
fn confidence_labels() {
    assert_eq!(Confidence::High.label(), "HIGH");
    assert_eq!(Confidence::Medium.label(), "MEDIUM");
    assert_eq!(Confidence::Low.label(), "LOW");
    assert_eq!(Confidence::Risky.label(), "RISKY");
}

#[test]
fn text_helpers() {
    assert!(text_eq("abc", "abc"));
    assert!(!text_eq("abc", "abd"));
    assert!(contains("binance us", "binance"));
    assert!(contains("abc", ""));
    assert!(!contains("ab", "abc"));
    assert!(contains("xxokxx", "okx"));
}

#[test]
fn retry_stops_at_first_success() {
    let mut r = FetchRetry::new(3);
    assert_eq!(r.next_attempt(), Some(0));
    r.record(classify_response(0, Some(500), None));
    assert_eq!(r.next_attempt(), Some(1));
    r.record(classify_response(1, Some(200), None));
    assert_eq!(r.next_attempt(), None);
}

#[test]
fn retry_sends_first_attempt_and_n_retries() {
    for n in 0..5u32 {
        let mut r = FetchRetry::new(n);
        let mut sent = 0;
        while let Some(attempt) = r.next_attempt() {
            assert_eq!(attempt, sent);
            r.record(classify_response(attempt, Some(503), None));
            sent += 1;
        }
        assert_eq!(sent, n + 1);
        assert_eq!(r.give_up(), GiveUp::UpstreamStatus { status: 503 });
    }
}

#[test]
fn retry_reports_the_last_failure() {
    let mut r = FetchRetry::new(2);
    r.record(classify_response(0, Some(503), None));
    r.record(classify_response(1, None, None));
    r.record(classify_response(2, Some(429), Some("7")));
    assert_eq!(r.next_attempt(), None);
    assert_eq!(r.give_up(), GiveUp::RateLimited { retry_after_secs: 7 });
    let mut r = FetchRetry::new(1);
    r.record(classify_response(0, Some(429), None));
    r.record(classify_response(1, Some(502), None));
    assert_eq!(r.give_up(), GiveUp::UpstreamStatus { status: 502 });
    let mut r = FetchRetry::new(0);
    r.record(classify_response(0, None, None));
    assert_eq!(r.next_attempt(), None);
    assert_eq!(r.give_up(), GiveUp::Network);
}

#[test]
fn retry_without_any_attempt_is_exhausted() {
    let r = FetchRetry::new(0);
    assert_eq!(r.next_attempt(), Some(0));
    assert_eq!(r.give_up(), GiveUp::RetriesExhausted);
}

#[test]
fn parse_u64_agrees_with_std() {
    for t in [
        "0", "7", "+7", "00012", "18446744073709551615", "18446744073709551616", "99999999999999999999", "", "+",
        "-1", "-0", "1.5", " 1", "1 ", "++1", "12a", "١٢", "+18446744073709551615",
    ] {
        assert_eq!(parse_u64(t), t.parse::<u64>().ok(), "text {:?}", t);
    }
    assert_eq!(parse_u64("42"), Some(42));
    assert_eq!(classify_response(0, Some(429), Some("+12")), FetchStep::RateLimited { retry_after_secs: 12 });
    assert_eq!(classify_response(1, Some(429), Some("soon")), FetchStep::RateLimited { retry_after_secs: 8 });
}

#[test]
fn binance_try_parse_message() {
    let b = BinanceExchange::new();
    assert!(b.try_parse_message(r#"{"bids":[["x","2"]]}"#, "depth20@100ms").is_none());
    assert!(b.try_parse_message(r#"{"p":"1","q":"1","m":true}"#, "trade").is_none());
    match b.try_parse_message(r#"{"bids":[["100.5","1.0"],["100.0","0"]],"asks":[["101.0","2"]]}"#, "depth20@100ms") {
        Some(Ok(MarketEvent::OrderBookUpdate(book))) => {
            assert_eq!(book.exchange, "Binance");
            assert_eq!(book.symbol, "BTC/USDT");
            assert!(book.best_bid().unwrap() == d("100.5"));
            assert!(book.best_ask().unwrap() == d("101"));
            assert_eq!(book.bid_levels().len(), 1);
            assert!(book.local_timestamp > 1_600_000_000_000);
        }
        other => panic!("unexpected {:?}", other),
    }
    assert!(matches!(b.try_parse_message("{}", "kline_1m"), Some(Err(Error::MalformedResponse(ref m))) if m == "Unknown Binance stream"));
}

#[test]
fn clock_reads_milliseconds_since_epoch() {
    let t = quantum_arbitrage::clock::now_millis().expect("clock after 1970");
    assert!(t > 1_600_000_000_000);
}
