//! Cross-venue arbitrage detection over level-2 order books, with
//! fixed-point decimal arithmetic, quote-currency normalisation, risk
//! filters and the decision logic of the exchange feeds.

pub mod decimal;
pub mod book;
pub mod text;
pub mod normalization;
pub mod risk;
pub mod clock;
pub mod scanner;
pub mod error;
pub mod json;
pub mod market;
pub mod supervisor;
pub mod exchanges;
pub mod retry;
pub mod arbitrage;
pub mod history;
