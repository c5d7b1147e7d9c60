//! Quote-currency normalisation: stablecoin parities and the mapping of
//! exchange symbols to base and quote assets.

use crate::decimal::Dec;
use crate::text::text_eq;
use vstd::hash_map::StringHashMap;
use vstd::prelude::*;

verus! {

/// Value in USD of one unit of each tracked stablecoin.
#[derive(Clone, Copy, Debug)]
pub struct ParityState {
    pub usdt_usd: Dec,
    pub usdc_usd: Dec,
    pub busd_usd: Dec,
}

/// 1.0 (mantissa 10, scale 1).
pub open spec fn one_point_zero() -> Dec {
    Dec::lit(10, 1)
}

impl ParityState {
    /// Every stablecoin at par.
    pub open spec fn at_par() -> ParityState {
        ParityState { usdt_usd: one_point_zero(), usdc_usd: one_point_zero(), busd_usd: one_point_zero() }
    }
}

impl Default for ParityState {
    fn default() -> (r: ParityState)
        ensures
            r == ParityState::at_par(),
    {
        ParityState { usdt_usd: Dec::new(10, 1), usdc_usd: Dec::new(10, 1), busd_usd: Dec::new(10, 1) }
    }
}

/// The USD rate by which prices quoted in `quote` are multiplied: the
/// parity of USDT, USDC or BUSD; `None` for USD and any other quote, whose
/// prices are taken as they are.
pub open spec fn parity_rate(p: ParityState, quote: Seq<char>) -> Option<Dec> {
    if quote == "USDT"@ {
        Some(p.usdt_usd)
    } else if quote == "USDC"@ {
        Some(p.usdc_usd)
    } else if quote == "BUSD"@ {
        Some(p.busd_usd)
    } else {
        None
    }
}

/// The parities after setting that of `asset` to `rate`; other assets are
/// ignored.
pub open spec fn parity_after_update(p: ParityState, asset: Seq<char>, rate: Dec) -> ParityState {
    if asset == "USDT"@ {
        ParityState { usdt_usd: rate, ..p }
    } else if asset == "USDC"@ {
        ParityState { usdc_usd: rate, ..p }
    } else if asset == "BUSD"@ {
        ParityState { busd_usd: rate, ..p }
    } else {
        p
    }
}

/// `price` in USD: multiplied by the parity of its quote currency;
/// `None` where the product overflows.
pub open spec fn canonical_price(p: ParityState, price: Dec, quote: Seq<char>) -> Option<Dec> {
    match parity_rate(p, quote) {
        Some(rate) => crate::decimal::decimal_mul(price, rate),
        None => Some(price),
    }
}

/// Whether a parity is further than `threshold` from 1.0:
/// `|rate - 1.0| > threshold`; `None` where the subtraction overflows.
pub open spec fn depegged(rate: Dec, threshold: Dec) -> Option<bool> {
    match crate::decimal::decimal_sub(rate, one_point_zero()) {
        None => None,
        Some(d) => Some(d.abs_spec().units() > threshold.units()),
    }
}

/// The depeg alerts: "USDT", "USDC" then "BUSD", each when that parity is
/// further than `threshold` from 1.0; `None` where a subtraction overflows.
pub open spec fn depeg_alerts(p: ParityState, threshold: Dec) -> Option<Seq<Seq<char>>> {
    match (depegged(p.usdt_usd, threshold), depegged(p.usdc_usd, threshold), depegged(p.busd_usd, threshold)) {
        (Some(a), Some(b), Some(c)) => Some(
            (if a { seq!["USDT"@] } else { Seq::empty() }) + (if b { seq!["USDC"@] } else { Seq::empty() }) + (
            if c { seq!["BUSD"@] } else { Seq::empty() }),
        ),
        _ => None,
    }
}

/// Normalises prices across quote currencies (USD, USDT, USDC, BUSD).
pub struct NormalizationEngine {
    parity: ParityState,
}

impl NormalizationEngine {
    pub closed spec fn parity(&self) -> ParityState {
        self.parity
    }

    /// An engine with every stablecoin at par.
    pub fn new() -> (r: NormalizationEngine)
        ensures
            r.parity() == ParityState::at_par(),
    {
        NormalizationEngine { parity: ParityState::default() }
    }

    /// An engine with the given parities.
    pub fn with_parity(parity: ParityState) -> (r: NormalizationEngine)
        ensures
            r.parity() == parity,
    {
        NormalizationEngine { parity }
    }

    /// The current parities.
    pub fn parity_state(&self) -> (r: ParityState)
        ensures
            r == self.parity(),
    {
        self.parity
    }

    /// Updates a parity rate (e.g. USDT/USD); an asset other than USDT,
    /// USDC and BUSD leaves the parities unchanged.
    pub fn update_parity(&mut self, asset: &str, rate: Dec)
        ensures
            final(self).parity() == parity_after_update(old(self).parity(), asset@, rate),
    {
        proof {
            reveal_strlit("USDT");
            reveal_strlit("USDC");
            reveal_strlit("BUSD");
        }
        if text_eq(asset, "USDT") {
            self.parity.usdt_usd = rate;
        } else if text_eq(asset, "USDC") {
            self.parity.usdc_usd = rate;
        } else if text_eq(asset, "BUSD") {
            self.parity.busd_usd = rate;
        }
    }

    /// Converts a price in `quote` to USD; `None` where the product
    /// overflows.
    pub fn try_to_canonical(&self, price: Dec, quote: &str) -> (r: Option<Dec>)
        ensures
            r == canonical_price(self.parity(), price, quote@),
    {
        match self.canonical_checked(price, quote) {
            None => None,
            Some(_) => Some(self.to_canonical(price, quote)),
        }
    }

    fn canonical_checked(&self, price: Dec, quote: &str) -> (r: Option<Dec>)
        ensures
            r == canonical_price(self.parity(), price, quote@),
    {
        proof {
            reveal_strlit("USDT");
            reveal_strlit("USDC");
            reveal_strlit("BUSD");
        }
        if text_eq(quote, "USDT") {
            price.checked_mul(&self.parity.usdt_usd)
        } else if text_eq(quote, "USDC") {
            price.checked_mul(&self.parity.usdc_usd)
        } else if text_eq(quote, "BUSD") {
            price.checked_mul(&self.parity.busd_usd)
        } else {
            Some(price)
        }
    }

    /// Converts a price in a given quote currency to canonical USD.
    pub fn to_canonical(&self, price: Dec, quote: &str) -> (r: Dec)
        requires
            canonical_price(self.parity(), price, quote@) is Some,
        ensures
            Some(r) == canonical_price(self.parity(), price, quote@),
    {
        match self.canonical_checked(price, quote) {
            Some(v) => v,
            None => price,
        }
    }

    /// The stablecoins whose parity is further than `threshold` from 1.0;
    /// `None` where a subtraction overflows.
    pub fn try_check_depeg(&self, threshold: Dec) -> (r: Option<Vec<String>>)
        ensures
            match r {
                Some(v) => depeg_alerts(self.parity(), threshold) == Some(v@.map_values(|s: String| s@)),
                None => depeg_alerts(self.parity(), threshold) is None,
            },
    {
        match self.depeg_checked(threshold) {
            None => None,
            Some(_) => Some(self.check_depeg(threshold)),
        }
    }

    fn depeg_checked(&self, threshold: Dec) -> (r: Option<Vec<String>>)
        ensures
            match r {
                Some(v) => depeg_alerts(self.parity(), threshold) == Some(v@.map_values(|s: String| s@)),
                None => depeg_alerts(self.parity(), threshold) is None,
            },
    {
        let one = Dec::new(10, 1);
        let du = match self.parity.usdt_usd.checked_sub(&one) {
            None => return None,
            Some(d) => d,
        };
        let dc = match self.parity.usdc_usd.checked_sub(&one) {
            None => return None,
            Some(d) => d,
        };
        let db = match self.parity.busd_usd.checked_sub(&one) {
            None => return None,
            Some(d) => d,
        };
        let mut alerts: Vec<String> = Vec::new();
        if du.abs().gt(&threshold) {
            alerts.push("USDT".to_string());
        }
        if dc.abs().gt(&threshold) {
            alerts.push("USDC".to_string());
        }
        if db.abs().gt(&threshold) {
            alerts.push("BUSD".to_string());
        }
        proof {
            let expected = depeg_alerts(self.parity(), threshold)->0;
            assert(alerts@.map_values(|s: String| s@) =~= expected);
        }
        Some(alerts)
    }

    /// Returns the parity threshold alerts if any stablecoin depegs.
    pub fn check_depeg(&self, threshold: Dec) -> (r: Vec<String>)
        requires
            depeg_alerts(self.parity(), threshold) is Some,
        ensures
            depeg_alerts(self.parity(), threshold) == Some(r@.map_values(|s: String| s@)),
    {
        match self.depeg_checked(threshold) {
            Some(v) => v,
            None => Vec::new(),
        }
    }
}

/// The symbols the mapper knows, with their base and quote assets.
pub open spec fn standard_symbols() -> Map<Seq<char>, (Seq<char>, Seq<char>)> {
    map![
        "BTCUSDT"@ => ("BTC"@, "USDT"@),
        "BTC/USD"@ => ("BTC"@, "USD"@),
        "BTC-USD"@ => ("BTC"@, "USD"@),
    ]
}

/// Maps exchange symbols to (base, quote) assets.
pub struct AssetMapper {
    mapping: StringHashMap<(String, String)>,
}

impl AssetMapper {
    /// The mapping, with each asset by its text.
    pub closed spec fn symbols(&self) -> Map<Seq<char>, (Seq<char>, Seq<char>)> {
        Map::new(
            |k: Seq<char>| self.mapping@.contains_key(k),
            |k: Seq<char>| (self.mapping@[k].0@, self.mapping@[k].1@),
        )
    }

    /// A mapper for BTCUSDT, BTC/USD and BTC-USD.
    pub fn new() -> (r: AssetMapper)
        ensures
            r.symbols() == standard_symbols(),
    {
        let mut mapping: StringHashMap<(String, String)> = StringHashMap::new();
        mapping.insert("BTCUSDT".to_string(), ("BTC".to_string(), "USDT".to_string()));
        mapping.insert("BTC/USD".to_string(), ("BTC".to_string(), "USD".to_string()));
        mapping.insert("BTC-USD".to_string(), ("BTC".to_string(), "USD".to_string()));
        let r = AssetMapper { mapping };
        proof {
            assert(r.symbols() =~= standard_symbols());
        }
        r
    }

    /// The base and quote assets of `symbol`, if it is known.
    pub fn resolve(&self, symbol: &str) -> (r: Option<(String, String)>)
        ensures
            match r {
                Some((base, quote)) => self.symbols().contains_key(symbol@)
                    && self.symbols()[symbol@] == (base@, quote@),
                None => !self.symbols().contains_key(symbol@),
            },
    {
        match self.mapping.get(symbol) {
            Some(pair) => Some((pair.0.clone(), pair.1.clone())),
            None => None,
        }
    }
}

/// Reading after writing a parity: once the parity of USDT, USDC or BUSD
/// is set to `rate`, prices quoted in that asset convert at `rate`, and the
/// other assets' parities are as they were; prices quoted in USD, or in an
/// unknown currency, are taken as they are.
pub proof fn lemma_parity_update_then_convert(p: ParityState, asset: Seq<char>, rate: Dec, price: Dec, quote: Seq<char>)
    ensures
        (asset == "USDT"@ || asset == "USDC"@ || asset == "BUSD"@) ==> canonical_price(
            parity_after_update(p, asset, rate),
            price,
            asset,
        ) == crate::decimal::decimal_mul(price, rate),
        quote != asset ==> parity_rate(parity_after_update(p, asset, rate), quote) == parity_rate(p, quote),
        (quote != "USDT"@ && quote != "USDC"@ && quote != "BUSD"@) ==> canonical_price(p, price, quote) == Some(price),
{
    reveal_strlit("USDT");
    reveal_strlit("USDC");
    reveal_strlit("BUSD");
}

} // verus!
