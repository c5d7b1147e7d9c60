//! Risk filters for detected opportunities.

use crate::decimal::Dec;
use crate::scanner::ArbOpportunity;
use vstd::prelude::*;

verus! {

/// Bounds that an opportunity must respect to be acted on.
#[derive(Clone, Copy, Debug)]
pub struct RiskAssessor {
    pub max_notional_usd: Dec,
    pub min_net_pct: Dec,
    pub max_volatility: Dec,
}

impl RiskAssessor {
    /// The default bounds: notional at most 10000.0 USD, net return at
    /// least 0.05%, hourly volatility at most 0.02.
    pub open spec fn standard() -> RiskAssessor {
        RiskAssessor {
            max_notional_usd: Dec::lit(100000, 1),
            min_net_pct: Dec::lit(5, 2),
            max_volatility: Dec::lit(2, 2),
        }
    }

    /// Whether an opportunity with this net return, size and buy price is
    /// acceptable: the net return is at least the minimum and the notional
    /// `size * price` at most the maximum; `None` where the product
    /// overflows.
    pub open spec fn acceptable(self, net_pct: Dec, size_btc: Dec, buy_price: Dec) -> Option<bool> {
        if net_pct.units() < self.min_net_pct.units() {
            Some(false)
        } else {
            match crate::decimal::decimal_mul(size_btc, buy_price) {
                None => None,
                Some(n) => Some(n.units() <= self.max_notional_usd.units()),
            }
        }
    }

    /// Whether an opportunity is within the bounds, `None` where its
    /// notional overflows.
    pub fn try_is_acceptable(&self, opp: &ArbOpportunity) -> (r: Option<bool>)
        ensures
            r == self.acceptable(opp.net_pct, opp.size_btc, opp.buy_price),
    {
        match self.try_is_acceptable_terms(opp.net_pct, opp.size_btc, opp.buy_price) {
            None => None,
            Some(_) => Some(self.is_acceptable(opp)),
        }
    }

    /// Whether an opportunity is within the bounds: its net return at least
    /// the minimum, its notional `size_btc * buy_price` at most the maximum.
    pub fn is_acceptable(&self, opp: &ArbOpportunity) -> (r: bool)
        requires
            self.acceptable(opp.net_pct, opp.size_btc, opp.buy_price) is Some,
        ensures
            Some(r) == self.acceptable(opp.net_pct, opp.size_btc, opp.buy_price),
    {
        match self.try_is_acceptable_terms(opp.net_pct, opp.size_btc, opp.buy_price) {
            Some(v) => v,
            None => false,
        }
    }

    /// As `is_acceptable` on the opportunity's net return, size and buy
    /// price, `None` where the notional overflows.
    pub fn try_is_acceptable_terms(&self, net_pct: Dec, size_btc: Dec, buy_price: Dec) -> (r: Option<bool>)
        ensures
            r == self.acceptable(net_pct, size_btc, buy_price),
    {
        if net_pct.lt(&self.min_net_pct) {
            return Some(false);
        }
        match size_btc.checked_mul(&buy_price) {
            None => None,
            Some(n) => Some(!n.gt(&self.max_notional_usd)),
        }
    }
}

impl Default for RiskAssessor {
    fn default() -> (r: RiskAssessor)
        ensures
            r == RiskAssessor::standard(),
    {
        RiskAssessor {
            max_notional_usd: Dec::new(100000, 1),
            min_net_pct: Dec::new(5, 2),
            max_volatility: Dec::new(2, 2),
        }
    }
}

} // verus!
