//! Qualitative ranking of an opportunity.

use vstd::prelude::*;

verus! {

/// Qualitative ranking of a trade's execution safety.
#[derive(Clone, Copy, Debug, PartialEq, Eq, Structural)]
pub enum Confidence {
    High,
    Medium,
    Low,
    Risky,
}

/// The label of a ranking, in upper case.
pub open spec fn confidence_label(c: Confidence) -> Seq<char> {
    match c {
        Confidence::High => "HIGH"@,
        Confidence::Medium => "MEDIUM"@,
        Confidence::Low => "LOW"@,
        Confidence::Risky => "RISKY"@,
    }
}

impl Confidence {
    /// The label: "HIGH", "MEDIUM", "LOW" or "RISKY".
    pub fn label(&self) -> (r: &'static str)
        ensures
            r@ == confidence_label(*self),
    {
        match self {
            Confidence::High => "HIGH",
            Confidence::Medium => "MEDIUM",
            Confidence::Low => "LOW",
            Confidence::Risky => "RISKY",
        }
    }
}

} // verus!
