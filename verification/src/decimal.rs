//! Fixed-point decimal numbers.
//!
//! A [`Dec`] holds the two plain values that make up a `rust_decimal::Decimal`:
//! a signed mantissa of at most 96 bits and a scale between 0 and 28, so that
//! the number is `mantissa / 10^scale`.  The arithmetic itself is done by
//! `rust_decimal`; what each operation returns is named by a spec function.

use rust_decimal::Decimal;
use std::str::FromStr;
use vstd::prelude::*;
use vstd::std_specs::cmp::PartialEqSpecImpl;

verus! {

/// Largest magnitude of a mantissa: 2^96 - 1.
pub const MAX_MANTISSA: i128 = 79228162514264337593543950335i128;

/// Largest scale.
pub const MAX_SCALE: u32 = 28u32;

/// 10^28, the number of units in 1.
pub open spec fn unit_count() -> int {
    10000000000000000000000000000int
}

/// 10^n.
pub open spec fn pow10(n: nat) -> int
    decreases n,
{
    if n == 0 {
        1
    } else {
        10 * pow10((n - 1) as nat)
    }
}

/// Powers of ten are positive.
pub proof fn lemma_pow10_positive(n: nat)
    ensures
        pow10(n) >= 1,
    decreases n,
{
    if n > 0 {
        lemma_pow10_positive((n - 1) as nat);
    }
}

/// 10^(a + b) = 10^a * 10^b.
pub proof fn lemma_pow10_adds(a: nat, b: nat)
    ensures
        pow10(a + b) == pow10(a) * pow10(b),
    decreases a,
{
    if a > 0 {
        lemma_pow10_adds((a - 1) as nat, b);
        assert(pow10(a + b) == 10 * pow10((a - 1 + b) as nat));
        let x = pow10((a - 1) as nat);
        let y = pow10(b);
        assert(pow10(a) * y == 10 * (x * y)) by (nonlinear_arith)
            requires
                pow10(a) == 10 * x,
        ;
    }
}

/// 10^28 is the number of units in one.
pub proof fn lemma_pow10_28()
    ensures
        pow10(28) == unit_count(),
{
    reveal_with_fuel(pow10, 29);
}

/// A decimal number `mantissa / 10^scale`.
#[derive(Clone, Copy, Debug)]
pub struct Dec {
    mantissa: i128,
    scale: u32,
}

/// The three outcomes of comparing two decimals.
#[derive(Clone, Copy, Debug, PartialEq, Eq, Structural)]
pub enum DecOrder {
    Less,
    Equal,
    Greater,
}

impl Dec {
    #[verifier::type_invariant]
    spec fn inv(self) -> bool {
        &&& -MAX_MANTISSA <= self.mantissa <= MAX_MANTISSA
        &&& self.scale <= MAX_SCALE
    }

    /// The mantissa.
    pub closed spec fn mant(self) -> int {
        self.mantissa as int
    }

    /// The scale.
    pub closed spec fn scl(self) -> nat {
        self.scale as nat
    }

    /// Whether the mantissa and the scale are in range.
    pub closed spec fn wf(self) -> bool {
        self.inv()
    }

    /// The decimal with mantissa `m` and scale `s`.
    pub closed spec fn lit(m: i128, s: u32) -> Dec {
        Dec { mantissa: m, scale: s }
    }

    /// Zero: mantissa 0 at scale 0 (as `Decimal::ZERO`).
    pub open spec fn spec_zero() -> Dec {
        Dec::lit(0, 0)
    }

    /// Two: mantissa 2 at scale 0 (as `Decimal::TWO`).
    pub open spec fn spec_two() -> Dec {
        Dec::lit(2, 0)
    }

    /// The value of the number counted in units of 10^-28: since the scale
    /// is at most 28 this is always an integer, and two decimals are equal
    /// as numbers exactly when their units are equal.
    pub closed spec fn units(self) -> int {
        self.mantissa * pow10((28 - self.scale) as nat)
    }

    /// `mantissa / 10^scale`, with `scale <= 28` (as `Decimal::new`).
    pub fn new(num: i64, scale: u32) -> (r: Dec)
        requires
            scale <= MAX_SCALE,
        ensures
            r.mant() == num,
            r.scl() == scale,
            r.wf(),
            r == Dec::lit(num as i128, scale),
    {
        Dec { mantissa: num as i128, scale }
    }

    /// `num / 10^scale` when the mantissa and scale are in range
    /// (as `Decimal::try_from_i128_with_scale`).
    pub fn from_i128_with_scale(num: i128, scale: u32) -> (r: Option<Dec>)
        ensures
            r is Some <==> (scale <= MAX_SCALE && -MAX_MANTISSA <= num <= MAX_MANTISSA),
            r matches Some(d) ==> d.mant() == num && d.scl() == scale && d.wf(),
    {
        if scale <= MAX_SCALE && -MAX_MANTISSA <= num && num <= MAX_MANTISSA {
            Some(Dec { mantissa: num, scale })
        } else {
            None
        }
    }

    /// Zero (mantissa 0, scale 0).
    pub fn zero() -> (r: Dec)
        ensures
            r.mant() == 0,
            r.scl() == 0,
            r.units() == 0,
            r.wf(),
            r == Dec::spec_zero(),
    {
        Dec { mantissa: 0, scale: 0 }
    }

    /// Two (as `Decimal::TWO`).
    pub fn two() -> (r: Dec)
        ensures
            r == Dec::spec_two(),
            r.units() == 2 * unit_count(),
    {
        proof {
            lemma_pow10_28();
        }
        Dec { mantissa: 2, scale: 0 }
    }

    pub fn mantissa(&self) -> (r: i128)
        ensures
            r == self.mant(),
            -MAX_MANTISSA <= r <= MAX_MANTISSA,
    {
        proof {
            use_type_invariant(self);
        }
        self.mantissa
    }

    pub fn scale(&self) -> (r: u32)
        ensures
            r == self.scl(),
            r <= MAX_SCALE,
    {
        proof {
            use_type_invariant(self);
        }
        self.scale
    }

    /// Every decimal held by an executable value is well formed.
    pub fn well_formed(&self)
        ensures
            self.wf(),
    {
        proof {
            use_type_invariant(self);
        }
    }

    /// Whether the value is zero.
    pub fn is_zero(&self) -> (r: bool)
        ensures
            r == (self.mant() == 0),
            r == (self.units() == 0),
    {
        proof {
            use_type_invariant(self);
            lemma_pow10_positive((28 - self.scale) as nat);
            if self.mantissa != 0 {
                assert(self.mantissa * pow10((28 - self.scale) as nat) != 0) by (nonlinear_arith)
                    requires
                        self.mantissa != 0,
                        pow10((28 - self.scale) as nat) >= 1,
                ;
            }
        }
        self.mantissa == 0
    }
}

/// The mantissa of `d` written at scale `s` (no smaller than its own).
pub open spec fn mant_at(d: Dec, s: nat) -> int {
    d.mant() * pow10((s - d.scl()) as nat)
}

/// Whether an integer fits in a 96-bit mantissa.
pub open spec fn fits_mantissa(x: int) -> bool {
    -MAX_MANTISSA <= x <= MAX_MANTISSA
}

/// The larger of two decimals' scales.
pub open spec fn common_scale(a: Dec, b: Dec) -> nat {
    if a.scl() >= b.scl() {
        a.scl()
    } else {
        b.scl()
    }
}

/// Whether `a + b` (`a - b` when `negate`) needs no rounding: both
/// mantissas written at the larger scale, and their sum (difference), fit
/// in 96 bits.
pub open spec fn exact_sum(a: Dec, b: Dec, negate: bool) -> bool {
    let s = common_scale(a, b);
    let x = mant_at(a, s);
    let y = mant_at(b, s);
    &&& fits_mantissa(x)
    &&& fits_mantissa(y)
    &&& fits_mantissa(if negate { x - y } else { x + y })
}

/// Whether `a * b` needs no rounding: the scales add up to at most 28 and
/// the product of the mantissas fits in 96 bits.
pub open spec fn exact_product(a: Dec, b: Dec) -> bool {
    a.scl() + b.scl() <= MAX_SCALE && fits_mantissa(a.mant() * b.mant())
}

/// What `Decimal::checked_add` returns for two decimals (`None` on overflow).
pub uninterp spec fn decimal_add(a: Dec, b: Dec) -> Option<Dec>;

/// What `Decimal::checked_sub` returns for two decimals (`None` on overflow).
pub uninterp spec fn decimal_sub(a: Dec, b: Dec) -> Option<Dec>;

/// What `Decimal::checked_mul` returns for two decimals (`None` on overflow).
pub uninterp spec fn decimal_mul(a: Dec, b: Dec) -> Option<Dec>;

/// What `Decimal::checked_div` returns for two decimals (`None` on overflow
/// or when the divisor is zero).
pub uninterp spec fn decimal_div(a: Dec, b: Dec) -> Option<Dec>;

/// What `Decimal::from_str` accepts and returns for a text.
pub uninterp spec fn decimal_parse(s: Seq<char>) -> Option<Dec>;

/// Calls `Ord::cmp` of `rust_decimal::Decimal`.  The contract claims that
/// decimals are ordered by the numbers they stand for, whatever their scales.
#[verifier::external_body]
fn decimal_compare(a: &Dec, b: &Dec) -> (r: DecOrder)
    requires
        a.wf(),
        b.wf(),
    ensures
        (r == DecOrder::Less) <==> a.units() < b.units(),
        (r == DecOrder::Equal) <==> a.units() == b.units(),
        (r == DecOrder::Greater) <==> a.units() > b.units(),
{
    let x = Decimal::from_i128_with_scale(a.mantissa, a.scale);
    let y = Decimal::from_i128_with_scale(b.mantissa, b.scale);
    match x.cmp(&y) {
        std::cmp::Ordering::Less => DecOrder::Less,
        std::cmp::Ordering::Equal => DecOrder::Equal,
        std::cmp::Ordering::Greater => DecOrder::Greater,
    }
}

/// Calls `Decimal::checked_add`.  The contract claims that the result is a
/// function of the two operands, that a decimal it returns is in range,
/// and that where no rounding is needed (`exact_sum`) the sum is returned
/// exactly, at a scale no larger than the operands' larger scale.
#[verifier::external_body]
fn decimal_checked_add(a: &Dec, b: &Dec) -> (r: Option<Dec>)
    requires
        a.wf(),
        b.wf(),
    ensures
        r == decimal_add(*a, *b),
        r matches Some(d) ==> d.wf(),
        r is Some || !exact_sum(*a, *b, false),
        r matches Some(d) ==> (exact_sum(*a, *b, false) ==> d.units() == a.units() + b.units() && d.scl() <= common_scale(*a, *b)),
{
    let x = Decimal::from_i128_with_scale(a.mantissa, a.scale);
    let y = Decimal::from_i128_with_scale(b.mantissa, b.scale);
    x.checked_add(y).map(|d| Dec { mantissa: d.mantissa(), scale: d.scale() })
}

/// Calls `Decimal::checked_sub`; the contract claims what that of
/// `decimal_checked_add` does.
#[verifier::external_body]
fn decimal_checked_sub(a: &Dec, b: &Dec) -> (r: Option<Dec>)
    requires
        a.wf(),
        b.wf(),
    ensures
        r == decimal_sub(*a, *b),
        r matches Some(d) ==> d.wf(),
        r is Some || !exact_sum(*a, *b, true),
        r matches Some(d) ==> (exact_sum(*a, *b, true) ==> d.units() == a.units() - b.units() && d.scl() <= common_scale(*a, *b)),
{
    let x = Decimal::from_i128_with_scale(a.mantissa, a.scale);
    let y = Decimal::from_i128_with_scale(b.mantissa, b.scale);
    x.checked_sub(y).map(|d| Dec { mantissa: d.mantissa(), scale: d.scale() })
}

/// Calls `Decimal::checked_mul`.  The contract claims that the result is a
/// function of the two operands, that a decimal it returns is in range,
/// and that where no rounding is needed (`exact_product`) the product is
/// returned exactly, at a scale no larger than the sum of the scales.
#[verifier::external_body]
fn decimal_checked_mul(a: &Dec, b: &Dec) -> (r: Option<Dec>)
    requires
        a.wf(),
        b.wf(),
    ensures
        r == decimal_mul(*a, *b),
        r matches Some(d) ==> d.wf(),
        r is Some || !exact_product(*a, *b),
        r matches Some(d) ==> (exact_product(*a, *b) ==> d.units() == a.mant() * b.mant() * pow10(
            (MAX_SCALE - a.scl() - b.scl()) as nat,
        ) && d.scl() <= a.scl() + b.scl()),
{
    let x = Decimal::from_i128_with_scale(a.mantissa, a.scale);
    let y = Decimal::from_i128_with_scale(b.mantissa, b.scale);
    x.checked_mul(y).map(|d| Dec { mantissa: d.mantissa(), scale: d.scale() })
}

/// Calls `Decimal::checked_div`.  Besides what the contract of
/// `decimal_checked_add` claims, it claims that division by zero gives `None`
/// (`checked_div` returns `None` for a zero divisor).
#[verifier::external_body]
fn decimal_checked_div(a: &Dec, b: &Dec) -> (r: Option<Dec>)
    requires
        a.wf(),
        b.wf(),
    ensures
        r == decimal_div(*a, *b),
        r matches Some(d) ==> d.wf(),
        b.mant() == 0 ==> r is None,
{
    let x = Decimal::from_i128_with_scale(a.mantissa, a.scale);
    let y = Decimal::from_i128_with_scale(b.mantissa, b.scale);
    x.checked_div(y).map(|d| Dec { mantissa: d.mantissa(), scale: d.scale() })
}

/// Calls `<Decimal as FromStr>::from_str`.  The contract claims that the
/// result depends on the text alone and that a decimal it returns is in
/// range; which texts it accepts is left to the name.
#[verifier::external_body]
fn decimal_from_str(s: &str) -> (r: Option<Dec>)
    ensures
        r == decimal_parse(s@),
        r matches Some(d) ==> d.wf(),
{
    Decimal::from_str(s).ok().map(|d| Dec { mantissa: d.mantissa(), scale: d.scale() })
}

impl Dec {
    /// Three-way comparison by value.
    pub fn compare(&self, other: &Dec) -> (r: DecOrder)
        ensures
            (r == DecOrder::Less) <==> self.units() < other.units(),
            (r == DecOrder::Equal) <==> self.units() == other.units(),
            (r == DecOrder::Greater) <==> self.units() > other.units(),
    {
        proof {
            use_type_invariant(self);
            use_type_invariant(other);
        }
        decimal_compare(self, other)
    }

    pub fn lt(&self, other: &Dec) -> (r: bool)
        ensures
            r == (self.units() < other.units()),
    {
        match self.compare(other) {
            DecOrder::Less => true,
            _ => false,
        }
    }

    pub fn le(&self, other: &Dec) -> (r: bool)
        ensures
            r == (self.units() <= other.units()),
    {
        match self.compare(other) {
            DecOrder::Greater => false,
            _ => true,
        }
    }

    pub fn gt(&self, other: &Dec) -> (r: bool)
        ensures
            r == (self.units() > other.units()),
    {
        other.lt(self)
    }

    /// Equality of the numbers, whatever the scales (as `==` on `Decimal`).
    pub fn value_eq(&self, other: &Dec) -> (r: bool)
        ensures
            r == (self.units() == other.units()),
    {
        match self.compare(other) {
            DecOrder::Equal => true,
            _ => false,
        }
    }

    /// The smaller of two decimals; the first one when they are equal
    /// (as `Ord::min`).
    pub fn min(self, other: Dec) -> (r: Dec)
        ensures
            r == (if self.units() <= other.units() { self } else { other }),
    {
        if self.le(&other) {
            self
        } else {
            other
        }
    }

    /// The absolute value: the mantissa's magnitude at the same scale.
    pub closed spec fn abs_spec(self) -> Dec {
        Dec { mantissa: (if self.mantissa < 0 { -self.mantissa } else { self.mantissa as int }) as i128, scale: self.scale }
    }

    /// The absolute value: the mantissa's magnitude at the same scale
    /// (as `Decimal::abs`).
    pub fn abs(&self) -> (r: Dec)
        ensures
            r == self.abs_spec(),
            r.units() == (if self.units() < 0 { -self.units() } else { self.units() }),
            r.wf(),
    {
        proof {
            use_type_invariant(self);
            lemma_abs_units(*self);
        }
        if self.mantissa < 0 {
            Dec { mantissa: -self.mantissa, scale: self.scale }
        } else {
            *self
        }
    }

    /// `self + other`, `None` on overflow (as `Decimal::checked_add`); exact
    /// where no rounding is needed.
    pub fn checked_add(&self, other: &Dec) -> (r: Option<Dec>)
        ensures
            r == decimal_add(*self, *other),
            r is Some || !exact_sum(*self, *other, false),
            r matches Some(d) ==> (exact_sum(*self, *other, false) ==> d.units() == self.units() + other.units() && d.scl()
                <= common_scale(*self, *other)),
    {
        proof {
            use_type_invariant(self);
            use_type_invariant(other);
        }
        decimal_checked_add(self, other)
    }

    /// `self - other`, `None` on overflow (as `Decimal::checked_sub`); exact
    /// where no rounding is needed.
    pub fn checked_sub(&self, other: &Dec) -> (r: Option<Dec>)
        ensures
            r == decimal_sub(*self, *other),
            r is Some || !exact_sum(*self, *other, true),
            r matches Some(d) ==> (exact_sum(*self, *other, true) ==> d.units() == self.units() - other.units() && d.scl()
                <= common_scale(*self, *other)),
    {
        proof {
            use_type_invariant(self);
            use_type_invariant(other);
        }
        decimal_checked_sub(self, other)
    }

    /// `self * other`, `None` on overflow (as `Decimal::checked_mul`); exact
    /// where no rounding is needed.
    pub fn checked_mul(&self, other: &Dec) -> (r: Option<Dec>)
        ensures
            r == decimal_mul(*self, *other),
            r is Some || !exact_product(*self, *other),
            r matches Some(d) ==> (exact_product(*self, *other) ==> d.units() == self.mant() * other.mant() * pow10(
                (MAX_SCALE - self.scl() - other.scl()) as nat,
            ) && d.scl() <= self.scl() + other.scl()),
    {
        proof {
            use_type_invariant(self);
            use_type_invariant(other);
        }
        decimal_checked_mul(self, other)
    }

    /// `self / other`, `None` on overflow or division by zero
    /// (as `Decimal::checked_div`).
    pub fn checked_div(&self, other: &Dec) -> (r: Option<Dec>)
        ensures
            r == decimal_div(*self, *other),
            other.units() == 0 ==> r is None,
    {
        proof {
            use_type_invariant(self);
            use_type_invariant(other);
            lemma_units_zero(*other);
        }
        decimal_checked_div(self, other)
    }

    /// Parses a decimal from its text, `None` where `Decimal::from_str`
    /// returns an error.
    pub fn parse(s: &str) -> (r: Option<Dec>)
        ensures
            r == decimal_parse(s@),
    {
        decimal_from_str(s)
    }
}

/// What a decimal's units, well-formedness and literal parts are in
/// terms of its mantissa and scale: `units == mantissa * 10^(28 - scale)`.
pub proof fn lemma_units_def(d: Dec, m: i128, s: u32)
    ensures
        d.units() == d.mant() * pow10((MAX_SCALE - d.scl()) as nat),
        d.wf() <==> (fits_mantissa(d.mant()) && d.scl() <= MAX_SCALE),
        Dec::lit(m, s).mant() == m,
        Dec::lit(m, s).scl() == s,
{
}

/// A decimal written at a scale `c` no smaller than its own: its units are
/// its mantissa at that scale times `10^(28 - c)`.
pub proof fn lemma_units_at(x: Dec, c: nat)
    requires
        x.scl() <= c <= MAX_SCALE,
    ensures
        x.units() == mant_at(x, c) * pow10((MAX_SCALE - c) as nat),
{
    let a = (c - x.scl()) as nat;
    let b = (MAX_SCALE - c) as nat;
    lemma_pow10_adds(a, b);
    assert((a + b) as nat == (MAX_SCALE - x.scl()) as nat);
    let m = x.mant();
    assert(m * (pow10(a) * pow10(b)) == (m * pow10(a)) * pow10(b)) by (nonlinear_arith);
}

/// A non-negative amount of units within `MAX_MANTISSA * 10^(28 - s)`,
/// written as `m * 10^(28 - c)` with `c <= s`, has `m` within 96 bits.
pub proof fn lemma_mant_fits(u: int, m: int, c: nat, s: nat)
    requires
        c <= s <= MAX_SCALE,
        0 <= u <= MAX_MANTISSA * pow10((MAX_SCALE - s) as nat),
        u == m * pow10((MAX_SCALE - c) as nat),
    ensures
        0 <= m <= MAX_MANTISSA,
        fits_mantissa(m),
{
    let ps = pow10((MAX_SCALE - s) as nat);
    let pd = pow10((s - c) as nat);
    lemma_pow10_adds((s - c) as nat, (MAX_SCALE - s) as nat);
    assert(((s - c) + (MAX_SCALE - s)) as nat == (MAX_SCALE - c) as nat);
    lemma_pow10_positive((MAX_SCALE - s) as nat);
    lemma_pow10_positive((s - c) as nat);
    let pc = pow10((MAX_SCALE - c) as nat);
    assert(pc == pd * ps);
    assert(0 <= m <= MAX_MANTISSA) by (nonlinear_arith)
        requires
            pc == pd * ps,
            pd >= 1,
            ps >= 1,
            0 <= u <= MAX_MANTISSA * ps,
            u == m * pc,
    ;
}

/// The units of the absolute value are the magnitude of the units.
pub proof fn lemma_abs_units(d: Dec)
    requires
        d.wf(),
    ensures
        d.abs_spec().units() == (if d.units() < 0 { -d.units() } else { d.units() }),
{
    let f = pow10((28 - d.scale) as nat);
    lemma_pow10_positive((28 - d.scale) as nat);
    let m = d.mantissa as int;
    assert((-m) * f == -(m * f)) by (nonlinear_arith);
    assert(m < 0 ==> m * f < 0) by (nonlinear_arith)
        requires
            f >= 1,
    ;
    assert(m >= 0 ==> m * f >= 0) by (nonlinear_arith)
        requires
            f >= 1,
    ;
}

/// Zero has no units.
pub proof fn lemma_zero_units()
    ensures
        Dec::spec_zero().units() == 0,
        Dec::spec_zero().mant() == 0,
        Dec::spec_zero().wf(),
{
}

/// A decimal is zero exactly when its mantissa is zero.
pub proof fn lemma_units_zero(d: Dec)
    ensures
        (d.units() == 0) <==> (d.mant() == 0),
{
    lemma_pow10_positive((28 - d.scale) as nat);
    if d.mantissa != 0 {
        assert(d.mantissa * pow10((28 - d.scale) as nat) != 0) by (nonlinear_arith)
            requires
                d.mantissa != 0,
                pow10((28 - d.scale) as nat) >= 1,
        ;
    }
}

impl PartialEq for Dec {
    fn eq(&self, other: &Dec) -> (r: bool) {
        self.value_eq(other)
    }
}

impl PartialEqSpecImpl for Dec {
    open spec fn obeys_eq_spec() -> bool {
        true
    }

    open spec fn eq_spec(&self, other: &Dec) -> bool {
        self.units() == other.units()
    }
}

/// 10^n for `n <= 28`.
fn pow10_u128(n: u32) -> (r: u128)
    requires
        n <= 28,
    ensures
        r == pow10(n as nat),
        r <= unit_count(),
{
    let mut r: u128 = 1;
    let mut i: u32 = 0;
    while i < n
        invariant
            i <= n <= 28,
            r == pow10(i as nat),
        decreases n - i,
    {
        proof {
            lemma_pow10_adds(i as nat, (28 - i) as nat);
            lemma_pow10_28();
            lemma_pow10_positive((28 - i) as nat);
            lemma_pow10_positive(i as nat);
            assert(pow10((28 - i) as nat) >= 10) by {
                assert(pow10((28 - i) as nat) == 10 * pow10((28 - i - 1) as nat));
                lemma_pow10_positive((28 - i - 1) as nat);
            }
            assert(r * 10 <= r * pow10((28 - i) as nat)) by (nonlinear_arith)
                requires
                    pow10((28 - i) as nat) >= 10,
                    r >= 1,
            ;
        }
        r = r * 10;
        i = i + 1;
    }
    proof {
        lemma_pow10_adds(n as nat, (28 - n) as nat);
        lemma_pow10_28();
        lemma_pow10_positive((28 - n) as nat);
        lemma_pow10_positive(n as nat);
        assert(r <= r * pow10((28 - n) as nat)) by (nonlinear_arith)
            requires
                pow10((28 - n) as nat) >= 1,
                r >= 1,
        ;
    }
    r
}

impl Dec {
    /// The integer pair by which decimals are ordered and found again in a
    /// `BTreeMap`: the whole part and the fraction (in units of 10^-28) of
    /// the number, rounded down.  Two decimals have the same key exactly when
    /// they are equal as numbers, and keys compare as the numbers do.
    pub closed spec fn key(self) -> (i128, u128) {
        ((self.units() / unit_count()) as i128, (self.units() % unit_count()) as u128)
    }

    pub fn order_key(&self) -> (r: (i128, u128))
        ensures
            r == self.key(),
            r.0 == self.units() / unit_count(),
            r.1 == self.units() % unit_count(),
            self.wf(),
    {
        proof {
            use_type_invariant(self);
        }
        let p = pow10_u128(self.scale);
        let f = pow10_u128(28 - self.scale);
        proof {
            lemma_pow10_positive(self.scale as nat);
        }
        let neg = self.mantissa < 0;
        let a: u128 = if neg { (-self.mantissa) as u128 } else { self.mantissa as u128 };
        let q: u128 = a / p;
        let rem: u128 = a % p;
        let ghost m = self.mantissa as int;
        let ghost pi = p as int;
        let ghost fi = f as int;
        proof {
            lemma_pow10_adds(self.scale as nat, (28 - self.scale) as nat);
            lemma_pow10_28();
            lemma_pow10_positive(self.scale as nat);
            lemma_pow10_positive((28 - self.scale) as nat);
            assert(pi * fi == unit_count());
            vstd::arithmetic::div_mod::lemma_fundamental_div_mod(a as int, pi);
            assert(a == q * pi + rem) by (nonlinear_arith)
                requires
                    a == pi * (a as int / pi) + (a as int % pi),
                    q == a as int / pi,
                    rem == a as int % pi,
            ;
            assert(rem * fi < unit_count()) by (nonlinear_arith)
                requires
                    rem < pi,
                    fi >= 1,
                    pi * fi == unit_count(),
            ;
            assert(q <= a) by (nonlinear_arith)
                requires
                    a == q * pi + rem,
                    pi >= 1,
                    rem >= 0,
                    q >= 0,
            ;
            assert(self.units() == m * fi);
        }
        if !neg {
            let frac: u128 = rem * f;
            proof {
                assert(m * fi == q * unit_count() + rem * fi) by (nonlinear_arith)
                    requires
                        m == q * pi + rem,
                        pi * fi == unit_count(),
                ;
                vstd::arithmetic::div_mod::lemma_fundamental_div_mod_converse(
                    self.units(),
                    unit_count(),
                    q as int,
                    frac as int,
                );
            }
            (q as i128, frac)
        } else if rem == 0 {
            proof {
                assert(m * fi == (-q) * unit_count() + 0) by (nonlinear_arith)
                    requires
                        -m == q * pi + rem,
                        rem == 0,
                        pi * fi == unit_count(),
                ;
                vstd::arithmetic::div_mod::lemma_fundamental_div_mod_converse(
                    self.units(),
                    unit_count(),
                    -q,
                    0,
                );
            }
            (-(q as i128), 0)
        } else {
            proof {
                assert((pi - rem) * fi < unit_count()) by (nonlinear_arith)
                    requires
                        rem > 0,
                        rem < pi,
                        fi >= 1,
                        pi * fi == unit_count(),
                ;
            }
            let frac: u128 = (p - rem) * f;
            proof {
                assert((pi - rem) * fi >= 0) by (nonlinear_arith)
                    requires
                        rem < pi,
                        fi >= 1,
                ;
                assert(m * fi == (-q - 1) * unit_count() + (pi - rem) * fi) by (nonlinear_arith)
                    requires
                        -m == q * pi + rem,
                        pi * fi == unit_count(),
                ;
                vstd::arithmetic::div_mod::lemma_fundamental_div_mod_converse(
                    self.units(),
                    unit_count(),
                    -q - 1,
                    frac as int,
                );
            }
            (-(q as i128) - 1, frac)
        }
    }
}

/// The units of a well-formed decimal are bounded by 2^96 * 10^28.
pub proof fn lemma_units_bound(d: Dec)
    requires
        d.wf(),
    ensures
        -MAX_MANTISSA * unit_count() <= d.units() <= MAX_MANTISSA * unit_count(),
{
    let f = pow10((28 - d.scale) as nat);
    lemma_pow10_adds(d.scale as nat, (28 - d.scale) as nat);
    lemma_pow10_28();
    lemma_pow10_positive(d.scale as nat);
    lemma_pow10_positive((28 - d.scale) as nat);
    let p = pow10(d.scale as nat);
    assert(f <= unit_count()) by (nonlinear_arith)
        requires
            p * f == unit_count(),
            p >= 1,
            f >= 1,
    ;
    let m = d.mantissa as int;
    assert(-MAX_MANTISSA * unit_count() <= m * f <= MAX_MANTISSA * unit_count()) by (nonlinear_arith)
        requires
            -MAX_MANTISSA <= m <= MAX_MANTISSA,
            1 <= f <= unit_count(),
    ;
}

/// Keys order decimals as their values do, and only equal values share a key.
pub proof fn lemma_key_order(a: Dec, b: Dec)
    requires
        a.wf(),
        b.wf(),
    ensures
        (a.key() == b.key()) <==> (a.units() == b.units()),
        (a.key().0 < b.key().0 || (a.key().0 == b.key().0 && a.key().1 < b.key().1)) <==> (a.units() < b.units()),
{
    let u = a.units();
    let v = b.units();
    let c = unit_count();
    lemma_units_bound(a);
    lemma_units_bound(b);
    let qa = u / c;
    let ra = u % c;
    let qb = v / c;
    let rb = v % c;
    assert(u == qa * c + ra);
    assert(v == qb * c + rb);
    assert(-MAX_MANTISSA - 1 <= qa <= MAX_MANTISSA);
    assert(-MAX_MANTISSA - 1 <= qb <= MAX_MANTISSA);
    assert(a.key().0 == qa && a.key().1 == ra);
    assert(b.key().0 == qb && b.key().1 == rb);
}

} // verus!
