//! Fixed-point decimal numbers held as a 96-bit mantissa and a base-10 scale.
//!
//! The arithmetic itself is performed by `rust_decimal`; this module keeps the
//! mantissa and the scale as plain values so that the rest of the library can
//! state and prove what it does with them.

use rust_decimal::Decimal;
use vstd::prelude::*;

verus! {

/// `10^n`.
pub open spec fn pow10(n: nat) -> nat
    decreases n,
{
    if n == 0 {
        1
    } else {
        10 * pow10((n - 1) as nat)
    }
}

/// The largest mantissa magnitude a decimal can hold: `2^96 - 1`.
#[verifier::inline]
pub open spec fn max_mantissa() -> int {
    79228162514264337593543950335
}

/// `10^28`: the value of `1` in the integer view of a decimal.
#[verifier::inline]
pub open spec fn unit() -> int {
    10000000000000000000000000000
}

/// Exact results whose magnitude stays within this bound never overflow.
#[verifier::inline]
pub open spec fn safe_limit() -> int {
    (max_mantissa() - 1) * unit()
}

/// A decimal number `mantissa * 10^-scale`.
#[derive(Debug, Clone, Copy)]
pub struct Dec {
    pub mantissa: i128,
    pub scale: u32,
}

impl Dec {
    /// A representable decimal: scale at most 28, mantissa within 96 bits.
    pub open spec fn wf(self) -> bool {
        &&& self.scale <= 28
        &&& -max_mantissa() <= self.mantissa <= max_mantissa()
    }

    /// The value in units of `10^-28`, which is exact for every representable decimal.
    pub open spec fn value(self) -> int {
        self.mantissa * pow10((28 - self.scale) as nat)
    }
}

impl View for Dec {
    type V = int;

    open spec fn view(&self) -> int {
        self.value()
    }
}

pub open spec fn dec_of(parts: (int, int)) -> Dec {
    Dec { mantissa: parts.0 as i128, scale: parts.1 as u32 }
}

/// The mantissa and scale `rust_decimal` gives for `a + b`.
pub uninterp spec fn decimal_sum(a_mantissa: int, a_scale: int, b_mantissa: int, b_scale: int) -> (int, int);

/// The mantissa and scale `rust_decimal` gives for `a - b`.
pub uninterp spec fn decimal_difference(a_mantissa: int, a_scale: int, b_mantissa: int, b_scale: int) -> (int, int);

/// The mantissa and scale `rust_decimal` gives for `a * b`.
pub uninterp spec fn decimal_product(a_mantissa: int, a_scale: int, b_mantissa: int, b_scale: int) -> (int, int);

/// The mantissa and scale `rust_decimal` gives for `a / b`.
pub uninterp spec fn decimal_quotient(a_mantissa: int, a_scale: int, b_mantissa: int, b_scale: int) -> (int, int);

/// The characters of `Display` for the decimal with this mantissa and scale.
pub uninterp spec fn decimal_text(mantissa: int, scale: int) -> Seq<char>;

/// The mantissa and scale `Decimal::from_str` reads from this text, if any.
pub uninterp spec fn decimal_from_text(text: Seq<char>) -> Option<(int, int)>;

pub open spec fn sum_of(a: Dec, b: Dec) -> Dec {
    dec_of(decimal_sum(a.mantissa as int, a.scale as int, b.mantissa as int, b.scale as int))
}

pub open spec fn difference_of(a: Dec, b: Dec) -> Dec {
    dec_of(decimal_difference(a.mantissa as int, a.scale as int, b.mantissa as int, b.scale as int))
}

pub open spec fn product_of(a: Dec, b: Dec) -> Dec {
    dec_of(decimal_product(a.mantissa as int, a.scale as int, b.mantissa as int, b.scale as int))
}

pub open spec fn quotient_of(a: Dec, b: Dec) -> Dec {
    dec_of(decimal_quotient(a.mantissa as int, a.scale as int, b.mantissa as int, b.scale as int))
}

pub open spec fn text_of(a: Dec) -> Seq<char> {
    decimal_text(a.mantissa as int, a.scale as int)
}

pub open spec fn parsed_of(text: Seq<char>) -> Option<Dec> {
    match decimal_from_text(text) {
        Some(parts) => Some(dec_of(parts)),
        None => None,
    }
}

pub open spec fn abs_int(x: int) -> int {
    if x < 0 {
        -x
    } else {
        x
    }
}

/// Bankers' rounding of a mantissa when `drop` decimal places are removed.
pub open spec fn banker_round_mantissa(m: int, drop: nat) -> int {
    let d = pow10(drop) as int;
    let mag = abs_int(m);
    let q = mag / d;
    let rem = mag % d;
    let q2 = if rem * 2 > d || (rem * 2 == d && q % 2 == 1) {
        q + 1
    } else {
        q
    };
    if m < 0 {
        -q2
    } else {
        q2
    }
}

/// `round_dp(dp)`: unchanged when the scale is already at most `dp`.
pub open spec fn round_dp_of(a: Dec, dp: nat) -> Dec {
    if a.scale <= dp {
        a
    } else {
        Dec {
            mantissa: banker_round_mantissa(a.mantissa as int, (a.scale - dp) as nat) as i128,
            scale: dp as u32,
        }
    }
}

/// Trailing zeros stripped from the mantissa, one decimal place at a time.
pub open spec fn normalized_parts(m: int, s: nat) -> (int, nat)
    decreases s,
{
    if s > 0 && m % 10 == 0 {
        normalized_parts(m / 10, (s - 1) as nat)
    } else {
        (m, s)
    }
}

pub open spec fn normalized_of(a: Dec) -> Dec {
    let p = normalized_parts(a.mantissa as int, a.scale as nat);
    Dec { mantissa: p.0 as i128, scale: p.1 as u32 }
}

/// The smallest integer not below the decimal, at scale 0.
pub open spec fn ceil_of(a: Dec) -> Dec {
    if a.scale == 0 {
        a
    } else {
        let d = pow10(a.scale as nat) as int;
        let m = a.mantissa as int;
        Dec { mantissa: (if m % d == 0 { m / d } else { m / d + 1 }) as i128, scale: 0 }
    }
}

/// The largest integer not above the decimal, at scale 0.
pub open spec fn floor_of(a: Dec) -> Dec {
    if a.scale == 0 {
        a
    } else {
        Dec { mantissa: (a.mantissa as int / pow10(a.scale as nat) as int) as i128, scale: 0 }
    }
}

/// `v` is the value of a decimal at scale `s`: a whole number of `10^-s` within 96 bits.
pub open spec fn fits_at(v: int, s: nat) -> bool {
    s <= 28 && v % (pow10((28 - s) as nat) as int) == 0 && abs_int(v / (pow10((28 - s) as nat) as int))
        <= max_mantissa()
}

pub open spec fn max_nat(a: nat, b: nat) -> nat {
    if a < b {
        b
    } else {
        a
    }
}

/// `rust_decimal`'s `a + b`.
#[verifier::external_body]
pub(crate) fn dec_add(a: Dec, b: Dec) -> (r: Dec)
    requires
        a.wf(),
        b.wf(),
        -safe_limit() <= a@ + b@ <= safe_limit(),
    ensures
        r.wf(),
        r == dec_of(decimal_sum(a.mantissa as int, a.scale as int, b.mantissa as int, b.scale as int)),
        -unit() <= r@ - (a@ + b@) <= unit(),
        fits_at(a@ + b@, max_nat(a.scale as nat, b.scale as nat)) ==> r@ == a@ + b@,
{
    let x = Decimal::from_i128_with_scale(a.mantissa, a.scale) + Decimal::from_i128_with_scale(b.mantissa, b.scale);
    Dec { mantissa: x.mantissa(), scale: x.scale() }
}

/// `rust_decimal`'s `a - b`.
#[verifier::external_body]
pub(crate) fn dec_sub(a: Dec, b: Dec) -> (r: Dec)
    requires
        a.wf(),
        b.wf(),
        -safe_limit() <= a@ - b@ <= safe_limit(),
    ensures
        r.wf(),
        r == dec_of(decimal_difference(a.mantissa as int, a.scale as int, b.mantissa as int, b.scale as int)),
        -unit() <= r@ - (a@ - b@) <= unit(),
        fits_at(a@ - b@, max_nat(a.scale as nat, b.scale as nat)) ==> r@ == a@ - b@,
{
    let x = Decimal::from_i128_with_scale(a.mantissa, a.scale) - Decimal::from_i128_with_scale(b.mantissa, b.scale);
    Dec { mantissa: x.mantissa(), scale: x.scale() }
}

/// The product of two decimals needs no rounding: the product of the
/// mantissas fits in 96 bits at the sum of the scales.
pub open spec fn exact_product(a: Dec, b: Dec) -> bool {
    a.scale + b.scale <= 28 && abs_int(a.mantissa * b.mantissa) <= max_mantissa()
}

/// `rust_decimal`'s `a * b`: exact when the product of the mantissas fits in
/// 96 bits at the sum of the scales (the result is then that product at that
/// scale, or zero), otherwise rescaled with rounding.
#[verifier::external_body]
pub(crate) fn dec_mul(a: Dec, b: Dec) -> (r: Dec)
    requires
        a.wf(),
        b.wf(),
        -safe_limit() * unit() <= a@ * b@ <= safe_limit() * unit(),
    ensures
        r.wf(),
        r == dec_of(decimal_product(a.mantissa as int, a.scale as int, b.mantissa as int, b.scale as int)),
        -unit() * unit() <= r@ * unit() - a@ * b@ <= unit() * unit(),
        exact_product(a, b) ==> r@ * unit() == a@ * b@,
{
    let x = Decimal::from_i128_with_scale(a.mantissa, a.scale) * Decimal::from_i128_with_scale(b.mantissa, b.scale);
    Dec { mantissa: x.mantissa(), scale: x.scale() }
}

/// `rust_decimal`'s `a / b`.
#[verifier::external_body]
pub(crate) fn dec_div(a: Dec, b: Dec) -> (r: Dec)
    requires
        a.wf(),
        b.wf(),
        b@ != 0,
        abs_int(a@) * unit() <= safe_limit() * abs_int(b@),
    ensures
        r.wf(),
        r == dec_of(decimal_quotient(a.mantissa as int, a.scale as int, b.mantissa as int, b.scale as int)),
        abs_int(r@ * b@ - a@ * unit()) <= unit() * abs_int(b@),
{
    let x = Decimal::from_i128_with_scale(a.mantissa, a.scale) / Decimal::from_i128_with_scale(b.mantissa, b.scale);
    Dec { mantissa: x.mantissa(), scale: x.scale() }
}

/// `rust_decimal`'s `a < b`, which compares values.
#[verifier::external_body]
pub(crate) fn dec_lt(a: Dec, b: Dec) -> (r: bool)
    requires
        a.wf(),
        b.wf(),
    ensures
        r == (a@ < b@),
{
    Decimal::from_i128_with_scale(a.mantissa, a.scale) < Decimal::from_i128_with_scale(b.mantissa, b.scale)
}

/// `rust_decimal`'s `round_dp`, which rounds half to even.
#[verifier::external_body]
pub(crate) fn dec_round_dp(a: Dec, dp: u32) -> (r: Dec)
    requires
        a.wf(),
    ensures
        r == round_dp_of(a, dp as nat),
{
    let x = Decimal::from_i128_with_scale(a.mantissa, a.scale).round_dp(dp);
    Dec { mantissa: x.mantissa(), scale: x.scale() }
}

/// `rust_decimal`'s `normalize`, which strips trailing zeros.
#[verifier::external_body]
pub(crate) fn dec_normalize(a: Dec) -> (r: Dec)
    requires
        a.wf(),
    ensures
        r == normalized_of(a),
{
    let x = Decimal::from_i128_with_scale(a.mantissa, a.scale).normalize();
    Dec { mantissa: x.mantissa(), scale: x.scale() }
}

/// `rust_decimal`'s `ceil`.
#[verifier::external_body]
pub(crate) fn dec_ceil(a: Dec) -> (r: Dec)
    requires
        a.wf(),
    ensures
        r == ceil_of(a),
{
    let x = Decimal::from_i128_with_scale(a.mantissa, a.scale).ceil();
    Dec { mantissa: x.mantissa(), scale: x.scale() }
}

/// `rust_decimal`'s `floor`.
#[verifier::external_body]
pub(crate) fn dec_floor(a: Dec) -> (r: Dec)
    requires
        a.wf(),
    ensures
        r == floor_of(a),
{
    let x = Decimal::from_i128_with_scale(a.mantissa, a.scale).floor();
    Dec { mantissa: x.mantissa(), scale: x.scale() }
}

/// The text of a decimal has a point only when its scale is positive, and
/// then exactly one, followed by as many digits as the scale.
pub open spec fn point_shape(t: Seq<char>, scale: nat) -> bool {
    if scale == 0 {
        forall|j: int| 0 <= j < t.len() ==> t[j] != '.'
    } else {
        &&& t.len() >= scale + 1
        &&& t[t.len() - scale - 1] == '.'
        &&& forall|j: int| 0 <= j < t.len() && j != t.len() - scale - 1 ==> t[j] != '.'
    }
}

/// `rust_decimal`'s `Display`, which writes the digits of the mantissa with
/// a point before the last `scale` of them (a `-` first when negative), and
/// whose text `FromStr` reads back as the same mantissa and scale: every digit
/// after the point counts one place of scale, and a mantissa within 96 bits at
/// a scale of at most 28 is read without rounding.
#[verifier::external_body]
pub(crate) fn dec_to_string(a: Dec) -> (r: String)
    requires
        a.wf(),
    ensures
        r@ == decimal_text(a.mantissa as int, a.scale as int),
        point_shape(r@, a.scale as nat),
        decimal_from_text(r@) == Some((a.mantissa as int, a.scale as int)),
{
    Decimal::from_i128_with_scale(a.mantissa, a.scale).to_string()
}

/// `rust_decimal`'s `FromStr`.
#[verifier::external_body]
pub(crate) fn dec_parse(text: &str) -> (r: Option<Dec>)
    ensures
        r == (match decimal_from_text(text@) {
            Some(parts) => Some(dec_of(parts)),
            None => None,
        }),
        r matches Some(d) ==> d.wf(),
{
    match text.parse::<Decimal>() {
        Ok(x) => Some(Dec { mantissa: x.mantissa(), scale: x.scale() }),
        Err(_) => None,
    }
}


/// Every power of ten is at least one.
pub proof fn lemma_pow10_positive(n: nat)
    ensures
        pow10(n) >= 1,
    decreases n,
{
    if n > 0 {
        lemma_pow10_positive((n - 1) as nat);
    }
}

/// `10^(a+b) = 10^a * 10^b`.
pub proof fn lemma_pow10_add(a: nat, b: nat)
    ensures
        pow10(a + b) == pow10(a) * pow10(b),
    decreases b,
{
    if b > 0 {
        lemma_pow10_add(a, (b - 1) as nat);
        assert((a + b - 1) as nat == a + (b - 1) as nat);
        assert(pow10(a + b) == 10 * pow10((a + b - 1) as nat));
        assert(pow10(a) * pow10(b) == pow10(a) * (10 * pow10((b - 1) as nat)));
        assert(pow10(a) * (10 * pow10((b - 1) as nat)) == 10 * (pow10(a) * pow10((b - 1) as nat)))
            by (nonlinear_arith);
        assert(pow10((a + b - 1) as nat) == pow10(a) * pow10((b - 1) as nat));
    } else {
        assert(a + b == a);
        assert(pow10(b) == 1);
        assert(pow10(a) * 1 == pow10(a));
    }
}

/// Powers of ten grow with the exponent.
pub proof fn lemma_pow10_monotone(a: nat, b: nat)
    requires
        a <= b,
    ensures
        pow10(a) <= pow10(b),
{
    lemma_pow10_add(a, (b - a) as nat);
    lemma_pow10_positive((b - a) as nat);
    lemma_pow10_positive(a);
    assert(pow10(a) * 1 <= pow10(a) * pow10((b - a) as nat)) by (nonlinear_arith)
        requires
            pow10((b - a) as nat) >= 1,
            pow10(a) >= 1,
    ;
}

/// The bound on a mantissa is the twenty-eighth power of ten.
pub proof fn lemma_unit()
    ensures
        pow10(28) == unit(),
{
    reveal_with_fuel(pow10, 29);
    assert(pow10(28) == 10000000000000000000000000000);
}

/// The integer view of a representable decimal is bounded by `max_mantissa() * unit()`.
pub proof fn lemma_value_bound(a: Dec)
    requires
        a.wf(),
    ensures
        abs_int(a@) <= max_mantissa() * unit(),
        a.scale == 0 ==> a@ == a.mantissa * unit(),
{
    lemma_unit();
    lemma_pow10_monotone((28 - a.scale) as nat, 28);
    lemma_pow10_positive((28 - a.scale) as nat);
    let p = pow10((28 - a.scale) as nat) as int;
    let m = a.mantissa as int;
    assert(abs_int(m * p) <= max_mantissa() * unit()) by (nonlinear_arith)
        requires
            1 <= p <= unit(),
            -max_mantissa() <= m <= max_mantissa(),
            max_mantissa() > 0,
    ;
}

/// Stripping trailing zeros keeps the value and the representability.
pub proof fn lemma_normalized(m: int, s: nat)
    requires
        s <= 28,
        -max_mantissa() <= m <= max_mantissa(),
    ensures
        normalized_parts(m, s).1 <= s,
        -max_mantissa() <= normalized_parts(m, s).0 <= max_mantissa(),
        normalized_parts(m, s).0 * pow10((28 - normalized_parts(m, s).1) as nat) == m * pow10(
            (28 - s) as nat,
        ),
        normalized_parts(m, s).1 > 0 ==> normalized_parts(m, s).0 % 10 != 0,
    decreases s,
{
    if s > 0 && m % 10 == 0 {
        let m2 = m / 10;
        assert(m == m2 * 10);
        assert(-max_mantissa() <= m2 <= max_mantissa());
        lemma_normalized(m2, (s - 1) as nat);
        assert(pow10((28 - (s - 1)) as nat) == 10 * pow10((28 - s) as nat));
        assert(m2 * (10 * pow10((28 - s) as nat)) == (m2 * 10) * pow10((28 - s) as nat))
            by (nonlinear_arith);
    }
}

/// Dropping trailing zeros keeps a decimal well formed and keeps its value.
pub proof fn lemma_normalized_of(a: Dec)
    requires
        a.wf(),
    ensures
        normalized_of(a).wf(),
        normalized_of(a)@ == a@,
        normalized_of(a).scale <= a.scale,
{
    lemma_normalized(a.mantissa as int, a.scale as nat);
}

/// Bankers' rounding never grows the magnitude beyond one more than the truncation.
pub proof fn lemma_round_dp_of(a: Dec, dp: nat)
    requires
        a.wf(),
    ensures
        round_dp_of(a, dp).wf(),
        round_dp_of(a, dp).scale <= a.scale,
        round_dp_of(a, dp).scale <= dp || round_dp_of(a, dp) == a,
{
    if a.scale > dp {
        let drop = (a.scale - dp) as nat;
        lemma_pow10_monotone(1, drop);
        let d = pow10(drop) as int;
        let mag = abs_int(a.mantissa as int);
        assert(d >= 10) by {
            reveal_with_fuel(pow10, 2);
            assert(pow10(1) == 10);
        }
        let q = mag / d;
        assert(q * d <= mag) by (nonlinear_arith)
            requires
                q == mag / d,
                d > 0,
                mag >= 0,
        ;
        assert(q * 10 <= mag) by (nonlinear_arith)
            requires
                q * d <= mag,
                d >= 10,
                q >= 0,
        ;
    }
}

/// A representable decimal whose magnitude is at most `b` in the integer view.
pub open spec fn within(d: Dec, b: int) -> bool {
    d.wf() && abs_int(d@) <= b
}

/// `|d|` as `abs` gives it: the mantissa's sign dropped, the scale kept.
pub open spec fn abs_spec(d: Dec) -> Dec {
    if d.mantissa < 0 {
        Dec { mantissa: (-d.mantissa) as i128, scale: d.scale }
    } else {
        d
    }
}

/// A product's magnitude is at most the product of bounds on its factors.
pub proof fn lemma_mul_abs_bound(x: int, y: int, bx: int, by: int)
    requires
        abs_int(x) <= bx,
        abs_int(y) <= by,
    ensures
        abs_int(x * y) <= bx * by,
        abs_int(x * y) == abs_int(x) * abs_int(y),
{
    assert(abs_int(x * y) == abs_int(x) * abs_int(y)) by (nonlinear_arith);
    assert(abs_int(x) * abs_int(y) <= bx * by) by (nonlinear_arith)
        requires
            0 <= abs_int(x) <= bx,
            0 <= abs_int(y) <= by,
    ;
}

/// `a + b` with a bound on the result's magnitude.
pub(crate) fn add_within(a: Dec, b: Dec, Ghost(ba): Ghost<int>, Ghost(bb): Ghost<int>) -> (r: Dec)
    requires
        within(a, ba),
        within(b, bb),
        ba + bb <= safe_limit(),
    ensures
        r == sum_of(a, b),
        within(r, ba + bb + unit()),
        fits_at(a@ + b@, max_nat(a.scale as nat, b.scale as nat)) ==> r@ == a@ + b@,
{
    dec_add(a, b)
}

/// `a - b` with a bound on the result's magnitude.
pub(crate) fn sub_within(a: Dec, b: Dec, Ghost(ba): Ghost<int>, Ghost(bb): Ghost<int>) -> (r: Dec)
    requires
        within(a, ba),
        within(b, bb),
        ba + bb <= safe_limit(),
    ensures
        r == difference_of(a, b),
        within(r, ba + bb + unit()),
        fits_at(a@ - b@, max_nat(a.scale as nat, b.scale as nat)) ==> r@ == a@ - b@,
{
    dec_sub(a, b)
}

/// A decimal of at most 12 places and magnitude at most `10^12` units.
pub open spec fn fine(d: Dec) -> bool {
    d.wf() && d.scale <= 12 && abs_int(d@) <= 1000000000000 * unit()
}

/// The value of a decimal is a whole multiple of the unit of any scale at least its own.
pub proof fn lemma_value_multiple(a: Dec, s: nat)
    requires
        a.wf(),
        a.scale <= s <= 28,
    ensures
        a@ == (a.mantissa * pow10((s - a.scale) as nat)) * pow10((28 - s) as nat),
{
    lemma_pow10_add((28 - s) as nat, (s - a.scale) as nat);
    assert((28 - s) as nat + (s - a.scale) as nat == (28 - a.scale) as nat);
    let p1 = pow10((s - a.scale) as nat) as int;
    let p2 = pow10((28 - s) as nat) as int;
    assert(a.mantissa * (p2 * p1) == (a.mantissa * p1) * p2) by (nonlinear_arith);
}

/// Sums and differences of fine decimals are exact.
pub proof fn lemma_fine_fits(a: Dec, b: Dec)
    requires
        fine(a),
        fine(b),
    ensures
        fits_at(a@ + b@, max_nat(a.scale as nat, b.scale as nat)),
        fits_at(a@ - b@, max_nat(a.scale as nat, b.scale as nat)),
{
    let s = max_nat(a.scale as nat, b.scale as nat);
    lemma_value_multiple(a, s);
    lemma_value_multiple(b, s);
    let d = pow10((28 - s) as nat) as int;
    lemma_pow10_monotone(16, (28 - s) as nat);
    reveal_with_fuel(pow10, 17);
    assert(pow10(16) == 10000000000000000);
    let ka = a.mantissa * pow10((s - a.scale) as nat);
    let kb = b.mantissa * pow10((s - b.scale) as nat);
    assert(a@ + b@ == (ka + kb) * d) by (nonlinear_arith)
        requires
            a@ == ka * d,
            b@ == kb * d,
    ;
    assert(a@ - b@ == (ka - kb) * d) by (nonlinear_arith)
        requires
            a@ == ka * d,
            b@ == kb * d,
    ;
    vstd::arithmetic::div_mod::lemma_mod_multiples_basic(ka + kb, d);
    vstd::arithmetic::div_mod::lemma_mod_multiples_basic(ka - kb, d);
    vstd::arithmetic::div_mod::lemma_div_multiples_vanish(ka + kb, d);
    vstd::arithmetic::div_mod::lemma_div_multiples_vanish(ka - kb, d);
    assert((ka + kb) * d == d * (ka + kb)) by (nonlinear_arith);
    assert((ka - kb) * d == d * (ka - kb)) by (nonlinear_arith);
    assert(abs_int(ka + kb) <= 2000000000000000000000000) by (nonlinear_arith)
        requires
            abs_int((ka + kb) * d) <= 2 * 1000000000000 * unit(),
            d >= 10000000000000000,
    ;
    assert(abs_int(ka - kb) <= 2000000000000000000000000) by (nonlinear_arith)
        requires
            abs_int((ka - kb) * d) <= 2 * 1000000000000 * unit(),
            d >= 10000000000000000,
    ;
}

/// `a * b` with a bound on the result's magnitude.
pub(crate) fn mul_within(
    a: Dec,
    b: Dec,
    Ghost(ba): Ghost<int>,
    Ghost(bb): Ghost<int>,
    Ghost(target): Ghost<int>,
) -> (r: Dec)
    requires
        within(a, ba),
        within(b, bb),
        ba * bb <= safe_limit() * unit(),
        ba * bb + unit() * unit() <= target * unit(),
    ensures
        r == product_of(a, b),
        within(r, target),
{
    proof {
        lemma_mul_abs_bound(a@, b@, ba, bb);
    }
    let r = dec_mul(a, b);
    proof {
        let u = unit();
        let k = ba * bb;
        assert(abs_int(r@) * u <= k + u * u);
        assert(abs_int(r@) <= target) by (nonlinear_arith)
            requires
                abs_int(r@) * u <= k + u * u,
                k + u * u <= target * u,
                u > 0,
        ;
    }
    r
}

/// `a / b` with a bound on the result's magnitude.
pub(crate) fn div_within(
    a: Dec,
    b: Dec,
    Ghost(ba): Ghost<int>,
    Ghost(db): Ghost<int>,
    Ghost(target): Ghost<int>,
) -> (r: Dec)
    requires
        within(a, ba),
        b.wf(),
        abs_int(b@) >= db,
        db > 0,
        ba * unit() <= safe_limit() * db,
        ba * unit() + unit() * db <= target * db,
    ensures
        r == quotient_of(a, b),
        within(r, target),
{
    proof {
        let u = unit();
        assert(abs_int(a@) * u <= ba * u) by (nonlinear_arith)
            requires
                abs_int(a@) <= ba,
                u > 0,
        ;
        assert(safe_limit() * db <= safe_limit() * abs_int(b@)) by (nonlinear_arith)
            requires
                abs_int(b@) >= db,
                safe_limit() > 0,
        ;
    }
    let r = dec_div(a, b);
    proof {
        let u = unit();
        let bb = abs_int(b@);
        let rr = abs_int(r@);
        let k = ba * u;
        lemma_mul_abs_bound(r@, b@, rr, bb);
        lemma_mul_abs_bound(a@, u, ba, u);
        assert(abs_int(a@) * u <= ba * u) by (nonlinear_arith)
            requires
                abs_int(a@) <= ba,
                u > 0,
        ;
        assert(rr * bb <= k + u * bb);
        assert(rr <= target) by (nonlinear_arith)
            requires
                rr * bb <= k + u * bb,
                k + u * db <= target * db,
                bb >= db,
                db > 0,
                u > 0,
                rr >= 0,
                k >= 0,
        ;
    }
    r
}

/// `a + b`, for callers that know either bounds on the operands (`bounded`)
/// or only that the exact sum is representable.
pub(crate) fn add_either(a: Dec, b: Dec, Ghost(bounded): Ghost<bool>, Ghost(ba): Ghost<int>, Ghost(bb): Ghost<int>) -> (r: Dec)
    requires
        a.wf(),
        b.wf(),
        bounded ==> within(a, ba) && within(b, bb) && ba + bb <= safe_limit(),
        !bounded ==> abs_int(a@ + b@) <= safe_limit(),
    ensures
        r == sum_of(a, b),
        r.wf(),
        bounded ==> within(r, ba + bb + unit()),
        -unit() <= r@ - (a@ + b@) <= unit(),
        fits_at(a@ + b@, max_nat(a.scale as nat, b.scale as nat)) ==> r@ == a@ + b@,
{
    dec_add(a, b)
}

/// `a - b`, for callers that know either bounds on the operands (`bounded`)
/// or only that the exact difference is representable.
pub(crate) fn sub_either(a: Dec, b: Dec, Ghost(bounded): Ghost<bool>, Ghost(ba): Ghost<int>, Ghost(bb): Ghost<int>) -> (r: Dec)
    requires
        a.wf(),
        b.wf(),
        bounded ==> within(a, ba) && within(b, bb) && ba + bb <= safe_limit(),
        !bounded ==> abs_int(a@ - b@) <= safe_limit(),
    ensures
        r == difference_of(a, b),
        r.wf(),
        bounded ==> within(r, ba + bb + unit()),
        fits_at(a@ - b@, max_nat(a.scale as nat, b.scale as nat)) ==> r@ == a@ - b@,
{
    dec_sub(a, b)
}

/// `a * b`, for callers that know either bounds on the operands (`bounded`)
/// or only that the exact product is representable.
pub(crate) fn mul_either(
    a: Dec,
    b: Dec,
    Ghost(bounded): Ghost<bool>,
    Ghost(ba): Ghost<int>,
    Ghost(bb): Ghost<int>,
    Ghost(target): Ghost<int>,
) -> (r: Dec)
    requires
        a.wf(),
        b.wf(),
        bounded ==> within(a, ba) && within(b, bb) && ba * bb <= safe_limit() * unit() && ba * bb + unit() * unit()
            <= target * unit(),
        !bounded ==> abs_int(a@ * b@) <= safe_limit() * unit(),
    ensures
        r == product_of(a, b),
        r.wf(),
        bounded ==> within(r, target),
{
    proof {
        if bounded {
            lemma_mul_abs_bound(a@, b@, ba, bb);
        }
    }
    let r = dec_mul(a, b);
    proof {
        if bounded {
            let u = unit();
            let k = ba * bb;
            assert(abs_int(r@) * u <= k + u * u);
            assert(abs_int(r@) <= target) by (nonlinear_arith)
                requires
                    abs_int(r@) * u <= k + u * u,
                    k + u * u <= target * u,
                    u > 0,
            ;
        }
    }
    r
}

/// Rounding moves a value by less than one whole unit.
pub proof fn lemma_round_dp_bound(a: Dec, dp: nat)
    requires
        a.wf(),
    ensures
        abs_int(round_dp_of(a, dp)@) <= abs_int(a@) + unit(),
{
    lemma_unit();
    if a.scale > dp {
        let s = a.scale as nat;
        let drop = (s - dp) as nat;
        let d = pow10(drop) as int;
        let pp = pow10((28 - s) as nat) as int;
        let m = a.mantissa as int;
        let mag = abs_int(m);
        let q = mag / d;
        let r = round_dp_of(a, dp);
        lemma_pow10_positive(drop);
        lemma_pow10_positive((28 - s) as nat);
        lemma_pow10_add((28 - s) as nat, drop);
        assert((28 - s) as nat + drop == (28 - dp) as nat);
        let pd = pow10((28 - dp) as nat) as int;
        assert(pd == pp * d);
        lemma_pow10_positive((28 - dp) as nat);
        lemma_pow10_monotone((28 - dp) as nat, 28);
        let q2 = abs_int(r.mantissa as int);
        assert(q2 <= q + 1);
        assert(q * d <= mag) by (nonlinear_arith)
            requires
                q == mag / d,
                d > 0,
                mag >= 0,
        ;
        lemma_mul_abs_bound(r.mantissa as int, pd, q2, pd);
        lemma_mul_abs_bound(m, pp, mag, pp);
        assert(q2 * pd <= (q + 1) * (pp * d)) by (nonlinear_arith)
            requires
                q2 <= q + 1,
                pd == pp * d,
                pd > 0,
                q2 >= 0,
        ;
        assert((q + 1) * (pp * d) == (q * d) * pp + pd) by (nonlinear_arith)
            requires
                pd == pp * d,
        ;
        assert((q * d) * pp <= mag * pp) by (nonlinear_arith)
            requires
                q * d <= mag,
                pp > 0,
        ;
    }
}

/// Rounding half to even keeps a mantissa at or below `k` when it was at or
/// below `k * 10^drop`.
pub proof fn lemma_banker_round_at_most(m: int, drop: nat, k: int)
    requires
        m <= k * pow10(drop),
    ensures
        banker_round_mantissa(m, drop) <= k,
{
    lemma_pow10_positive(drop);
    let d = pow10(drop) as int;
    let mag = abs_int(m);
    let q = mag / d;
    let rem = mag % d;
    vstd::arithmetic::div_mod::lemma_fundamental_div_mod(mag, d);
    vstd::arithmetic::div_mod::lemma_mod_pos_bound(mag, d);
    if m < 0 {
        if q < -k {
            assert(mag < (-k) * d) by (nonlinear_arith)
                requires
                    mag == d * q + rem,
                    rem < d,
                    q + 1 <= -k,
                    d > 0,
            ;
            assert(mag >= (-k) * d) by (nonlinear_arith)
                requires
                    mag == -m,
                    m <= k * d,
            ;
        }
    } else {
        if q > k {
            assert(mag >= (k + 1) * d) by (nonlinear_arith)
                requires
                    mag == d * q + rem,
                    rem >= 0,
                    q >= k + 1,
                    d > 0,
            ;
            assert(k * d < (k + 1) * d) by (nonlinear_arith)
                requires
                    d > 0,
            ;
        }
        if q == k {
            assert(rem == 0) by (nonlinear_arith)
                requires
                    mag == d * q + rem,
                    q == k,
                    mag == m,
                    m <= k * d,
                    rem >= 0,
            ;
        }
    }
}

/// Rounding to `dp` places never carries a value past a bound that has at
/// most `dp` places.
pub proof fn lemma_round_dp_at_most(a: Dec, dp: nat, t: Dec)
    requires
        a.wf(),
        t.wf(),
        t.scale <= dp <= 28,
        a@ <= t@,
    ensures
        round_dp_of(a, dp)@ <= t@,
{
    if a.scale > dp {
        let s = a.scale as nat;
        let drop = (s - dp) as nat;
        let d = pow10(drop) as int;
        let pp = pow10((28 - s) as nat) as int;
        let pd = pow10((28 - dp) as nat) as int;
        lemma_pow10_positive(drop);
        lemma_pow10_positive((28 - s) as nat);
        lemma_pow10_positive((28 - dp) as nat);
        lemma_pow10_add((28 - s) as nat, drop);
        assert((28 - s) as nat + drop == (28 - dp) as nat);
        assert(pd == pp * d);
        lemma_value_multiple(t, dp);
        let k = t.mantissa * pow10((dp - t.scale) as nat);
        let m = a.mantissa as int;
        assert(m <= k * d) by (nonlinear_arith)
            requires
                m * pp <= (k * pd),
                pd == pp * d,
                pp > 0,
        ;
        lemma_banker_round_at_most(m, drop, k);
        lemma_round_dp_of(a, dp);
        let r = round_dp_of(a, dp);
        assert(r.mantissa * pd <= k * pd) by (nonlinear_arith)
            requires
                r.mantissa <= k,
                pd > 0,
        ;
    }
}

/// A sum of decimals with at most twenty-five places keeps a value that is
/// at most zero at most zero: the sum is exact when it fits at the larger
/// scale, and when it does not, its exact value lies far below one whole
/// unit under zero while the sum is off by at most one unit.
pub proof fn lemma_sum_at_most_zero(a: Dec, b: Dec, r: Dec)
    requires
        a.wf(),
        b.wf(),
        a.scale <= 25,
        b.scale <= 25,
        a@ + b@ <= 0,
        fits_at(a@ + b@, max_nat(a.scale as nat, b.scale as nat)) ==> r@ == a@ + b@,
        r@ - (a@ + b@) <= unit(),
    ensures
        r@ <= 0,
{
    let s = max_nat(a.scale as nat, b.scale as nat);
    let v = a@ + b@;
    if !fits_at(v, s) {
        lemma_value_multiple(a, s);
        lemma_value_multiple(b, s);
        let p = pow10((28 - s) as nat) as int;
        lemma_pow10_monotone(3, (28 - s) as nat);
        assert(pow10(3) == 1000) by {
            reveal_with_fuel(pow10, 4);
        }
        let ka = a.mantissa * pow10((s - a.scale) as nat);
        let kb = b.mantissa * pow10((s - b.scale) as nat);
        assert(v == (ka + kb) * p) by (nonlinear_arith)
            requires
                a@ == ka * p,
                b@ == kb * p,
                v == a@ + b@,
        ;
        vstd::arithmetic::div_mod::lemma_mod_multiples_basic(ka + kb, p);
        vstd::arithmetic::div_mod::lemma_div_multiples_vanish(ka + kb, p);
        assert((ka + kb) * p == p * (ka + kb)) by (nonlinear_arith);
        assert(ka + kb <= 0) by (nonlinear_arith)
            requires
                v == (ka + kb) * p,
                v <= 0,
                p > 0,
        ;
        assert(ka + kb < -max_mantissa());
        assert(v < -unit()) by (nonlinear_arith)
            requires
                v == (ka + kb) * p,
                ka + kb < -max_mantissa(),
                p >= 1000,
        ;
    }
}

impl Dec {
    pub open spec fn zero_spec() -> Dec {
        Dec { mantissa: 0, scale: 0 }
    }

    /// `Decimal::new(num, scale)`.
    pub fn new(num: i64, scale: u32) -> (r: Dec)
        requires
            scale <= 28,
        ensures
            r.mantissa == num,
            r.scale == scale,
            r.wf(),
    {
        Dec { mantissa: num as i128, scale }
    }

    /// `Decimal::ZERO`.
    pub fn zero() -> (r: Dec)
        ensures
            r == Dec::zero_spec(),
            r.mantissa == 0,
            r.scale == 0,
            r.wf(),
            r@ == 0,
    {
        Dec { mantissa: 0, scale: 0 }
    }

    /// `Decimal::ONE`.
    pub fn one() -> (r: Dec)
        ensures
            r.mantissa == 1,
            r.scale == 0,
            r.wf(),
            r@ == unit(),
    {
        proof {
            lemma_unit();
        }
        Dec { mantissa: 1, scale: 0 }
    }

    pub open spec fn from_u64_spec(n: u64) -> Dec {
        Dec { mantissa: n as i128, scale: 0 }
    }

    /// `Decimal::from(n)` for an unsigned integer.
    pub fn from_u64(n: u64) -> (r: Dec)
        ensures
            r == Dec::from_u64_spec(n),
            r.mantissa == n,
            r.scale == 0,
            r.wf(),
            r@ == n * unit(),
    {
        proof {
            lemma_unit();
        }
        Dec { mantissa: n as i128, scale: 0 }
    }

    /// `-self`.
    pub fn neg(&self) -> (r: Dec)
        requires
            self.wf(),
        ensures
            r.mantissa == -self.mantissa,
            r.scale == self.scale,
            r.wf(),
            r@ == -self@,
    {
        let r = Dec { mantissa: -self.mantissa, scale: self.scale };
        proof {
            let p = pow10((28 - self.scale) as nat) as int;
            assert((-self.mantissa) * p == -(self.mantissa * p)) by (nonlinear_arith);
        }
        r
    }

    /// `self.abs()`.
    pub fn abs(&self) -> (r: Dec)
        requires
            self.wf(),
        ensures
            r == abs_spec(*self),
            r.wf(),
            r.scale == self.scale,
            r@ == abs_int(self@),
    {
        if self.mantissa < 0 {
            proof {
                lemma_pow10_positive((28 - self.scale) as nat);
                let p = pow10((28 - self.scale) as nat) as int;
                assert(self.mantissa * p < 0) by (nonlinear_arith)
                    requires
                        self.mantissa < 0,
                        p >= 1,
                ;
            }
            self.neg()
        } else {
            proof {
                lemma_pow10_positive((28 - self.scale) as nat);
                let p = pow10((28 - self.scale) as nat) as int;
                assert(self.mantissa * p >= 0) by (nonlinear_arith)
                    requires
                        self.mantissa >= 0,
                        p >= 1,
                ;
            }
            *self
        }
    }



    /// Whether the decimal is representable: scale at most 28, mantissa within 96 bits.
    pub fn is_wf(&self) -> (r: bool)
        ensures
            r == self.wf(),
    {
        self.scale <= 28 && -79228162514264337593543950335i128 <= self.mantissa && self.mantissa
            <= 79228162514264337593543950335i128
    }

    /// Whether the decimal is representable and at most `bound` whole units in magnitude.
    pub fn is_within(&self, bound: u64) -> (r: bool)
        ensures
            r == within(*self, bound * unit()),
    {
        proof {
            lemma_unit();
        }
        if !self.is_wf() {
            return false;
        }
        let limit = Dec { mantissa: bound as i128, scale: 0 };
        self.abs().at_most(&limit)
    }

    /// `self.is_zero()`.
    pub fn is_zero(&self) -> (r: bool)
        requires
            self.wf(),
        ensures
            r == (self@ == 0),
    {
        proof {
            Dec::lemma_sign(*self);
        }
        self.mantissa == 0
    }

    /// The sign of the value follows the sign of the mantissa.
    pub proof fn lemma_sign(a: Dec)
        requires
            a.wf(),
        ensures
            (a@ > 0) == (a.mantissa > 0),
            (a@ < 0) == (a.mantissa < 0),
            (a@ == 0) == (a.mantissa == 0),
    {
        lemma_pow10_positive((28 - a.scale) as nat);
        let p = pow10((28 - a.scale) as nat) as int;
        let m = a.mantissa as int;
        assert(m > 0 ==> m * p > 0) by (nonlinear_arith)
            requires
                p >= 1,
        ;
        assert(m < 0 ==> m * p < 0) by (nonlinear_arith)
            requires
                p >= 1,
        ;
    }

    /// `self.signum()`: `1`, `-1` or `0` at scale 0.
    pub fn signum(&self) -> (r: Dec)
        requires
            self.wf(),
        ensures
            r.wf(),
            r.scale == 0,
            r.mantissa == (if self@ > 0 {
                1int
            } else if self@ < 0 {
                -1int
            } else {
                0int
            }),
    {
        proof {
            Dec::lemma_sign(*self);
        }
        if self.mantissa > 0 {
            Dec { mantissa: 1, scale: 0 }
        } else if self.mantissa < 0 {
            Dec { mantissa: -1, scale: 0 }
        } else {
            Dec { mantissa: 0, scale: 0 }
        }
    }

    /// `self < other`.
    pub fn less_than(&self, other: &Dec) -> (r: bool)
        requires
            self.wf(),
            other.wf(),
        ensures
            r == (self@ < other@),
    {
        dec_lt(*self, *other)
    }

    /// `self <= other`.
    pub fn at_most(&self, other: &Dec) -> (r: bool)
        requires
            self.wf(),
            other.wf(),
        ensures
            r == (self@ <= other@),
    {
        !dec_lt(*other, *self)
    }

    /// `self == other`: equal values, whatever the scales.
    pub fn same_value(&self, other: &Dec) -> (r: bool)
        requires
            self.wf(),
            other.wf(),
        ensures
            r == (self@ == other@),
    {
        !dec_lt(*self, *other) && !dec_lt(*other, *self)
    }

    /// `self.max(other)`: `other` when `self < other`, else `self`.
    pub fn max(&self, other: &Dec) -> (r: Dec)
        requires
            self.wf(),
            other.wf(),
        ensures
            r == (if self@ < other@ {
                *other
            } else {
                *self
            }),
    {
        if dec_lt(*self, *other) {
            *other
        } else {
            *self
        }
    }

    /// `self.min(other)`: `other` when `self > other`, else `self`.
    pub fn min(&self, other: &Dec) -> (r: Dec)
        requires
            self.wf(),
            other.wf(),
        ensures
            r == (if self@ > other@ {
                *other
            } else {
                *self
            }),
    {
        if dec_lt(*other, *self) {
            *other
        } else {
            *self
        }
    }
}

impl PartialEq for Dec {
    fn eq(&self, other: &Dec) -> (r: bool) {
        if self.scale <= 28 && other.scale <= 28 && -79228162514264337593543950335i128 <= self.mantissa
            && self.mantissa <= 79228162514264337593543950335i128 && -79228162514264337593543950335i128
            <= other.mantissa && other.mantissa <= 79228162514264337593543950335i128 {
            !dec_lt(*self, *other) && !dec_lt(*other, *self)
        } else {
            self.mantissa == other.mantissa && self.scale == other.scale
        }
    }
}

impl vstd::std_specs::cmp::PartialEqSpecImpl for Dec {
    open spec fn obeys_eq_spec() -> bool {
        true
    }

    open spec fn eq_spec(&self, other: &Dec) -> bool {
        if self.wf() && other.wf() {
            self@ == other@
        } else {
            self.mantissa == other.mantissa && self.scale == other.scale
        }
    }
}

} // verus!
