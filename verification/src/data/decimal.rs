use vstd::prelude::*;

use crate::error::ValidationError;
use crate::text::{digits_value, is_ascii_digit};

verus! {

/// Largest magnitude of a decimal mantissa: 2^96 - 1.
pub const MAX_MANTISSA: i128 = 79228162514264337593543950335i128;

/// Largest number of decimal places a decimal may carry.
pub const MAX_SCALE: u32 = 28u32;

/// Bound below which a mantissa has at most 64 bits of magnitude.
pub const TWO_POW_64: i128 = 18446744073709551616i128;

/// `10^n`.
pub open spec fn pow10(n: nat) -> int
    decreases n,
{
    if n == 0 {
        1
    } else {
        10 * pow10((n - 1) as nat)
    }
}

/// Integer division rounding toward zero.
pub open spec fn trunc_div(m: int, d: int) -> int {
    if m >= 0 {
        m / d
    } else {
        -((-m) / d)
    }
}

/// Whether an integer fits an `i64`.
pub open spec fn fits_i64(x: int) -> bool {
    i64::MIN <= x <= i64::MAX
}

/// Whether the decimals `a` and `b`, as mantissa and scale, denote the same number.
pub open spec fn same_value(a: (int, nat), b: (int, nat)) -> bool {
    a.0 * pow10(b.1) == b.0 * pow10(a.1)
}

/// Whether a mantissa has at most 64 bits of magnitude.
pub open spec fn small_mantissa(m: int) -> bool {
    -TWO_POW_64 < m < TWO_POW_64
}

/// Whether a mantissa can be multiplied by 10 000 within 96 bits.
pub open spec fn fits_scaling(m: int) -> bool {
    -MAX_MANTISSA <= m * 10000 <= MAX_MANTISSA
}

/// A plain decimal text: a minus sign when `negative`, the digits `whole`,
/// then, when `frac` is not empty, a point and the digits `frac`.
pub open spec fn plain_text(negative: bool, whole: Seq<char>, frac: Seq<char>) -> Seq<char> {
    (if negative {
        seq!['-']
    } else {
        Seq::empty()
    }) + whole + (if frac.len() > 0 {
        seq!['.'] + frac
    } else {
        Seq::empty()
    })
}

/// Whether `whole` and `frac` are digits, at least one before the point and
/// at most 28 in all.
pub open spec fn plain_parts(whole: Seq<char>, frac: Seq<char>) -> bool {
    &&& whole.len() > 0
    &&& whole.len() + frac.len() <= 28
    &&& forall|i: int| 0 <= i < whole.len() ==> is_ascii_digit(#[trigger] whole[i])
    &&& forall|i: int| 0 <= i < frac.len() ==> is_ascii_digit(#[trigger] frac[i])
}

/// The mantissa and scale that a plain decimal text writes.
pub open spec fn plain_value(negative: bool, whole: Seq<char>, frac: Seq<char>) -> (int, nat) {
    let m = digits_value(whole + frac);
    (if negative {
        -m
    } else {
        m
    }, frac.len())
}

/// The ten-thousandths that a plain decimal text with at most four decimal
/// places writes.
pub open spec fn plain_units(negative: bool, whole: Seq<char>, frac: Seq<char>) -> int {
    plain_value(negative, whole, frac).0 * pow10((4 - frac.len()) as nat)
}

/// What `rust_decimal::Decimal::checked_add` returns, as mantissa and scale.
pub uninterp spec fn decimal_add(a: (int, nat), b: (int, nat)) -> Option<(int, nat)>;

/// What `rust_decimal::Decimal::checked_sub` returns, as mantissa and scale.
pub uninterp spec fn decimal_sub(a: (int, nat), b: (int, nat)) -> Option<(int, nat)>;

/// What `rust_decimal::Decimal::checked_mul` returns, as mantissa and scale.
pub uninterp spec fn decimal_mul(a: (int, nat), b: (int, nat)) -> Option<(int, nat)>;

/// What `rust_decimal::Decimal::checked_div` returns, as mantissa and scale.
pub uninterp spec fn decimal_div(a: (int, nat), b: (int, nat)) -> Option<(int, nat)>;

/// What `<rust_decimal::Decimal as FromStr>::from_str` returns on success, as mantissa and scale.
pub uninterp spec fn decimal_parse(s: Seq<char>) -> Option<(int, nat)>;

/// The text that `<rust_decimal::Decimal as Display>::fmt` writes.
pub uninterp spec fn decimal_text(d: (int, nat)) -> Seq<char>;

/// A fixed-point decimal number `mantissa / 10^scale`, with a mantissa of at
/// most 96 bits and at most 28 decimal places.
#[derive(Clone, Copy, Debug)]
pub struct Decimal {
    mantissa: i128,
    scale: u32,
}

/// The mantissa and scale of a decimal, if there is one.
pub open spec fn option_view(d: Option<Decimal>) -> Option<(int, nat)> {
    match d {
        Some(d) => Some(d@),
        None => None,
    }
}

impl View for Decimal {
    type V = (int, nat);

    open spec fn view(&self) -> (int, nat) {
        (self.spec_mantissa(), self.spec_scale())
    }
}

/// Calls `rust_decimal::Decimal::checked_add`. Its result is named; when both
/// operands share a scale and fit in 64 bits the sum is exact and keeps that scale.
#[verifier::external_body]
pub(crate) fn outside_checked_add(a: Decimal, b: Decimal) -> (r: Option<Decimal>)
    ensures
        option_view(r) == decimal_add(a@, b@),
        a@.1 == b@.1 && small_mantissa(a@.0) && small_mantissa(b@.0) ==> option_view(r)
            == Some((a@.0 + b@.0, a@.1)),
{
    let x = rust_decimal::Decimal::from_i128_with_scale(a.mantissa, a.scale);
    let y = rust_decimal::Decimal::from_i128_with_scale(b.mantissa, b.scale);
    match x.checked_add(y) {
        Some(d) => Some(Decimal { mantissa: d.mantissa(), scale: d.scale() }),
        None => None,
    }
}

/// Calls `rust_decimal::Decimal::checked_sub`. Its result is named; when both
/// operands share a scale and fit in 64 bits the difference is exact and keeps that scale.
#[verifier::external_body]
pub(crate) fn outside_checked_sub(a: Decimal, b: Decimal) -> (r: Option<Decimal>)
    ensures
        option_view(r) == decimal_sub(a@, b@),
        a@.1 == b@.1 && small_mantissa(a@.0) && small_mantissa(b@.0) ==> option_view(r)
            == Some((a@.0 - b@.0, a@.1)),
{
    let x = rust_decimal::Decimal::from_i128_with_scale(a.mantissa, a.scale);
    let y = rust_decimal::Decimal::from_i128_with_scale(b.mantissa, b.scale);
    match x.checked_sub(y) {
        Some(d) => Some(Decimal { mantissa: d.mantissa(), scale: d.scale() }),
        None => None,
    }
}

/// Calls `rust_decimal::Decimal::checked_mul`. Its result is named; when the
/// product fits in 96 bits and the scales add up to at most 28, the product is
/// exact (zero comes back with scale 0).
#[verifier::external_body]
pub(crate) fn outside_checked_mul(a: Decimal, b: Decimal) -> (r: Option<Decimal>)
    ensures
        option_view(r) == decimal_mul(a@, b@),
        -MAX_MANTISSA <= a@.0 * b@.0 <= MAX_MANTISSA && a@.1 + b@.1 <= MAX_SCALE
            ==> option_view(r) == Some(
            if a@.0 * b@.0 == 0 {
                (0int, 0nat)
            } else {
                (a@.0 * b@.0, (a@.1 + b@.1) as nat)
            },
        ),
{
    let x = rust_decimal::Decimal::from_i128_with_scale(a.mantissa, a.scale);
    let y = rust_decimal::Decimal::from_i128_with_scale(b.mantissa, b.scale);
    match x.checked_mul(y) {
        Some(d) => Some(Decimal { mantissa: d.mantissa(), scale: d.scale() }),
        None => None,
    }
}

/// Calls `rust_decimal::Decimal::checked_div`. Its result is named; division by
/// zero gives `None`.
#[verifier::external_body]
fn outside_checked_div(a: Decimal, b: Decimal) -> (r: Option<Decimal>)
    ensures
        option_view(r) == decimal_div(a@, b@),
        b@.0 == 0 ==> r is None,
{
    let x = rust_decimal::Decimal::from_i128_with_scale(a.mantissa, a.scale);
    let y = rust_decimal::Decimal::from_i128_with_scale(b.mantissa, b.scale);
    match x.checked_div(y) {
        Some(d) => Some(Decimal { mantissa: d.mantissa(), scale: d.scale() }),
        None => None,
    }
}

/// Calls `rust_decimal::Decimal::fract`: the number minus its truncation toward
/// zero, so it is zero exactly when the scaled mantissa has no fractional digits.
#[verifier::external_body]
fn outside_fract(a: Decimal) -> (r: Decimal)
    ensures
        r@.0 * pow10(a@.1) == (a@.0 - trunc_div(a@.0, pow10(a@.1)) * pow10(a@.1)) * pow10(r@.1),
{
    let x = rust_decimal::Decimal::from_i128_with_scale(a.mantissa, a.scale);
    let d = x.fract();
    Decimal { mantissa: d.mantissa(), scale: d.scale() }
}

/// Calls `<rust_decimal::Decimal as ToPrimitive>::to_i64`: the number truncated
/// toward zero, when that fits in an `i64`.
#[verifier::external_body]
fn outside_to_i64(a: Decimal) -> (r: Option<i64>)
    ensures
        r == (if fits_i64(trunc_div(a@.0, pow10(a@.1))) {
            Some(trunc_div(a@.0, pow10(a@.1)) as i64)
        } else {
            None::<i64>
        }),
{
    let x = rust_decimal::Decimal::from_i128_with_scale(a.mantissa, a.scale);
    rust_decimal::prelude::ToPrimitive::to_i64(&x)
}

/// Calls `<rust_decimal::Decimal as FromStr>::from_str`, whose result is named;
/// a refusal comes back as the text of the outside error, of which nothing is
/// stated. A plain decimal text of at most 28 digits is read exactly: its
/// digits make the mantissa and its decimal places the scale.
#[verifier::external_body]
fn outside_parse(s: &str) -> (r: Result<Decimal, String>)
    ensures
        r is Ok <==> decimal_parse(s@) is Some,
        r matches Ok(d) ==> decimal_parse(s@) == Some(d@),
        r matches Ok(d) ==> forall|negative: bool, whole: Seq<char>, frac: Seq<char>|
            #![trigger plain_text(negative, whole, frac)]
            plain_parts(whole, frac) && s@ == plain_text(negative, whole, frac) ==> d@
                == plain_value(negative, whole, frac),
        r is Err ==> forall|negative: bool, whole: Seq<char>, frac: Seq<char>|
            #![trigger plain_text(negative, whole, frac)]
            !(plain_parts(whole, frac) && s@ == plain_text(negative, whole, frac)),
{
    match <rust_decimal::Decimal as core::str::FromStr>::from_str(s) {
        Ok(d) => Ok(Decimal { mantissa: d.mantissa(), scale: d.scale() }),
        Err(e) => Err(e.to_string()),
    }
}

/// Calls `<rust_decimal::Decimal as Display>::to_string`, whose text is named.
/// The text holds every decimal place of the scale, so that parsing it gives
/// back the same mantissa and scale, for a mantissa of at most 64 bits.
#[verifier::external_body]
fn outside_text(a: Decimal) -> (r: String)
    ensures
        r@ == decimal_text(a@),
        small_mantissa(a@.0) && a@.1 <= 28 ==> decimal_parse(r@) == Some(a@),
{
    rust_decimal::Decimal::from_i128_with_scale(a.mantissa, a.scale).to_string()
}

/// Calls `<rust_decimal::Decimal as PartialEq>::eq`, which compares numeric values.
#[verifier::external_body]
fn outside_eq(a: Decimal, b: Decimal) -> (r: bool)
    ensures
        r == same_value(a@, b@),
{
    rust_decimal::Decimal::from_i128_with_scale(a.mantissa, a.scale)
        == rust_decimal::Decimal::from_i128_with_scale(b.mantissa, b.scale)
}

impl Decimal {
    #[verifier::type_invariant]
    spec fn in_range(self) -> bool {
        -MAX_MANTISSA <= self.mantissa <= MAX_MANTISSA && self.scale <= MAX_SCALE
    }

    /// The integer that the decimal is a multiple of a power of ten of.
    pub closed spec fn spec_mantissa(self) -> int {
        self.mantissa as int
    }

    /// The number of decimal places.
    pub closed spec fn spec_scale(self) -> nat {
        self.scale as nat
    }

    /// The decimal `m / 10^s`, for a mantissa and scale in range.
    pub closed spec fn spec_new(m: int, s: nat) -> Decimal {
        Decimal { mantissa: m as i128, scale: s as u32 }
    }

    /// Creates `num / 10^scale`.
    pub fn new(num: i64, scale: u32) -> (r: Decimal)
        requires
            scale <= MAX_SCALE,
        ensures
            r@ == (num as int, scale as nat),
            r == Decimal::spec_new(num as int, scale as nat),
    {
        Decimal { mantissa: num as i128, scale }
    }

    /// Creates `num / 10^scale` from a mantissa of at most 96 bits.
    pub fn from_i128_with_scale(num: i128, scale: u32) -> (r: Decimal)
        requires
            -MAX_MANTISSA <= num <= MAX_MANTISSA,
            scale <= MAX_SCALE,
        ensures
            r@ == (num as int, scale as nat),
    {
        Decimal { mantissa: num, scale }
    }

    /// The number zero.
    pub fn zero() -> (r: Decimal)
        ensures
            r@ == (0int, 0nat),
    {
        Decimal { mantissa: 0, scale: 0 }
    }

    /// The number one.
    pub fn one() -> (r: Decimal)
        ensures
            r@ == (1int, 0nat),
    {
        Decimal { mantissa: 1, scale: 0 }
    }

    /// The integer that the decimal is a multiple of a power of ten of.
    pub fn mantissa(&self) -> (r: i128)
        ensures
            r == self@.0,
            -MAX_MANTISSA <= r <= MAX_MANTISSA,
    {
        proof {
            use_type_invariant(self);
        }
        self.mantissa
    }

    /// The number of decimal places.
    pub fn scale(&self) -> (r: u32)
        ensures
            r == self@.1,
            r <= MAX_SCALE,
    {
        proof {
            use_type_invariant(self);
        }
        self.scale
    }

    /// Whether the number is zero.
    pub fn is_zero(&self) -> (r: bool)
        ensures
            r == (self@.0 == 0),
    {
        self.mantissa == 0
    }

    /// The decimal text of the number.
    pub fn to_string(&self) -> (r: String)
        ensures
            r@ == decimal_text(self@),
    {
        outside_text(*self)
    }
}

impl PartialEq for Decimal {
    fn eq(&self, other: &Self) -> (r: bool) {
        outside_eq(*self, *other)
    }
}

impl vstd::std_specs::cmp::PartialEqSpecImpl for Decimal {
    open spec fn obeys_eq_spec() -> bool {
        true
    }

    open spec fn eq_spec(&self, other: &Self) -> bool {
        same_value(self@, other@)
    }
}

} // verus!

verus! {

/// Why a decimal cannot be held as a whole number of ten-thousandths.
#[derive(Clone, Copy, Debug, PartialEq, Eq, Structural)]
pub enum UnitsError {
    /// Scaling the value by 10 000 overflows a decimal.
    TooLarge,
    /// The value has more than four decimal places.
    TooPrecise,
    /// The scaled value does not fit a signed 64-bit integer.
    OutOfRange,
}

/// The number of ten-thousandths that a decimal is stored as: the decimal is
/// multiplied by 10 000 (by `rust_decimal`), must then be a whole number, and
/// that number must fit in an `i64`.
pub open spec fn stored_units(v: (int, nat)) -> Result<int, UnitsError> {
    match decimal_mul(v, (10000int, 0nat)) {
        None => Err(UnitsError::TooLarge),
        Some(s) => if s.0 % pow10(s.1) != 0 {
            Err(UnitsError::TooPrecise)
        } else if !fits_i64(trunc_div(s.0, pow10(s.1))) {
            Err(UnitsError::OutOfRange)
        } else {
            Ok(trunc_div(s.0, pow10(s.1)))
        },
    }
}

/// The exact number of ten-thousandths of `m / 10^s`, when it is whole and fits an `i64`.
pub open spec fn exact_units(v: (int, nat)) -> Result<int, UnitsError> {
    if (v.0 * 10000) % pow10(v.1) != 0 {
        Err(UnitsError::TooPrecise)
    } else if !fits_i64(trunc_div(v.0 * 10000, pow10(v.1))) {
        Err(UnitsError::OutOfRange)
    } else {
        Ok(trunc_div(v.0 * 10000, pow10(v.1)))
    }
}

/// The ten-thousandths held by the result of an outside decimal operation.
pub open spec fn units_of_result(o: Option<(int, nat)>) -> Option<int> {
    match o {
        Some(v) => match stored_units(v) {
            Ok(u) => Some(u),
            Err(_) => None,
        },
        None => None,
    }
}

/// `x / 10^s` when that is a whole number that fits an `i64`.
pub open spec fn whole_quotient(x: int, s: nat) -> Option<int> {
    if x % pow10(s) == 0 && fits_i64(trunc_div(x, pow10(s))) {
        Some(trunc_div(x, pow10(s)))
    } else {
        None
    }
}

/// The product of two numbers of ten-thousandths, in ten-thousandths: the
/// exact product, when it has at most four decimal places and its
/// ten-thousandths fit an `i64`.
pub open spec fn units_product(a: int, b: int) -> Option<int> {
    whole_quotient(a * b, 4)
}

/// The product of a price and a quantity, in ten-thousandths, when it is a
/// valid price.
pub open spec fn product_units(price: Price, quantity: Quantity) -> Option<int> {
    units_product(price@, quantity@)
}

/// Multiplying a price by a quantity is exact, and the order of the factors
/// does not matter: the product is a price exactly when the exact product has
/// at most four decimal places and lies in the range of prices.
pub proof fn lemma_product_exact(price: Price, quantity: Quantity)
    ensures
        product_units(price, quantity) == whole_quotient(price@ * quantity@, 4),
        units_product(quantity@, price@) == product_units(price, quantity),
{
    assert(quantity@ * price@ == price@ * quantity@) by (nonlinear_arith);
}

/// A product beyond the decimal range is no valid price: its
/// ten-thousandths do not fit an `i64`.
proof fn lemma_large_product(x: int)
    requires
        !fits_scaling(x),
    ensures
        whole_quotient(x, 4) is None,
{
    lemma_pow10_four();
    assert(x * 10000 > MAX_MANTISSA || x * 10000 < -MAX_MANTISSA);
    if x >= 0 {
        assert(x / 10000 > i64::MAX);
    } else {
        assert((-x) / 10000 > i64::MAX);
    }
}

/// Whether the product of two numbers of ten-thousandths lies within the
/// decimal range once scaled.
fn product_fits(p: i64, q: i64) -> (r: bool)
    ensures
        r == fits_scaling(p * q),
{
    assert(-0x4000_0000_0000_0000_0000_0000_0000_0000 <= (p as int) * (q as int)
        <= 0x4000_0000_0000_0000_0000_0000_0000_0000) by (nonlinear_arith)
        requires
            -0x8000_0000_0000_0000 <= p <= 0x7fff_ffff_ffff_ffff,
            -0x8000_0000_0000_0000 <= q <= 0x7fff_ffff_ffff_ffff,
    ;
    let m = (p as i128) * (q as i128);
    let bound: i128 = 7922816251426433759354395i128;
    assert(m == p * q);
    assert(MAX_MANTISSA == 79228162514264337593543950335);
    assert((m <= bound) == (m * 10000 <= 79228162514264337593543950335));
    assert((-bound <= m) == (-79228162514264337593543950335 <= m * 10000));
    -bound <= m && m <= bound
}

/// An optional `i64` as an optional integer.
pub open spec fn option_int(r: Option<i64>) -> Option<int> {
    match r {
        Some(x) => Some(x as int),
        None => None,
    }
}

/// The text that explains a [`UnitsError`].
pub open spec fn units_error_reason(e: UnitsError) -> Seq<char> {
    match e {
        UnitsError::TooLarge => "value is too large to store"@,
        UnitsError::TooPrecise => "value has more than four decimal places"@,
        UnitsError::OutOfRange => "value is outside SQLite BIGINT range"@,
    }
}

/// Every power of ten is positive.
pub proof fn lemma_pow10_positive(n: nat)
    ensures
        pow10(n) > 0,
    decreases n,
{
    if n > 0 {
        lemma_pow10_positive((n - 1) as nat);
    }
}

/// Powers of ten multiply by adding their exponents.
pub proof fn lemma_pow10_add(a: nat, b: nat)
    ensures
        pow10(a + b) == pow10(a) * pow10(b),
    decreases a,
{
    if a > 0 {
        lemma_pow10_add((a - 1) as nat, b);
        let x = pow10((a - 1) as nat);
        let y = pow10(b);
        assert(pow10(a) == 10 * x);
        assert((a + b - 1) as nat == (a - 1 + b) as nat);
        assert(pow10(a + b) == 10 * pow10((a - 1 + b) as nat));
        assert((10 * x) * y == 10 * (x * y)) by (nonlinear_arith);
    }
}

/// A number with at most four decimal places whose ten-thousandths fit an
/// `i64` is stored exactly, as those ten-thousandths.
proof fn lemma_exact_plain(m: int, f: nat)
    requires
        f <= 4,
        fits_i64(m * pow10((4 - f) as nat)),
    ensures
        fits_scaling(m),
        exact_units((m, f)) == Ok::<int, UnitsError>(m * pow10((4 - f) as nat)),
{
    let g = (4 - f) as nat;
    lemma_pow10_add(g, f);
    lemma_pow10_four();
    lemma_pow10_positive(g);
    lemma_pow10_positive(f);
    let a = pow10(g);
    let b = pow10(f);
    let u = m * a;
    assert(a * b == 10000);
    assert(m * 10000 == u * b) by (nonlinear_arith)
        requires
            a * b == 10000,
            u == m * a,
    ;
    assert(-9223372036854775808 <= m <= 9223372036854775807) by (nonlinear_arith)
        requires
            a >= 1,
            u == m * a,
            -9223372036854775808 <= u <= 9223372036854775807,
    ;
    assert((u * b) % b == 0) by (nonlinear_arith)
        requires
            b > 0,
    ;
    assert(u >= 0 ==> (u * b) / b == u) by (nonlinear_arith)
        requires
            b > 0,
    ;
    assert(u < 0 ==> (-(u * b)) / b == -u) by (nonlinear_arith)
        requires
            b > 0,
    ;
    assert(u >= 0 <==> u * b >= 0) by (nonlinear_arith)
        requires
            b > 0,
    ;
}

/// A text of `n` digits stands for a number from 0 to below `10^n`.
proof fn lemma_digits_below(s: Seq<char>)
    requires
        forall|i: int| 0 <= i < s.len() ==> is_ascii_digit(#[trigger] s[i]),
    ensures
        0 <= digits_value(s) < pow10(s.len()),
    decreases s.len(),
{
    if s.len() > 0 {
        let t = s.drop_last();
        assert forall|i: int| 0 <= i < t.len() implies is_ascii_digit(#[trigger] t[i]) by {
            assert(t[i] == s[i]);
        }
        lemma_digits_below(t);
        assert(is_ascii_digit(s[s.len() - 1]));
        assert(pow10(s.len()) == 10 * pow10(t.len()));
    }
}

/// A plain decimal text of at most 24 digits can be scaled by 10 000 within
/// a decimal.
proof fn lemma_plain_fits(negative: bool, whole: Seq<char>, frac: Seq<char>)
    requires
        plain_parts(whole, frac),
        whole.len() + frac.len() <= 24,
    ensures
        fits_scaling(plain_value(negative, whole, frac).0),
{
    let s = whole + frac;
    assert forall|i: int| 0 <= i < s.len() implies is_ascii_digit(#[trigger] s[i]) by {
        if i < whole.len() {
            assert(s[i] == whole[i]);
        } else {
            assert(s[i] == frac[i - whole.len()]);
        }
    }
    lemma_digits_below(s);
    let g = (24 - s.len()) as nat;
    lemma_pow10_add(s.len(), g);
    lemma_pow10_positive(g);
    assert(s.len() + g == 24);
    assert(pow10(24) == 1000000000000000000000000) by {
        reveal_with_fuel(pow10, 25);
    }
    let m = digits_value(s);
    let p = pow10(s.len());
    assert(p <= 1000000000000000000000000) by (nonlinear_arith)
        requires
            p * pow10(g) == 1000000000000000000000000,
            pow10(g) >= 1,
            p > 0,
    ;
    assert(m * 10000 < 10000000000000000000000000000) by (nonlinear_arith)
        requires
            0 <= m < p,
            p <= 1000000000000000000000000,
    ;
}

/// The powers of ten that prices and quantities are stored with.
pub proof fn lemma_pow10_four()
    ensures
        pow10(4) == 10000,
        pow10(0) == 1,
{
    reveal_with_fuel(pow10, 5);
}

/// `m - trunc(m / p) * p` is zero exactly when `p` divides `m`.
proof fn lemma_trunc_remainder(m: int, p: int)
    requires
        p > 0,
    ensures
        (m - trunc_div(m, p) * p == 0) == (m % p == 0),
{
    if m >= 0 {
        vstd::arithmetic::div_mod::lemma_fundamental_div_mod(m, p);
        assert(m - (m / p) * p == m % p) by (nonlinear_arith)
            requires
                m == p * (m / p) + m % p,
        ;
    } else {
        let n = -m;
        vstd::arithmetic::div_mod::lemma_fundamental_div_mod(n, p);
        vstd::arithmetic::div_mod::lemma_fundamental_div_mod(m, p);
        vstd::arithmetic::div_mod::lemma_mod_bound(n, p);
        vstd::arithmetic::div_mod::lemma_mod_bound(m, p);
        assert(m - trunc_div(m, p) * p == -(n % p)) by (nonlinear_arith)
            requires
                n == p * (n / p) + n % p,
                m == -n,
                trunc_div(m, p) == -(n / p),
        ;
        if n % p == 0 {
            assert(m == p * (-(n / p))) by (nonlinear_arith)
                requires
                    n == p * (n / p) + n % p,
                    n % p == 0,
                    m == -n,
            ;
            vstd::arithmetic::div_mod::lemma_mod_multiples_basic(-(n / p), p);
            assert(m % p == 0) by (nonlinear_arith)
                requires
                    m == p * (-(n / p)),
                    ((-(n / p)) * p) % p == 0,
            ;
        }
        if m % p == 0 {
            assert(n == p * (-(m / p))) by (nonlinear_arith)
                requires
                    m == p * (m / p) + m % p,
                    m % p == 0,
                    m == -n,
            ;
            vstd::arithmetic::div_mod::lemma_mod_multiples_basic(-(m / p), p);
            assert(n % p == 0) by (nonlinear_arith)
                requires
                    n == p * (-(m / p)),
                    ((-(m / p)) * p) % p == 0,
            ;
        }
    }
}

/// Scaling both sides of a division by `k` changes neither divisibility nor the quotient.
proof fn lemma_scale_down(y: int, k: int, p: int)
    requires
        k > 0,
        p > 0,
    ensures
        ((y * k) % (p * k) == 0) == (y % p == 0),
        trunc_div(y * k, p * k) == trunc_div(y, p),
{
    assert(p * k > 0) by (nonlinear_arith)
        requires
            k > 0,
            p > 0,
    ;
    let a = if y >= 0 {
        y
    } else {
        -y
    };
    vstd::arithmetic::div_mod::lemma_fundamental_div_mod(a, p);
    vstd::arithmetic::div_mod::lemma_mod_bound(a, p);
    let q = a / p;
    let r = a % p;
    assert(a * k == q * (p * k) + r * k) by (nonlinear_arith)
        requires
            a == p * q + r,
    ;
    assert(0 <= r * k < p * k) by (nonlinear_arith)
        requires
            0 <= r < p,
            k > 0,
    ;
    vstd::arithmetic::div_mod::lemma_fundamental_div_mod_converse_mod(a * k, p * k, q, r * k);
    vstd::arithmetic::div_mod::lemma_fundamental_div_mod_converse_div(a * k, p * k, q, r * k);
    assert((r * k == 0) == (r == 0)) by (nonlinear_arith)
        requires
            k > 0,
    ;
    if y >= 0 {
    } else {
        assert(-(y * k) == a * k) by (nonlinear_arith)
            requires
                a == -y,
        ;
        assert(y * k == -(a * k));
        vstd::arithmetic::div_mod::lemma_fundamental_div_mod(y, p);
        vstd::arithmetic::div_mod::lemma_fundamental_div_mod(y * k, p * k);
        lemma_trunc_remainder(y, p);
        lemma_trunc_remainder(y * k, p * k);
        assert(trunc_div(y * k, p * k) == -q);
        assert(trunc_div(y, p) == -q);
        assert((y * k) - trunc_div(y * k, p * k) * (p * k) == -(r * k)) by (nonlinear_arith)
            requires
                y * k == -(a * k),
                a * k == q * (p * k) + r * k,
                trunc_div(y * k, p * k) == -q,
        ;
        assert(y - trunc_div(y, p) * p == -r) by (nonlinear_arith)
            requires
                a == p * q + r,
                y == -a,
                trunc_div(y, p) == -q,
        ;
    }
}

/// Ten-thousandths at scale four are held exactly.
proof fn lemma_exact_units_at_scale_four(x: int)
    ensures
        exact_units((x, 4nat)) == (if fits_i64(x) {
            Ok::<int, UnitsError>(x)
        } else {
            Err::<int, UnitsError>(UnitsError::OutOfRange)
        }),
{
    lemma_pow10_four();
    vstd::arithmetic::div_mod::lemma_mod_multiples_basic(x, 10000);
    lemma_scale_down(x, 10000, 1);
    assert(x % 1 == 0);
    assert(trunc_div(x, 1) == x);
}

/// At scale `4 + s`, a mantissa holds a whole number of ten-thousandths
/// exactly when `10^s` divides it.
proof fn lemma_exact_units_product(x: int, s: nat)
    ensures
        (match exact_units((x, (4 + s) as nat)) {
            Ok(u) => Some(u),
            Err(_) => None,
        }) == whole_quotient(x, s),
{
    lemma_pow10_four();
    lemma_pow10_add(4, s);
    lemma_pow10_positive(s);
    assert(pow10((4 + s) as nat) == pow10(s) * 10000) by (nonlinear_arith)
        requires
            pow10((4 + s) as nat) == pow10(4) * pow10(s),
            pow10(4) == 10000,
    ;
    lemma_scale_down(x, 10000, pow10(s));
}

/// A product that is a whole number of ten-thousandths fitting an `i64` is
/// small enough to be scaled within the decimal range.
pub proof fn lemma_whole_quotient_fits(x: int)
    requires
        whole_quotient(x, 4) is Some,
    ensures
        fits_scaling(x),
{
    lemma_pow10_four();
    lemma_trunc_remainder(x, 10000);
    let t = trunc_div(x, 10000);
    assert(x == t * 10000);
    assert(-9223372036854775808 <= t <= 9223372036854775807);
    assert(-MAX_MANTISSA <= x * 10000 <= MAX_MANTISSA) by (nonlinear_arith)
        requires
            x == t * 10000,
            -9223372036854775808 <= t <= 9223372036854775807,
            MAX_MANTISSA == 79228162514264337593543950335int,
    ;
}

/// Converts a decimal to the number of ten-thousandths it is stored as.
fn units_of(value: Decimal) -> (r: Result<i64, UnitsError>)
    ensures
        r == (match stored_units(value@) {
            Ok(u) => Ok::<i64, UnitsError>(u as i64),
            Err(e) => Err::<i64, UnitsError>(e),
        }),
        fits_scaling(value@.0) && value@.1 <= 24 ==> stored_units(value@) == exact_units(
            value@,
        ),
{
    proof {
        use_type_invariant(value);
    }
    let ten_thousand = Decimal::new(10000, 0);
    let scaled = outside_checked_mul(value, ten_thousand);
    proof {
        lemma_pow10_four();
        if fits_scaling(value@.0) && value@.1 <= 24 {
            lemma_pow10_positive(value@.1);
            if value@.0 == 0 {
                assert(value@.0 * 10000 == 0);
                assert(0int % pow10(value@.1) == 0);
                assert(trunc_div(0, pow10(value@.1)) == 0);
            }
        }
    }
    let scaled = match scaled {
        Some(s) => s,
        None => {
            return Err(UnitsError::TooLarge);
        },
    };
    proof {
        use_type_invariant(scaled);
        lemma_pow10_positive(scaled@.1);
    }
    let fraction = outside_fract(scaled);
    proof {
        lemma_pow10_positive(fraction@.1);
        lemma_trunc_remainder(scaled@.0, pow10(scaled@.1));
        let p = pow10(scaled@.1);
        let q = pow10(fraction@.1);
        let x = scaled@.0 - trunc_div(scaled@.0, p) * p;
        assert((fraction@.0 == 0) == (x == 0)) by (nonlinear_arith)
            requires
                fraction@.0 * p == x * q,
                p > 0,
                q > 0,
        ;
    }
    if !fraction.is_zero() {
        return Err(UnitsError::TooPrecise);
    }
    match outside_to_i64(scaled) {
        Some(u) => Ok(u),
        None => Err(UnitsError::OutOfRange),
    }
}

/// Converts a number of ten-thousandths to the decimal it stands for.
fn units_to_decimal(units: i64) -> (r: Decimal)
    ensures
        r@ == (units as int, 4nat),
{
    Decimal::new(units, 4)
}

/// Adds two amounts of ten-thousandths through `rust_decimal`.
fn units_add(a: i64, b: i64) -> (r: Option<i64>)
    ensures
        r == (if fits_i64(a + b) {
            Some((a + b) as i64)
        } else {
            None::<i64>
        }),
{
    let sum = outside_checked_add(units_to_decimal(a), units_to_decimal(b));
    match sum {
        Some(v) => {
            proof {
                lemma_exact_units_at_scale_four(a + b);
                assert(v@ == (a + b, 4nat));
                assert(fits_scaling(a + b));
            }
            let u = units_of(v);
            proof {
                assert(stored_units(v@) == exact_units(v@));
            }
            match u {
                Ok(u) => Some(u),
                Err(_) => None,
            }
        },
        None => None,
    }
}

/// Subtracts two amounts of ten-thousandths through `rust_decimal`.
fn units_sub(a: i64, b: i64) -> (r: Option<i64>)
    ensures
        r == (if fits_i64(a - b) {
            Some((a - b) as i64)
        } else {
            None::<i64>
        }),
{
    let difference = outside_checked_sub(units_to_decimal(a), units_to_decimal(b));
    match difference {
        Some(v) => {
            proof {
                lemma_exact_units_at_scale_four(a - b);
                assert(v@ == (a - b, 4nat));
                assert(fits_scaling(a - b));
            }
            let u = units_of(v);
            proof {
                assert(stored_units(v@) == exact_units(v@));
            }
            match u {
                Ok(u) => Some(u),
                Err(_) => None,
            }
        },
        None => None,
    }
}

/// Multiplies ten-thousandths by a decimal through `rust_decimal`.
fn units_mul(a: i64, rhs: Decimal) -> (r: Option<i64>)
    ensures
        option_int(r) == units_of_result(decimal_mul((a as int, 4nat), rhs@)),
        fits_scaling(a * rhs@.0) && rhs@.1 <= 20 ==> option_int(r)
            == whole_quotient(a * rhs@.0, rhs@.1),
{
    proof {
        use_type_invariant(rhs);
    }
    let product = outside_checked_mul(units_to_decimal(a), rhs);
    proof {
        if fits_scaling(a * rhs@.0) && rhs@.1 <= 20 {
            lemma_exact_units_product(a * rhs@.0, rhs@.1);
            if a * rhs@.0 == 0 {
                lemma_pow10_positive(rhs@.1);
                lemma_pow10_four();
                assert(0int % pow10(rhs@.1) == 0);
                assert(trunc_div(0, pow10(rhs@.1)) == 0);
                assert(exact_units((0int, 0nat)) == Ok::<int, UnitsError>(0));
                assert(exact_units(((a * rhs@.0), (4 + rhs@.1) as nat)) == Ok::<int, UnitsError>(
                    0,
                )) by {
                    lemma_pow10_positive((4 + rhs@.1) as nat);
                    assert((a * rhs@.0) * 10000 == 0);
                }
            }
        }
    }
    match product {
        Some(v) => match units_of(v) {
            Ok(u) => Some(u),
            Err(_) => None,
        },
        None => None,
    }
}

/// Divides ten-thousandths by a decimal through `rust_decimal`.
fn units_div(a: i64, rhs: Decimal) -> (r: Option<i64>)
    ensures
        option_int(r) == units_of_result(decimal_div((a as int, 4nat), rhs@)),
        rhs@.0 == 0 ==> r is None,
{
    match outside_checked_div(units_to_decimal(a), rhs) {
        Some(v) => match units_of(v) {
            Ok(u) => Some(u),
            Err(_) => None,
        },
        None => None,
    }
}

} // verus!

verus! {

/// The text that explains a [`UnitsError`].
fn units_error_text(e: UnitsError) -> (r: String)
    ensures
        r@ == units_error_reason(e),
{
    match e {
        UnitsError::TooLarge => String::from_str("value is too large to store"),
        UnitsError::TooPrecise => String::from_str("value has more than four decimal places"),
        UnitsError::OutOfRange => String::from_str("value is outside SQLite BIGINT range"),
    }
}

/// Multiplies ten-thousandths by 10 000 through `rust_decimal`, giving the
/// integer that is stored for them.
fn units_stored_integer(units: i64) -> (r: Option<i64>)
    ensures
        r == Some(units),
{
    let scaled = outside_checked_mul(units_to_decimal(units), Decimal::new(10000, 0));
    proof {
        lemma_pow10_four();
        if units != 0 {
            assert(scaled matches Some(v) && v@ == (units * 10000, 4nat));
            vstd::arithmetic::div_mod::lemma_div_multiples_vanish(units as int, 10000);
            if units < 0 {
                vstd::arithmetic::div_mod::lemma_div_multiples_vanish(-units, 10000);
                assert(-(units * 10000) == 10000 * (-units)) by (nonlinear_arith);
            }
            assert(trunc_div(units * 10000, 10000) == units) by (nonlinear_arith)
                requires
                    (10000 * units) / 10000 == units,
                    units < 0 ==> (10000 * (-units)) / 10000 == -units,
                    units < 0 ==> -(units * 10000) == 10000 * (-units),
            ;
        } else {
            assert(scaled matches Some(v) && v@ == (0int, 0nat));
        }
    }
    match scaled {
        Some(v) => outside_to_i64(v),
        None => None,
    }
}

/// The ten-thousandths of an optional price.
pub open spec fn option_units(r: Option<Price>) -> Option<int> {
    match r {
        Some(p) => Some(p@),
        None => None,
    }
}

/// The ten-thousandths of an optional quantity.
pub open spec fn option_quantity_units(r: Option<Quantity>) -> Option<int> {
    match r {
        Some(q) => Some(q@),
        None => None,
    }
}

/// A price: a whole number of ten-thousandths (four decimal places), whose
/// scaled value fits the signed 64-bit integer it is stored as.
#[derive(Debug, Clone, Copy, PartialEq, Eq, Structural, PartialOrd, Ord, Hash)]
pub struct Price {
    units: i64,
}

impl View for Price {
    type V = int;

    closed spec fn view(&self) -> int {
        self.units as int
    }
}

impl Price {
    pub const SCALE: u32 = 4u32;

    pub const MULTIPLIER: i64 = 10_000i64;

    /// Two prices are equal exactly when they hold the same number of ten-thousandths.
    pub proof fn lemma_view_eq(a: Price, b: Price)
        ensures
            (a@ == b@) == (a == b),
    {
    }

    /// A price is stored as an `i64` number of ten-thousandths.
    pub proof fn lemma_view_range(self)
        ensures
            fits_i64(self@),
    {
    }

    /// The price of `units` ten-thousandths.
    pub closed spec fn spec_from_units(units: int) -> Price {
        Price { units: units as i64 }
    }

    /// The price of a number of ten-thousandths that fits holds that number.
    pub proof fn lemma_from_units_view(units: int)
        requires
            fits_i64(units),
        ensures
            Price::spec_from_units(units)@ == units,
    {
    }

    /// A price is determined by its number of ten-thousandths.
    pub proof fn lemma_from_view(p: Price)
        ensures
            p == Price::spec_from_units(p@),
            Price::spec_from_units(p@)@ == p@,
    {
    }

    /// The price of `units` ten-thousandths.
    pub fn from_units(units: i64) -> (r: Price)
        ensures
            r@ == units,
            r == Price::spec_from_units(units as int),
    {
        Price { units }
    }

    /// The number of ten-thousandths of the price.
    pub fn units(self) -> (r: i64)
        ensures
            r == self@,
    {
        self.units
    }

    /// Whether the price is below zero.
    pub fn is_negative(self) -> (r: bool)
        ensures
            r == (self@ < 0),
    {
        self.units < 0
    }

    /// Whether the price is above zero.
    pub fn is_positive(self) -> (r: bool)
        ensures
            r == (self@ > 0),
    {
        self.units > 0
    }

    /// Taking away a price that was just added gives back the first price:
    /// when `a + b` is a valid price, so is `(a + b) - b`, and it is `a`.
    pub proof fn lemma_add_then_sub(a: Price, b: Price)
        requires
            fits_i64(a@ + b@),
        ensures
            fits_i64((a@ + b@) - b@),
            Price::spec_from_units((a@ + b@) - b@) == a,
    {
        Price::lemma_from_view(a);
    }

    /// The sum, when it is a valid price.
    pub fn checked_add(self, rhs: Self) -> (r: Option<Self>)
        ensures
            r is Some <==> fits_i64(self@ + rhs@),
            r matches Some(p) ==> p@ == self@ + rhs@,
    {
        match units_add(self.units, rhs.units) {
            Some(u) => Some(Price { units: u }),
            None => None,
        }
    }

    /// The difference, when it is a valid price.
    pub fn checked_sub(self, rhs: Self) -> (r: Option<Self>)
        ensures
            r is Some <==> fits_i64(self@ - rhs@),
            r matches Some(p) ==> p@ == self@ - rhs@,
    {
        match units_sub(self.units, rhs.units) {
            Some(u) => Some(Price { units: u }),
            None => None,
        }
    }

    /// The product with a decimal, computed by `rust_decimal`, when it is a
    /// valid price; exact whenever the product fits the decimal range.
    pub fn checked_mul(self, rhs: Decimal) -> (r: Option<Self>)
        ensures
            option_units(r) == units_of_result(decimal_mul((self@, 4nat), rhs@)),
            fits_scaling(self@ * rhs@.0) && rhs@.1 <= 20 ==> option_units(r) == whole_quotient(
                self@ * rhs@.0,
                rhs@.1,
            ),
    {
        match units_mul(self.units, rhs) {
            Some(u) => Some(Price { units: u }),
            None => None,
        }
    }

    /// The quotient by a decimal, computed by `rust_decimal`, when it is a
    /// valid price; never when dividing by zero.
    pub fn checked_div(self, rhs: Decimal) -> (r: Option<Self>)
        ensures
            option_units(r) == units_of_result(decimal_div((self@, 4nat), rhs@)),
            rhs@.0 == 0 ==> r is None,
    {
        match units_div(self.units, rhs) {
            Some(u) => Some(Price { units: u }),
            None => None,
        }
    }

    /// The ratio of two prices, computed by `rust_decimal`; never when dividing by zero.
    pub fn checked_ratio(self, rhs: Self) -> (r: Option<Decimal>)
        ensures
            option_view(r) == decimal_div((self@, 4nat), (rhs@, 4nat)),
            rhs@ == 0 ==> r is None,
    {
        outside_checked_div(units_to_decimal(self.units), units_to_decimal(rhs.units))
    }

    /// The product with a quantity, when it is a valid price: the exact
    /// product, when it has at most four decimal places and fits.
    pub fn checked_mul_quantity(self, rhs: Quantity) -> (r: Option<Self>)
        ensures
            option_units(r) == product_units(self, rhs),
    {
        if !product_fits(self.units, rhs.units) {
            proof {
                lemma_large_product(self@ * rhs@);
            }
            return None;
        }
        match units_mul(self.units, units_to_decimal(rhs.units)) {
            Some(u) => Some(Price { units: u }),
            None => None,
        }
    }

    /// The quotient by a quantity, when it is a valid price; never when dividing by zero.
    pub fn checked_div_quantity(self, rhs: Quantity) -> (r: Option<Self>)
        ensures
            option_units(r) == units_of_result(decimal_div((self@, 4nat), (rhs@, 4nat))),
            rhs@ == 0 ==> r is None,
    {
        match units_div(self.units, units_to_decimal(rhs.units)) {
            Some(u) => Some(Price { units: u }),
            None => None,
        }
    }

    /// The integer that the price is stored as: its number of ten-thousandths.
    pub fn as_stored_integer(self) -> (r: Option<i64>)
        ensures
            r == Some(self@ as i64),
    {
        units_stored_integer(self.units)
    }

    /// The price that a decimal stands for, when the decimal has at most four
    /// decimal places and its scaled value fits a signed 64-bit integer.
    pub fn try_from(value: Decimal) -> (r: Result<Self, ValidationError>)
        ensures
            match stored_units(value@) {
                Ok(u) => r matches Ok(p) && p@ == u,
                Err(e) => r matches Err(ValidationError::Price { reason }) && reason@
                    == units_error_reason(e),
            },
            fits_scaling(value@.0) && value@.1 <= 24 ==> stored_units(value@) == exact_units(
                value@,
            ),
    {
        match units_of(value) {
            Ok(u) => Ok(Price { units: u }),
            Err(e) => Err(ValidationError::Price { reason: units_error_text(e) }),
        }
    }

    /// Parses a decimal text into a price. A plain decimal text with at most
    /// four decimal places is read exactly, as ten-thousandths, when it fits;
    /// one of at most 24 digits with a fifth decimal place that is not zero,
    /// or whose ten-thousandths do not fit, is refused.
    pub fn from_str(value: &str) -> (r: Result<Self, ValidationError>)
        ensures
            match decimal_parse(value@) {
                None => r matches Err(ValidationError::Price { .. }),
                Some(d) => match stored_units(d) {
                    Ok(u) => r matches Ok(p) && p@ == u,
                    Err(e) => r matches Err(ValidationError::Price { reason }) && reason@
                        == units_error_reason(e),
                },
            },
            forall|negative: bool, whole: Seq<char>, frac: Seq<char>|
                #![trigger plain_text(negative, whole, frac)]
                plain_parts(whole, frac) && frac.len() <= 4 && value@ == plain_text(
                    negative,
                    whole,
                    frac,
                ) && fits_i64(plain_units(negative, whole, frac)) ==> (r matches Ok(p) && p@
                    == plain_units(negative, whole, frac)),
            decimal_parse(value@) is Some && (decimal_parse(value@)->0).1 == 4 && fits_i64(
                (decimal_parse(value@)->0).0,
            ) ==> (r matches Ok(p) && p@ == (decimal_parse(value@)->0).0),
            forall|negative: bool, whole: Seq<char>, frac: Seq<char>|
                #![trigger plain_text(negative, whole, frac)]
                plain_parts(whole, frac) && whole.len() + frac.len() <= 24 && value@ == plain_text(
                    negative,
                    whole,
                    frac,
                ) ==> (match exact_units(plain_value(negative, whole, frac)) {
                    Ok(u) => r matches Ok(p) && p@ == u,
                    Err(e) => r matches Err(ValidationError::Price { reason }) && reason@
                        == units_error_reason(e),
                }),
    {
        match outside_parse(value) {
            Ok(d) => {
                let r = Price::try_from(d);
                proof {
                    assert forall|negative: bool, whole: Seq<char>, frac: Seq<char>|
                        #![trigger plain_text(negative, whole, frac)]
                        plain_parts(whole, frac) && whole.len() + frac.len() <= 24 && value@
                            == plain_text(negative, whole, frac) implies (match exact_units(
                        plain_value(negative, whole, frac),
                    ) {
                        Ok(u) => r matches Ok(p) && p@ == u,
                        Err(e) => r matches Err(ValidationError::Price { reason }) && reason@
                            == units_error_reason(e),
                    }) by {
                        lemma_plain_fits(negative, whole, frac);
                    }
                    if d@.1 == 4 && fits_i64(d@.0) {
                        lemma_exact_plain(d@.0, 4);
                    }
                    assert forall|negative: bool, whole: Seq<char>, frac: Seq<char>|
                        #![trigger plain_text(negative, whole, frac)]
                        plain_parts(whole, frac) && frac.len() <= 4 && value@ == plain_text(
                            negative,
                            whole,
                            frac,
                        ) && fits_i64(plain_units(negative, whole, frac)) implies (r matches Ok(p)
                        && p@ == plain_units(negative, whole, frac)) by {
                        lemma_exact_plain(d@.0, d@.1);
                    }
                }
                r
            },
            Err(reason) => Err(ValidationError::Price { reason }),
        }
    }

    /// The decimal text of the price, with its four decimal places; parsing
    /// the text gives back the price.
    pub fn to_string(&self) -> (r: String)
        ensures
            r@ == decimal_text((self@, 4nat)),
            decimal_parse(r@) == Some((self@, 4nat)),
    {
        proof {
            assert(-TWO_POW_64 < self.units < TWO_POW_64);
        }
        outside_text(units_to_decimal(self.units))
    }
}

impl Default for Price {
    fn default() -> (r: Self)
        ensures
            r@ == 0,
    {
        Price { units: 0 }
    }
}

impl From<Price> for Decimal {
    fn from(value: Price) -> (r: Decimal) {
        Decimal::new(value.units, 4)
    }
}

impl vstd::std_specs::convert::FromSpecImpl<Price> for Decimal {
    open spec fn obeys_from_spec() -> bool {
        true
    }

    open spec fn from_spec(v: Price) -> Decimal {
        Decimal::spec_new(v@, 4)
    }
}

impl core::str::FromStr for Price {
    type Err = ValidationError;

    fn from_str(value: &str) -> (r: Result<Self, ValidationError>)
        ensures
            match decimal_parse(value@) {
                None => r matches Err(ValidationError::Price { .. }),
                Some(d) => match stored_units(d) {
                    Ok(u) => r matches Ok(x) && x@ == u,
                    Err(e) => r matches Err(ValidationError::Price { reason }) && reason@
                        == units_error_reason(e),
                },
            },
            forall|negative: bool, whole: Seq<char>, frac: Seq<char>|
                #![trigger plain_text(negative, whole, frac)]
                plain_parts(whole, frac) && whole.len() + frac.len() <= 24 && value@ == plain_text(
                    negative,
                    whole,
                    frac,
                ) ==> (match exact_units(plain_value(negative, whole, frac)) {
                    Ok(u) => r matches Ok(x) && x@ == u,
                    Err(e) => r matches Err(ValidationError::Price { reason }) && reason@
                        == units_error_reason(e),
                }),
    {
        Price::from_str(value)
    }
}

/// A quantity: a whole number of ten-thousandths (four decimal places), whose
/// scaled value fits the signed 64-bit integer it is stored as.
#[derive(Debug, Clone, Copy, PartialEq, Eq, Structural, PartialOrd, Ord, Hash)]
pub struct Quantity {
    units: i64,
}

impl View for Quantity {
    type V = int;

    closed spec fn view(&self) -> int {
        self.units as int
    }
}

impl Quantity {
    pub const SCALE: u32 = 4u32;

    pub const MULTIPLIER: i64 = 10_000i64;

    /// Two quantities are equal exactly when they hold the same number of ten-thousandths.
    pub proof fn lemma_view_eq(a: Quantity, b: Quantity)
        ensures
            (a@ == b@) == (a == b),
    {
    }

    /// A quantity is stored as an `i64` number of ten-thousandths.
    pub proof fn lemma_view_range(self)
        ensures
            fits_i64(self@),
    {
    }

    /// The quantity of `units` ten-thousandths.
    pub closed spec fn spec_from_units(units: int) -> Quantity {
        Quantity { units: units as i64 }
    }

    /// The quantity of a number of ten-thousandths that fits holds that number.
    pub proof fn lemma_from_units_view(units: int)
        requires
            fits_i64(units),
        ensures
            Quantity::spec_from_units(units)@ == units,
    {
    }

    /// A quantity is determined by its number of ten-thousandths.
    pub proof fn lemma_from_view(q: Quantity)
        ensures
            q == Quantity::spec_from_units(q@),
            Quantity::spec_from_units(q@)@ == q@,
    {
    }

    /// The quantity of `units` ten-thousandths.
    pub fn from_units(units: i64) -> (r: Quantity)
        ensures
            r@ == units,
            r == Quantity::spec_from_units(units as int),
    {
        Quantity { units }
    }

    /// The number of ten-thousandths of the quantity.
    pub fn units(self) -> (r: i64)
        ensures
            r == self@,
    {
        self.units
    }

    /// Whether the quantity is below zero.
    pub fn is_negative(self) -> (r: bool)
        ensures
            r == (self@ < 0),
    {
        self.units < 0
    }

    /// Whether the quantity is above zero.
    pub fn is_positive(self) -> (r: bool)
        ensures
            r == (self@ > 0),
    {
        self.units > 0
    }

    /// Taking away a quantity that was just added gives back the first quantity:
    /// when `a + b` is a valid quantity, so is `(a + b) - b`, and it is `a`.
    pub proof fn lemma_add_then_sub(a: Quantity, b: Quantity)
        requires
            fits_i64(a@ + b@),
        ensures
            fits_i64((a@ + b@) - b@),
            Quantity::spec_from_units((a@ + b@) - b@) == a,
    {
        Quantity::lemma_from_view(a);
    }

    /// The sum, when it is a valid quantity.
    pub fn checked_add(self, rhs: Self) -> (r: Option<Self>)
        ensures
            r is Some <==> fits_i64(self@ + rhs@),
            r matches Some(q) ==> q@ == self@ + rhs@,
    {
        match units_add(self.units, rhs.units) {
            Some(u) => Some(Quantity { units: u }),
            None => None,
        }
    }

    /// The difference, when it is a valid quantity.
    pub fn checked_sub(self, rhs: Self) -> (r: Option<Self>)
        ensures
            r is Some <==> fits_i64(self@ - rhs@),
            r matches Some(q) ==> q@ == self@ - rhs@,
    {
        match units_sub(self.units, rhs.units) {
            Some(u) => Some(Quantity { units: u }),
            None => None,
        }
    }

    /// The product with a decimal, computed by `rust_decimal`, when it is a
    /// valid quantity; exact whenever the product fits the decimal range.
    pub fn checked_mul(self, rhs: Decimal) -> (r: Option<Self>)
        ensures
            option_quantity_units(r) == units_of_result(decimal_mul((self@, 4nat), rhs@)),
            fits_scaling(self@ * rhs@.0) && rhs@.1 <= 20 ==> option_quantity_units(r)
                == whole_quotient(self@ * rhs@.0, rhs@.1),
    {
        match units_mul(self.units, rhs) {
            Some(u) => Some(Quantity { units: u }),
            None => None,
        }
    }

    /// The quotient by a decimal, computed by `rust_decimal`, when it is a
    /// valid quantity; never when dividing by zero.
    pub fn checked_div(self, rhs: Decimal) -> (r: Option<Self>)
        ensures
            option_quantity_units(r) == units_of_result(decimal_div((self@, 4nat), rhs@)),
            rhs@.0 == 0 ==> r is None,
    {
        match units_div(self.units, rhs) {
            Some(u) => Some(Quantity { units: u }),
            None => None,
        }
    }

    /// The ratio of two quantities, computed by `rust_decimal`; never when dividing by zero.
    pub fn checked_ratio(self, rhs: Self) -> (r: Option<Decimal>)
        ensures
            option_view(r) == decimal_div((self@, 4nat), (rhs@, 4nat)),
            rhs@ == 0 ==> r is None,
    {
        outside_checked_div(units_to_decimal(self.units), units_to_decimal(rhs.units))
    }

    /// The product with a price: the same as multiplying the price by this quantity.
    pub fn checked_mul_price(self, rhs: Price) -> (r: Option<Price>)
        ensures
            option_units(r) == product_units(rhs, self),
    {
        rhs.checked_mul_quantity(self)
    }

    /// The integer that the quantity is stored as: its number of ten-thousandths.
    pub fn as_stored_integer(self) -> (r: Option<i64>)
        ensures
            r == Some(self@ as i64),
    {
        units_stored_integer(self.units)
    }

    /// The quantity that a decimal stands for, when the decimal has at most four
    /// decimal places and its scaled value fits a signed 64-bit integer.
    pub fn try_from(value: Decimal) -> (r: Result<Self, ValidationError>)
        ensures
            match stored_units(value@) {
                Ok(u) => r matches Ok(q) && q@ == u,
                Err(e) => r matches Err(ValidationError::Quantity { reason }) && reason@
                    == units_error_reason(e),
            },
            fits_scaling(value@.0) && value@.1 <= 24 ==> stored_units(value@) == exact_units(
                value@,
            ),
    {
        match units_of(value) {
            Ok(u) => Ok(Quantity { units: u }),
            Err(e) => Err(ValidationError::Quantity { reason: units_error_text(e) }),
        }
    }

    /// Parses a decimal text into a quantity. A plain decimal text with at
    /// most four decimal places is read exactly, as ten-thousandths, when it
    /// fits; one of at most 24 digits with a fifth decimal place that is not
    /// zero, or whose ten-thousandths do not fit, is refused.
    pub fn from_str(value: &str) -> (r: Result<Self, ValidationError>)
        ensures
            match decimal_parse(value@) {
                None => r matches Err(ValidationError::Quantity { .. }),
                Some(d) => match stored_units(d) {
                    Ok(u) => r matches Ok(q) && q@ == u,
                    Err(e) => r matches Err(ValidationError::Quantity { reason }) && reason@
                        == units_error_reason(e),
                },
            },
            forall|negative: bool, whole: Seq<char>, frac: Seq<char>|
                #![trigger plain_text(negative, whole, frac)]
                plain_parts(whole, frac) && frac.len() <= 4 && value@ == plain_text(
                    negative,
                    whole,
                    frac,
                ) && fits_i64(plain_units(negative, whole, frac)) ==> (r matches Ok(q) && q@
                    == plain_units(negative, whole, frac)),
            decimal_parse(value@) is Some && (decimal_parse(value@)->0).1 == 4 && fits_i64(
                (decimal_parse(value@)->0).0,
            ) ==> (r matches Ok(q) && q@ == (decimal_parse(value@)->0).0),
            forall|negative: bool, whole: Seq<char>, frac: Seq<char>|
                #![trigger plain_text(negative, whole, frac)]
                plain_parts(whole, frac) && whole.len() + frac.len() <= 24 && value@ == plain_text(
                    negative,
                    whole,
                    frac,
                ) ==> (match exact_units(plain_value(negative, whole, frac)) {
                    Ok(u) => r matches Ok(q) && q@ == u,
                    Err(e) => r matches Err(ValidationError::Quantity { reason }) && reason@
                        == units_error_reason(e),
                }),
    {
        match outside_parse(value) {
            Ok(d) => {
                let r = Quantity::try_from(d);
                proof {
                    assert forall|negative: bool, whole: Seq<char>, frac: Seq<char>|
                        #![trigger plain_text(negative, whole, frac)]
                        plain_parts(whole, frac) && whole.len() + frac.len() <= 24 && value@
                            == plain_text(negative, whole, frac) implies (match exact_units(
                        plain_value(negative, whole, frac),
                    ) {
                        Ok(u) => r matches Ok(q) && q@ == u,
                        Err(e) => r matches Err(ValidationError::Quantity { reason }) && reason@
                            == units_error_reason(e),
                    }) by {
                        lemma_plain_fits(negative, whole, frac);
                    }
                    if d@.1 == 4 && fits_i64(d@.0) {
                        lemma_exact_plain(d@.0, 4);
                    }
                    assert forall|negative: bool, whole: Seq<char>, frac: Seq<char>|
                        #![trigger plain_text(negative, whole, frac)]
                        plain_parts(whole, frac) && frac.len() <= 4 && value@ == plain_text(
                            negative,
                            whole,
                            frac,
                        ) && fits_i64(plain_units(negative, whole, frac)) implies (r matches Ok(q)
                        && q@ == plain_units(negative, whole, frac)) by {
                        lemma_exact_plain(d@.0, d@.1);
                    }
                }
                r
            },
            Err(reason) => Err(ValidationError::Quantity { reason }),
        }
    }

    /// The decimal text of the quantity, with its four decimal places; parsing
    /// the text gives back the quantity.
    pub fn to_string(&self) -> (r: String)
        ensures
            r@ == decimal_text((self@, 4nat)),
            decimal_parse(r@) == Some((self@, 4nat)),
    {
        proof {
            assert(-TWO_POW_64 < self.units < TWO_POW_64);
        }
        outside_text(units_to_decimal(self.units))
    }
}

impl Default for Quantity {
    fn default() -> (r: Self)
        ensures
            r@ == 0,
    {
        Quantity { units: 0 }
    }
}

impl From<Quantity> for Decimal {
    fn from(value: Quantity) -> (r: Decimal) {
        Decimal::new(value.units, 4)
    }
}

impl vstd::std_specs::convert::FromSpecImpl<Quantity> for Decimal {
    open spec fn obeys_from_spec() -> bool {
        true
    }

    open spec fn from_spec(v: Quantity) -> Decimal {
        Decimal::spec_new(v@, 4)
    }
}

impl core::str::FromStr for Quantity {
    type Err = ValidationError;

    fn from_str(value: &str) -> (r: Result<Self, ValidationError>)
        ensures
            match decimal_parse(value@) {
                None => r matches Err(ValidationError::Quantity { .. }),
                Some(d) => match stored_units(d) {
                    Ok(u) => r matches Ok(x) && x@ == u,
                    Err(e) => r matches Err(ValidationError::Quantity { reason }) && reason@
                        == units_error_reason(e),
                },
            },
            forall|negative: bool, whole: Seq<char>, frac: Seq<char>|
                #![trigger plain_text(negative, whole, frac)]
                plain_parts(whole, frac) && whole.len() + frac.len() <= 24 && value@ == plain_text(
                    negative,
                    whole,
                    frac,
                ) ==> (match exact_units(plain_value(negative, whole, frac)) {
                    Ok(u) => r matches Ok(x) && x@ == u,
                    Err(e) => r matches Err(ValidationError::Quantity { reason }) && reason@
                        == units_error_reason(e),
                }),
    {
        Quantity::from_str(value)
    }
}

} // verus!
