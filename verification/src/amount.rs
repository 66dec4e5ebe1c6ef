//! Decimal money amounts.
//!
//! An [`Amount`] holds exactly the parts of a `rust_decimal::Decimal`: a sign,
//! a 96-bit magnitude and a scale (the number of digits after the decimal
//! point, at most 28). Every arithmetic operation, comparison, rounding,
//! parse and rendering is carried out by `rust_decimal` itself.

use crate::text::decimal_digits;
use rust_decimal::Decimal;
use vstd::prelude::*;

verus! {

/// The largest magnitude a decimal can hold: 2^96 - 1.
pub const MAX_MAGNITUDE: u128 = 0xFFFF_FFFF_FFFF_FFFF_FFFF_FFFF;

/// The largest scale a decimal can hold.
pub const MAX_SCALE: u32 = 28;

/// Ten to the power `n`.
pub open spec fn pow10(n: nat) -> int
    decreases n,
{
    if n == 0 {
        1
    } else {
        10 * pow10((n - 1) as nat)
    }
}

/// A decimal number `(-1)^negative * magnitude / 10^scale`.
///
/// The sign is kept apart from the magnitude, so a negative zero is
/// representable, as it is in `rust_decimal`.
#[derive(Clone, Copy, Debug)]
pub struct Amount {
    negative: bool,
    magnitude: u128,
    scale: u32,
}

/// The parts of a decimal: sign, magnitude, scale.
pub type Parts = (bool, int, int);

/// What `Decimal::checked_add` returns for two decimals, by their parts.
pub uninterp spec fn decimal_checked_sum(a: Parts, b: Parts) -> Option<Parts>;

/// What `Decimal::checked_sub` returns for two decimals, by their parts.
pub uninterp spec fn decimal_checked_difference(a: Parts, b: Parts) -> Option<Parts>;

/// What `Decimal::round_dp` returns: a decimal with no more than `places`
/// places is returned as it is; otherwise the magnitude is divided by
/// 10^(scale - places) and rounded half to even, the scale becomes `places`,
/// and the sign is kept unless a nonzero magnitude rounds to zero.
pub open spec fn decimal_rounded(a: Parts, places: int) -> Parts {
    if a.2 <= places {
        a
    } else if a.1 == 0 {
        (a.0, 0, places)
    } else {
        let d = pow10((a.2 - places) as nat);
        let q = a.1 / d;
        let r = a.1 % d;
        let q2 = if 2 * r > d || (2 * r == d && q % 2 == 1) {
            q + 1
        } else {
            q
        };
        (a.0 && q2 != 0, q2, places)
    }
}

/// `n` zero characters.
pub open spec fn zeros(n: nat) -> Seq<char> {
    Seq::new(n, |i: int| '0')
}

/// The digits of a magnitude (none for zero), left-padded with zeros to at
/// least `scale` digits.
pub open spec fn padded_digits(magnitude: nat, scale: nat) -> Seq<char> {
    let digits = if magnitude == 0 {
        Seq::<char>::empty()
    } else {
        decimal_digits(magnitude)
    };
    if digits.len() < scale {
        zeros((scale - digits.len()) as nat) + digits
    } else {
        digits
    }
}

/// The text that `Decimal`'s `Display` writes: a `-` for a negative sign
/// (also on zero), the whole digits (`0` when there are none), and, when the
/// scale is not zero, a `.` followed by exactly `scale` digits.
pub open spec fn decimal_text(a: Parts) -> Seq<char> {
    let digits = padded_digits(a.1 as nat, a.2 as nat);
    let whole = digits.len() - a.2;
    let body = if a.2 == 0 {
        if digits.len() == 0 {
            seq!['0']
        } else {
            digits
        }
    } else {
        (if whole == 0 {
            seq!['0']
        } else {
            digits.take(whole)
        }) + seq!['.'] + digits.skip(whole)
    };
    if a.0 {
        seq!['-'] + body
    } else {
        body
    }
}

/// What `Decimal::from_str` parses from a text, by the parts of the result.
pub uninterp spec fn decimal_from_text(text: Seq<char>) -> Option<Parts>;

/// One of the characters `0` to `9`.
pub open spec fn is_digit(c: char) -> bool {
    '0' <= c && c <= '9'
}

/// The length of a leading `+` or `-`: one or zero.
pub open spec fn sign_length(t: Seq<char>) -> int {
    if t.len() > 0 && (t[0] == '+' || t[0] == '-') {
        1
    } else {
        0
    }
}

/// A decimal written plainly in fewer than 18 characters: an optional `+`
/// or `-`, then digits with at most one `.` among them, and at least one digit.
pub open spec fn plain_decimal(t: Seq<char>) -> bool {
    let u = t.skip(sign_length(t));
    &&& t.len() < 18
    &&& forall|i: int| 0 <= i < u.len() ==> is_digit(#[trigger] u[i]) || u[i] == '.'
    &&& forall|i: int, j: int| 0 <= i < j < u.len() ==> !(#[trigger] u[i] == '.' && #[trigger] u[j] == '.')
    &&& exists|i: int| 0 <= i < u.len() && is_digit(#[trigger] u[i])
}

/// The number the digits of `u` spell, a `.` among them skipped.
pub open spec fn digits_number(u: Seq<char>) -> nat
    decreases u.len(),
{
    if u.len() == 0 {
        0
    } else if u.last() == '.' {
        digits_number(u.drop_last())
    } else {
        digits_number(u.drop_last()) * 10 + (u.last() as int - 48) as nat
    }
}

/// The number of characters after the last `.` of `u` (all of them without one).
pub open spec fn trailing_length(u: Seq<char>) -> nat
    decreases u.len(),
{
    if u.len() == 0 || u.last() == '.' {
        0
    } else {
        trailing_length(u.drop_last()) + 1
    }
}

/// The parts of a plainly written decimal: its digits as the magnitude, the
/// digits after the point (trailing zeros included) as the scale, and a
/// negative sign for a `-` unless the number is zero.
pub open spec fn plain_decimal_parts(t: Seq<char>) -> Parts {
    let u = t.skip(sign_length(t));
    let m = digits_number(u);
    let scale = if u.contains('.') {
        trailing_length(u)
    } else {
        0
    };
    (t[0] == '-' && m != 0, m as int, scale as int)
}

/// The parts are those of a representable decimal.
pub open spec fn parts_wf(p: Parts) -> bool {
    0 <= p.1 <= MAX_MAGNITUDE && 0 <= p.2 <= MAX_SCALE
}

/// The signed integer `(-1)^negative * magnitude`.
pub open spec fn parts_signed(p: Parts) -> int {
    if p.0 {
        -p.1
    } else {
        p.1
    }
}

/// The value of the parts in units of 10^-28 (every decimal is a whole number of those).
pub open spec fn parts_value(p: Parts) -> int {
    parts_signed(p) * pow10((MAX_SCALE - p.2) as nat)
}

impl View for Amount {
    type V = Parts;

    closed spec fn view(&self) -> Parts {
        (self.negative, self.magnitude as int, self.scale as int)
    }
}

impl Amount {
    #[verifier::type_invariant]
    spec fn inv(self) -> bool {
        self.magnitude <= MAX_MAGNITUDE && self.scale <= MAX_SCALE
    }

    /// The value in units of 10^-28.
    pub open spec fn value(self) -> int {
        parts_value(self@)
    }
}


/// Zero, with no places after the point (`Decimal::ZERO`).
pub closed spec fn zero_amount() -> Amount {
    Amount { negative: false, magnitude: 0, scale: 0 }
}

/// The parts of zero, and its value.
pub proof fn lemma_zero_amount()
    ensures
        zero_amount()@ == (false, 0int, 0int),
        zero_amount().value() == 0,
{
    assert(parts_signed(zero_amount()@) == 0);
    assert(0 * pow10((MAX_SCALE - 0) as nat) == 0);
}

/// The larger of the two scales.
pub open spec fn common_scale(a: Amount, b: Amount) -> int {
    if a@.2 >= b@.2 {
        a@.2
    } else {
        b@.2
    }
}

/// The signed magnitude of `p` when written with `s` places (`s` at least its scale).
pub open spec fn aligned(p: Parts, s: int) -> int {
    parts_signed(p) * pow10((s - p.2) as nat)
}

/// The exact sum can be written with the larger of the two scales.
pub open spec fn sum_exact(a: Amount, b: Amount) -> bool {
    let s = common_scale(a, b);
    -MAX_MAGNITUDE <= aligned(a@, s) + aligned(b@, s) <= MAX_MAGNITUDE
}

/// The exact difference can be written with the larger of the two scales.
pub open spec fn difference_exact(a: Amount, b: Amount) -> bool {
    let s = common_scale(a, b);
    -MAX_MAGNITUDE <= aligned(a@, s) - aligned(b@, s) <= MAX_MAGNITUDE
}

/// Adding two amounts with at most four places whose exact sum can be
/// written with the larger of their scales: then `(a + b).round_dp(4)` is exact.
pub open spec fn sum_fits(a: Amount, b: Amount) -> bool {
    common_scale(a, b) <= 4 && sum_exact(a, b)
}

/// Subtracting two amounts with at most four places whose exact difference
/// can be written with the larger of their scales: then `(a - b).round_dp(4)` is exact.
pub open spec fn difference_fits(a: Amount, b: Amount) -> bool {
    common_scale(a, b) <= 4 && difference_exact(a, b)
}

pub proof fn lemma_pow10_positive(n: nat)
    ensures
        pow10(n) > 0,
    decreases n,
{
    if n > 0 {
        lemma_pow10_positive((n - 1) as nat);
    }
}

/// The value is positive exactly when the sign is positive and the magnitude is not zero.
pub proof fn lemma_value_positive(p: Parts)
    requires
        0 <= p.1,
        0 <= p.2 <= MAX_SCALE,
    ensures
        parts_value(p) > 0 <==> (!p.0 && p.1 > 0),
{
    let f = pow10((MAX_SCALE - p.2) as nat);
    lemma_pow10_positive((MAX_SCALE - p.2) as nat);
    let s = parts_signed(p);
    assert(s > 0 ==> s * f > 0) by (nonlinear_arith)
        requires
            f > 0,
    ;
    assert(s <= 0 ==> s * f <= 0) by (nonlinear_arith)
        requires
            f > 0,
    ;
}

impl Amount {
    /// The decimal `num / 10^scale`, as `Decimal::new` builds it.
    pub fn new(num: i64, scale: u32) -> (r: Amount)
        requires
            scale <= MAX_SCALE,
        ensures
            r@ == (num < 0, if num < 0 { -num } else { num as int }, scale as int),
    {
        let magnitude: u128 = if num < 0 {
            (-(num as i128)) as u128
        } else {
            num as u128
        };
        Amount { negative: num < 0, magnitude, scale }
    }

    /// Zero, with no places after the point.
    pub fn zero() -> (r: Amount)
        ensures
            r == zero_amount(),
            r@ == (false, 0int, 0int),
    {
        Amount { negative: false, magnitude: 0, scale: 0 }
    }

    /// The sign, the magnitude and the scale.
    pub fn parts(&self) -> (r: (bool, u128, u32))
        ensures
            (r.0, r.1 as int, r.2 as int) == self@,
            parts_wf(self@),
    {
        proof {
            use_type_invariant(self);
        }
        (self.negative, self.magnitude, self.scale)
    }

    /// The number of places after the point.
    pub fn scale(&self) -> (r: u32)
        ensures
            r as int == self@.2,
    {
        self.scale
    }

    /// The amount rendered as `Decimal`'s `Display` renders it.
    pub fn to_text(&self) -> (r: String)
        ensures
            r@ == decimal_text(self@),
    {
        decimal_to_text(self)
    }
}

/// Calls `Decimal::checked_add` on the decimals with the parts of `a` and `b`.
///
/// Claims: the result is the one `Decimal::checked_add` gives; and when the
/// exact sum can be written with the larger of the two scales, it is
/// computed without round-off, with no more places than that.
#[verifier::external_body]
fn decimal_checked_add(a: &Amount, b: &Amount) -> (r: Option<Amount>)
    ensures
        r is Some == decimal_checked_sum(a@, b@) is Some,
        r matches Some(x) ==> x@ == decimal_checked_sum(a@, b@)->0,
        sum_exact(*a, *b) ==> r is Some,
        r matches Some(x) ==> (sum_exact(*a, *b) ==> x@.2 <= common_scale(*a, *b) && x.value()
            == a.value() + b.value()),
{
    let mut x = Decimal::from_i128_with_scale(a.magnitude as i128, a.scale);
    x.set_sign_negative(a.negative);
    let mut y = Decimal::from_i128_with_scale(b.magnitude as i128, b.scale);
    y.set_sign_negative(b.negative);
    match x.checked_add(y) {
        Some(s) => Some(Amount { negative: s.is_sign_negative(), magnitude: s.mantissa().unsigned_abs(), scale: s.scale() }),
        None => None,
    }
}

/// Calls `Decimal::checked_sub` on the decimals with the parts of `a` and `b`.
///
/// Claims: the result is the one `Decimal::checked_sub` gives; and when the
/// exact difference can be written with the larger of the two scales, it is
/// computed without round-off, with no more places than that.
#[verifier::external_body]
fn decimal_checked_sub(a: &Amount, b: &Amount) -> (r: Option<Amount>)
    ensures
        r is Some == decimal_checked_difference(a@, b@) is Some,
        r matches Some(x) ==> x@ == decimal_checked_difference(a@, b@)->0,
        difference_exact(*a, *b) ==> r is Some,
        r matches Some(x) ==> (difference_exact(*a, *b) ==> x@.2 <= common_scale(*a, *b)
            && x.value() == a.value() - b.value()),
{
    let mut x = Decimal::from_i128_with_scale(a.magnitude as i128, a.scale);
    x.set_sign_negative(a.negative);
    let mut y = Decimal::from_i128_with_scale(b.magnitude as i128, b.scale);
    y.set_sign_negative(b.negative);
    match x.checked_sub(y) {
        Some(s) => Some(Amount { negative: s.is_sign_negative(), magnitude: s.mantissa().unsigned_abs(), scale: s.scale() }),
        None => None,
    }
}

/// Calls `Decimal::round_dp` on the decimal with the parts of `a`.
///
/// Claims that the result is as `decimal_rounded` states: unchanged with no
/// more than `places` places, else rounded half to even to `places` places.
#[verifier::external_body]
fn decimal_round_dp(a: &Amount, places: u32) -> (r: Amount)
    ensures
        r@ == decimal_rounded(a@, places as int),
{
    let mut x = Decimal::from_i128_with_scale(a.magnitude as i128, a.scale);
    x.set_sign_negative(a.negative);
    let s = x.round_dp(places);
    Amount { negative: s.is_sign_negative(), magnitude: s.mantissa().unsigned_abs(), scale: s.scale() }
}

/// Calls `<` on the decimals with the parts of `a` and `b`.
///
/// Claims: decimals are ordered by their numeric value.
#[verifier::external_body]
fn decimal_less_than(a: &Amount, b: &Amount) -> (r: bool)
    ensures
        r == (a.value() < b.value()),
{
    let mut x = Decimal::from_i128_with_scale(a.magnitude as i128, a.scale);
    x.set_sign_negative(a.negative);
    let mut y = Decimal::from_i128_with_scale(b.magnitude as i128, b.scale);
    y.set_sign_negative(b.negative);
    x < y
}

/// Calls `==` on the decimals with the parts of `a` and `b`.
///
/// Claims: decimals are equal exactly when their numeric values are.
#[verifier::external_body]
fn decimal_equal(a: &Amount, b: &Amount) -> (r: bool)
    ensures
        r == (a.value() == b.value()),
{
    let mut x = Decimal::from_i128_with_scale(a.magnitude as i128, a.scale);
    x.set_sign_negative(a.negative);
    let mut y = Decimal::from_i128_with_scale(b.magnitude as i128, b.scale);
    y.set_sign_negative(b.negative);
    x == y
}

/// Calls `to_string` (the `Display` impl) on the decimal with the parts of `a`.
///
/// Claims that the text is as `decimal_text` states it.
#[verifier::external_body]
fn decimal_to_text(a: &Amount) -> (r: String)
    ensures
        r@ == decimal_text(a@),
{
    let mut x = Decimal::from_i128_with_scale(a.magnitude as i128, a.scale);
    x.set_sign_negative(a.negative);
    x.to_string()
}

/// Calls `Decimal::from_str` on `text`.
///
/// Claims: the result is the one `from_str` gives (named); a parsed decimal
/// has a magnitude below 2^96 and a scale of at most 28; and a plainly
/// written decimal (see `plain_decimal`) parses to the parts its digits spell.
#[verifier::external_body]
pub(crate) fn decimal_parse(text: &str) -> (r: Option<Amount>)
    ensures
        r is Some == decimal_from_text(text@) is Some,
        r matches Some(x) ==> x@ == decimal_from_text(text@)->0 && parts_wf(x@),
        plain_decimal(text@) ==> r is Some,
        r matches Some(x) ==> (plain_decimal(text@) ==> x@ == plain_decimal_parts(text@)),
{
    match text.parse::<Decimal>() {
        Ok(s) => Some(Amount { negative: s.is_sign_negative(), magnitude: s.mantissa().unsigned_abs(), scale: s.scale() }),
        Err(_) => None,
    }
}

/// `+` followed by rounding to four places, as balances are updated.
pub open spec fn plus_four_places(a: Amount, b: Amount) -> Parts {
    decimal_rounded(decimal_checked_sum(a@, b@)->0, 4)
}

/// `-` followed by rounding to four places, as balances are updated.
pub open spec fn minus_four_places(a: Amount, b: Amount) -> Parts {
    decimal_rounded(decimal_checked_difference(a@, b@)->0, 4)
}

/// `+` does not overflow.
pub open spec fn plus_defined(a: Amount, b: Amount) -> bool {
    decimal_checked_sum(a@, b@) is Some
}

/// `-` does not overflow.
pub open spec fn minus_defined(a: Amount, b: Amount) -> bool {
    decimal_checked_difference(a@, b@) is Some
}

impl Amount {
    /// `(self + other).round_dp(4)`.
    pub fn plus(&self, other: &Amount) -> (r: Amount)
        requires
            plus_defined(*self, *other),
        ensures
            r@ == plus_four_places(*self, *other),
            sum_fits(*self, *other) ==> r@.2 <= 4 && r.value() == self.value() + other.value(),
    {
        match decimal_checked_add(self, other) {
            Some(s) => decimal_round_dp(&s, 4),
            None => *self,
        }
    }

    /// `(self - other).round_dp(4)`.
    pub fn minus(&self, other: &Amount) -> (r: Amount)
        requires
            minus_defined(*self, *other),
        ensures
            r@ == minus_four_places(*self, *other),
            difference_fits(*self, *other) ==> r@.2 <= 4 && r.value() == self.value()
                - other.value(),
    {
        match decimal_checked_sub(self, other) {
            Some(s) => decimal_round_dp(&s, 4),
            None => *self,
        }
    }

    /// Whether `self + other` stays within range.
    pub fn can_add(&self, other: &Amount) -> (r: bool)
        ensures
            r == plus_defined(*self, *other),
            sum_exact(*self, *other) ==> r,
    {
        decimal_checked_add(self, other).is_some()
    }

    /// Whether `self - other` stays within range.
    pub fn can_subtract(&self, other: &Amount) -> (r: bool)
        ensures
            r == minus_defined(*self, *other),
            difference_exact(*self, *other) ==> r,
    {
        decimal_checked_sub(self, other).is_some()
    }

    /// `self < other`, by numeric value.
    pub fn less_than(&self, other: &Amount) -> (r: bool)
        ensures
            r == (self.value() < other.value()),
    {
        decimal_less_than(self, other)
    }
}


impl Amount {
    /// `self + other`, without rounding.
    pub fn sum(&self, other: &Amount) -> (r: Amount)
        requires
            plus_defined(*self, *other),
        ensures
            r@ == decimal_checked_sum(self@, other@)->0,
            sum_exact(*self, *other) ==> r@.2 <= common_scale(*self, *other) && r.value()
                == self.value() + other.value(),
    {
        match decimal_checked_add(self, other) {
            Some(s) => s,
            None => *self,
        }
    }
}

impl PartialEq for Amount {
    fn eq(&self, other: &Amount) -> (r: bool) {
        decimal_equal(self, other)
    }
}

impl vstd::std_specs::cmp::PartialEqSpecImpl for Amount {
    open spec fn obeys_eq_spec() -> bool {
        true
    }

    open spec fn eq_spec(&self, other: &Amount) -> bool {
        self.value() == other.value()
    }
}

} // verus!
