//! Money amounts: the decimal numbers of `rust_decimal`, held as plain parts.
//!
//! An [`Amount`] is what a `rust_decimal::Decimal` holds: a signed mantissa of
//! at most 96 bits, a scale (digits after the point, at most 28) and the sign
//! flag (a zero may carry a negative sign).  Its exact value is
//! `mantissa / 10^scale`; contracts speak of `units`, that value times `10^28`,
//! which is always an integer.  The arithmetic itself is done by `rust_decimal`.
use vstd::prelude::*;

use rust_decimal::Decimal;
use vstd::std_specs::cmp::PartialEqSpecImpl;

verus! {

/// `10^n`.
pub open spec fn pow10(n: nat) -> int
    decreases n,
{
    if n == 0 {
        1
    } else {
        10 * pow10((n - 1) as nat)
    }
}

pub proof fn lemma_pow10_pos(n: nat)
    ensures
        pow10(n) >= 1,
    decreases n,
{
    if n > 0 {
        lemma_pow10_pos((n - 1) as nat);
    }
}

pub proof fn lemma_pow10_mono(a: nat, b: nat)
    requires
        a <= b,
    ensures
        pow10(a) <= pow10(b),
    decreases b,
{
    if a < b {
        lemma_pow10_mono(a, (b - 1) as nat);
        lemma_pow10_pos((b - 1) as nat);
    }
}

/// `2^96`: mantissas are smaller in magnitude.
pub open spec fn mantissa_bound() -> int {
    0x1_0000_0000_0000_0000_0000_0000
}

/// The largest scale `rust_decimal` supports.
pub open spec fn max_scale() -> nat {
    28
}

pub open spec fn max_nat(a: nat, b: nat) -> nat {
    if a >= b {
        a
    } else {
        b
    }
}

pub open spec fn abs_int(x: int) -> int {
    if x < 0 {
        -x
    } else {
        x
    }
}

/// A value of `units` can be held exactly at scale `s` or finer.
pub open spec fn fits_at(units: int, s: nat) -> bool {
    abs_int(units) < mantissa_bound() * pow10((28 - s) as nat)
}

/// The value times `10^28` of a (mantissa, scale, sign) triple.
pub open spec fn view_units(v: (int, nat, bool)) -> int {
    v.0 * pow10((28 - v.1) as nat)
}

/// A decimal number as `rust_decimal::Decimal` holds it.
#[derive(Clone, Copy, Debug)]
pub struct Amount {
    mantissa: i128,
    scale: u32,
    negative: bool,
}

impl View for Amount {
    type V = (int, nat, bool);

    /// Mantissa, scale and sign flag.
    closed spec fn view(&self) -> (int, nat, bool) {
        (self.mantissa as int, self.scale as nat, self.negative)
    }
}

impl Amount {
    #[verifier::type_invariant]
    closed spec fn inv(self) -> bool {
        &&& -mantissa_bound() < self.mantissa < mantissa_bound()
        &&& self.scale <= 28
        &&& self.mantissa != 0 ==> (self.negative <==> self.mantissa < 0)
    }

    /// The value times `10^28`.
    pub open spec fn units(self) -> int {
        view_units(self@)
    }

    /// Digits after the point.
    pub open spec fn scale_spec(self) -> nat {
        self@.1
    }

    /// The invariant every amount keeps.
    pub open spec fn valid(self) -> bool {
        &&& -mantissa_bound() < self@.0 < mantissa_bound()
        &&& self@.1 <= 28
        &&& self@.0 != 0 ==> (self@.2 <==> self@.0 < 0)
    }

    /// Brings the invariant of `self` into the proof context.
    pub fn check_valid(&self)
        ensures
            self.valid(),
    {
        proof {
            use_type_invariant(self);
        }
    }

    /// `Decimal::ZERO`.
    pub fn zero() -> (r: Amount)
        ensures
            r.units() == 0,
            r@ == (0int, 0nat, false),
    {
        Amount { mantissa: 0, scale: 0, negative: false }
    }

    /// `Decimal::new(num, scale)`: the value `num / 10^scale`.
    pub fn new(num: i64, scale: u32) -> (r: Amount)
        requires
            scale <= 28,
        ensures
            r@ == (num as int, scale as nat, num < 0),
            r.units() == num * pow10((28 - scale) as nat),
    {
        Amount { mantissa: num as i128, scale, negative: num < 0 }
    }

    /// `Decimal::mantissa`.
    pub fn mantissa(&self) -> (m: i128)
        ensures
            m == self@.0,
    {
        self.mantissa
    }

    /// `Decimal::scale`.
    pub fn scale(&self) -> (s: u32)
        ensures
            s == self@.1,
    {
        self.scale
    }

    /// `Decimal::is_zero`.
    pub fn is_zero(&self) -> (b: bool)
        ensures
            b == (self.units() == 0),
            b == (self@.0 == 0),
    {
        proof {
            use_type_invariant(self);
            lemma_pow10_pos((28 - self.scale) as nat);
            if self.mantissa > 0 {
                assert(self.mantissa * pow10((28 - self.scale) as nat) > 0) by (nonlinear_arith)
                    requires
                        self.mantissa > 0,
                        pow10((28 - self.scale) as nat) >= 1,
                ;
            } else if self.mantissa < 0 {
                assert(self.mantissa * pow10((28 - self.scale) as nat) < 0) by (nonlinear_arith)
                    requires
                        self.mantissa < 0,
                        pow10((28 - self.scale) as nat) >= 1,
                ;
            }
        }
        self.mantissa == 0
    }

    /// `Decimal::is_sign_negative`: the sign flag.
    pub fn is_sign_negative(&self) -> (b: bool)
        ensures
            b == self@.2,
            self.units() < 0 ==> b,
            self.units() > 0 ==> !b,
    {
        proof {
            use_type_invariant(self);
            self.lemma_units_sign();
        }
        self.negative
    }

    /// `Decimal::is_sign_positive`: the sign flag is clear.
    pub fn is_sign_positive(&self) -> (b: bool)
        ensures
            b == !self@.2,
            self.units() < 0 ==> !b,
            self.units() > 0 ==> b,
    {
        proof {
            use_type_invariant(self);
            self.lemma_units_sign();
        }
        !self.negative
    }

    proof fn lemma_units_sign(self)
        requires
            self.inv(),
        ensures
            self.units() > 0 <==> self.mantissa > 0,
            self.units() < 0 <==> self.mantissa < 0,
    {
        let p = pow10((28 - self.scale) as nat);
        lemma_pow10_pos((28 - self.scale) as nat);
        assert(self.units() == self.mantissa * p);
        if self.mantissa == 0 {
            assert(self.mantissa * p == 0);
        } else if self.mantissa > 0 {
            assert(self.mantissa * p > 0) by (nonlinear_arith)
                requires
                    self.mantissa > 0,
                    p >= 1,
            ;
        } else if self.mantissa < 0 {
            assert(self.mantissa * p < 0) by (nonlinear_arith)
                requires
                    self.mantissa < 0,
                    p >= 1,
            ;
        }
    }

    /// `-d`: flips the sign flag.
    pub fn neg(&self) -> (r: Amount)
        ensures
            r@ == (-self@.0, self@.1, !self@.2),
            r.units() == -self.units(),
    {
        proof {
            use_type_invariant(self);
            let p = pow10((28 - self.scale) as nat);
            assert((-self.mantissa) * p == -(self.mantissa * p)) by (nonlinear_arith);
        }
        Amount { mantissa: -self.mantissa, scale: self.scale, negative: !self.negative }
    }

    /// `Decimal::abs`: clears the sign flag.
    pub fn abs(&self) -> (r: Amount)
        ensures
            r@ == (abs_int(self@.0), self@.1, false),
            r.units() == abs_int(self.units()),
    {
        proof {
            use_type_invariant(self);
            self.lemma_units_sign();
            let p = pow10((28 - self.scale) as nat);
            assert((-self.mantissa) * p == -(self.mantissa * p)) by (nonlinear_arith);
        }
        if self.mantissa < 0 {
            Amount { mantissa: -self.mantissa, scale: self.scale, negative: false }
        } else {
            Amount { mantissa: self.mantissa, scale: self.scale, negative: false }
        }
    }

    /// Reads a decimal numeral as `Decimal::from_str` does; `None` where it
    /// refuses the text.  A plain numeral of at most 17 characters is read
    /// exactly.
    pub fn parse(s: &str) -> (r: Option<Amount>)
        ensures
            r matches Some(x) ==> decimal_parse(s@) == Some(x@),
            r is None ==> decimal_parse(s@) is None,
            is_plain_numeral(s@) && s@.len() <= 17 ==> (r matches Some(x) && x@.0
                == plain_numeral_value(s@) && x@.1 == plain_numeral_scale(s@)),
    {
        decimal_from_str(s)
    }
}

// ---------------------------------------------------------------------------
// rust_decimal: the operations this library takes from it
// ---------------------------------------------------------------------------

/// What `rust_decimal`'s `+` returns (mantissa, scale and sign flag).
pub uninterp spec fn decimal_sum(a: (int, nat, bool), b: (int, nat, bool)) -> (int, nat, bool);

/// What `rust_decimal`'s `-` returns.
pub uninterp spec fn decimal_difference(a: (int, nat, bool), b: (int, nat, bool)) -> (
    int,
    nat,
    bool,
);

/// What `rust_decimal`'s `*` returns.
pub uninterp spec fn decimal_product(a: (int, nat, bool), b: (int, nat, bool)) -> (
    int,
    nat,
    bool,
);

/// What `rust_decimal`'s `/` returns.
pub uninterp spec fn decimal_quotient(a: (int, nat, bool), b: (int, nat, bool)) -> (
    int,
    nat,
    bool,
);

/// What `Decimal::round_dp(dp)` returns (midpoint to even): an amount with
/// at most `dp` digits after the point as it is; any other one cut to `dp`
/// digits, one more in the last place when the part cut off is over half of
/// it, or exactly half with an odd last digit.  A result of zero keeps the
/// sign flag only when the amount was zero already.
#[verifier::opaque]
pub open spec fn decimal_rounded(a: (int, nat, bool), dp: nat) -> (int, nat, bool) {
    if a.1 <= dp {
        a
    } else {
        let k = (a.1 - dp) as nat;
        let m = abs_int(a.0);
        let q = m / pow10(k);
        let rest = m % pow10(k);
        let half = 5 * pow10((k - 1) as nat);
        let q2 = if rest > half || (rest == half && q % 2 == 1) {
            q + 1
        } else {
            q
        };
        (if a.2 {
            -q2
        } else {
            q2
        }, dp, if a.0 == 0 {
            a.2
        } else {
            a.2 && q2 != 0
        })
    }
}

/// What `Decimal::from_str` returns (`None` for an error).
pub uninterp spec fn decimal_parse(s: Seq<char>) -> Option<(int, nat, bool)>;

/// `Decimal + Decimal` (`rust_decimal`, `impl Add`).
///
/// Claimed: when the exact sum can be held at the finer of the two scales
/// (the `requires`), the result is that exact sum, at a scale no finer than
/// the finer operand's.  Not claimed: which scale and, for a zero sum, which
/// sign flag the result carries; the name `decimal_sum` stands for them.
#[verifier::external_body]
pub(crate) fn decimal_add(a: Amount, b: Amount) -> (r: Amount)
    requires
        fits_at(a.units() + b.units(), max_nat(a@.1, b@.1)),
    ensures
        r.units() == a.units() + b.units(),
        r@.1 <= max_nat(a@.1, b@.1),
        r@ == decimal_sum(a@, b@),
{
    let mut x = Decimal::from_i128_with_scale(a.mantissa, a.scale);
    x.set_sign_negative(a.negative);
    let mut y = Decimal::from_i128_with_scale(b.mantissa, b.scale);
    y.set_sign_negative(b.negative);
    let z = x + y;
    Amount { mantissa: z.mantissa(), scale: z.scale(), negative: z.is_sign_negative() }
}

/// `Decimal - Decimal` (`rust_decimal`, `impl Sub`).
///
/// Claimed as for [`decimal_add`], for the exact difference; the name
/// `decimal_difference` stands for the scale and zero sign left open.
#[verifier::external_body]
pub(crate) fn decimal_sub(a: Amount, b: Amount) -> (r: Amount)
    requires
        fits_at(a.units() - b.units(), max_nat(a@.1, b@.1)),
    ensures
        r.units() == a.units() - b.units(),
        r@.1 <= max_nat(a@.1, b@.1),
        r@ == decimal_difference(a@, b@),
{
    let mut x = Decimal::from_i128_with_scale(a.mantissa, a.scale);
    x.set_sign_negative(a.negative);
    let mut y = Decimal::from_i128_with_scale(b.mantissa, b.scale);
    y.set_sign_negative(b.negative);
    let z = x - y;
    Amount { mantissa: z.mantissa(), scale: z.scale(), negative: z.is_sign_negative() }
}

/// `Decimal * Decimal` (`rust_decimal`, `impl Mul`), which panics only when
/// the product's integer part needs more than 96 bits; the `requires` keeps
/// the exact product's magnitude below `2^95`.  The result, rounded to fit,
/// is left to the name `decimal_product`.
#[verifier::external_body]
pub(crate) fn decimal_mul(a: Amount, b: Amount) -> (r: Amount)
    requires
        abs_int(a.units() * b.units()) < mantissa_bound() / 2 * pow10(28) * pow10(28),
    ensures
        r@ == decimal_product(a@, b@),
{
    let mut x = Decimal::from_i128_with_scale(a.mantissa, a.scale);
    x.set_sign_negative(a.negative);
    let mut y = Decimal::from_i128_with_scale(b.mantissa, b.scale);
    y.set_sign_negative(b.negative);
    let z = x * y;
    Amount { mantissa: z.mantissa(), scale: z.scale(), negative: z.is_sign_negative() }
}

/// `Decimal / Decimal` (`rust_decimal`, `impl Div`), which panics on a zero
/// divisor or a quotient whose integer part needs more than 96 bits; the
/// `requires` rules out both.  The quotient is rounded to the digits a 96-bit
/// mantissa holds, so it lies within one of the exact quotient; which digits
/// it keeps is left to the name `decimal_quotient`.
#[verifier::external_body]
pub(crate) fn decimal_div(a: Amount, b: Amount) -> (r: Amount)
    requires
        b.units() != 0,
        abs_int(a.units()) < mantissa_bound() / 2 * abs_int(b.units()),
    ensures
        r@ == decimal_quotient(a@, b@),
        abs_int(r.units()) * abs_int(b.units()) <= (abs_int(a.units()) + abs_int(b.units())) * pow10(
            28,
        ),
{
    let mut x = Decimal::from_i128_with_scale(a.mantissa, a.scale);
    x.set_sign_negative(a.negative);
    let mut y = Decimal::from_i128_with_scale(b.mantissa, b.scale);
    y.set_sign_negative(b.negative);
    let z = x / y;
    Amount { mantissa: z.mantissa(), scale: z.scale(), negative: z.is_sign_negative() }
}

/// `Decimal::round_dp` (`round_dp_with_strategy` with `MidpointNearestEven`,
/// then `from_parts`): claimed to return [`decimal_rounded`]; also claimed,
/// as follows from it, that an amount with at most `dp` digits after the
/// point comes back unchanged, any other one with exactly `dp` digits and at
/// most 1 away from the unrounded value.
#[verifier::external_body]
pub(crate) fn decimal_round_dp(a: Amount, dp: u32) -> (r: Amount)
    ensures
        r@ == decimal_rounded(a@, dp as nat),
        abs_int(r.units() - a.units()) <= pow10(28),
        a@.1 <= dp ==> r@ == a@,
        a@.1 > dp ==> r@.1 == dp,
{
    let mut x = Decimal::from_i128_with_scale(a.mantissa, a.scale);
    x.set_sign_negative(a.negative);
    let z = x.round_dp(dp);
    Amount { mantissa: z.mantissa(), scale: z.scale(), negative: z.is_sign_negative() }
}

/// `Decimal > Decimal`: compares the exact values.
#[verifier::external_body]
pub(crate) fn decimal_gt(a: Amount, b: Amount) -> (r: bool)
    ensures
        r == (a.units() > b.units()),
{
    let mut x = Decimal::from_i128_with_scale(a.mantissa, a.scale);
    x.set_sign_negative(a.negative);
    let mut y = Decimal::from_i128_with_scale(b.mantissa, b.scale);
    y.set_sign_negative(b.negative);
    x > y
}

/// `Decimal == Decimal`: compares the exact values.
#[verifier::external_body]
pub(crate) fn decimal_eq(a: Amount, b: Amount) -> (r: bool)
    ensures
        r == (a.units() == b.units()),
{
    let mut x = Decimal::from_i128_with_scale(a.mantissa, a.scale);
    x.set_sign_negative(a.negative);
    let mut y = Decimal::from_i128_with_scale(b.mantissa, b.scale);
    y.set_sign_negative(b.negative);
    x == y
}

/// `Decimal::from_str(s).ok()`.  Claimed beyond the name: a plain numeral
/// (an optional sign, digits, optionally a point and more digits) of at most
/// 17 characters parses exactly; see [`plain_numeral_value`].
#[verifier::external_body]
pub(crate) fn decimal_from_str(s: &str) -> (r: Option<Amount>)
    ensures
        r matches Some(x) ==> decimal_parse(s@) == Some(x@),
        r is None ==> decimal_parse(s@) is None,
        is_plain_numeral(s@) && s@.len() <= 17 ==> r is Some,
        is_plain_numeral(s@) && s@.len() <= 17 ==> r.unwrap()@.0 == plain_numeral_value(s@),
        is_plain_numeral(s@) && s@.len() <= 17 ==> r.unwrap()@.1 == plain_numeral_scale(s@),
{
    match <Decimal as std::str::FromStr>::from_str(s) {
        Ok(z) => Some(Amount { mantissa: z.mantissa(), scale: z.scale(), negative: z.is_sign_negative() }),
        Err(_) => None,
    }
}

/// The `-` that `Display` writes for a decimal whose sign flag is set.
pub open spec fn sign_text(v: (int, nat, bool)) -> Seq<char> {
    if v.2 {
        seq!['-']
    } else {
        Seq::<char>::empty()
    }
}

/// The digits of a decimal's mantissa, padded with zeros to at least its
/// scale.
pub open spec fn padded_digits(v: (int, nat, bool)) -> Seq<char> {
    crate::util::zero_padded(abs_int(v.0) as nat, v.1)
}

/// The digits before the point, `0` when there are none.
pub open spec fn whole_digits(v: (int, nat, bool)) -> Seq<char> {
    let p = padded_digits(v);
    let w = p.take(p.len() - v.1);
    if w.len() == 0 {
        seq!['0']
    } else {
        w
    }
}

/// The digits after the point, as many as the scale.
pub open spec fn fraction_digits(v: (int, nat, bool)) -> Seq<char> {
    let p = padded_digits(v);
    p.skip(p.len() - v.1)
}

/// What `format!("{:5.1}", d)` writes: the sign, the digits before the
/// point, a point and the first digit after it (cut, not rounded; `0` for a
/// whole number), with spaces in front up to five characters.
#[verifier::opaque]
pub open spec fn text_5_1_spec(v: (int, nat, bool)) -> Seq<char> {
    let t = sign_text(v) + whole_digits(v) + seq!['.'] + (if v.1 == 0 {
        seq!['0']
    } else {
        fraction_digits(v).take(1)
    });
    if t.len() >= 5 {
        t
    } else {
        Seq::new((5 - t.len()) as nat, |i: int| ' ') + t
    }
}

/// `format!("{:5.1}", d)`: `rust_decimal`'s `Display` (`str::to_str_internal`
/// with precision 1, then `Formatter::pad_integral` with width 5 and the sign
/// flag) writes [`text_5_1_spec`].
#[verifier::external_body]
pub(crate) fn decimal_to_text_5_1(a: Amount) -> (r: String)
    ensures
        r@ == text_5_1_spec(a@),
{
    let mut x = Decimal::from_i128_with_scale(a.mantissa, a.scale);
    x.set_sign_negative(a.negative);
    format!("{:5.1}", x)
}

/// What `format!("{}", d)` writes: the sign, the digits before the point,
/// and, when the scale is not zero, a point and as many digits as the scale.
#[verifier::opaque]
pub open spec fn display_text_spec(v: (int, nat, bool)) -> Seq<char> {
    sign_text(v) + whole_digits(v) + (if v.1 == 0 {
        Seq::<char>::empty()
    } else {
        seq!['.'] + fraction_digits(v)
    })
}

/// `format!("{}", d)`: `rust_decimal`'s `Display` (`str::to_str_internal`
/// with the scale as precision, then `Formatter::pad_integral` with the sign
/// flag) writes [`display_text_spec`].
#[verifier::external_body]
pub(crate) fn decimal_to_text(a: Amount) -> (r: String)
    ensures
        r@ == display_text_spec(a@),
{
    let mut x = Decimal::from_i128_with_scale(a.mantissa, a.scale);
    x.set_sign_negative(a.negative);
    format!("{}", x)
}

/// What `format!("{:.2}", d)` writes: the sign, the digits before the point,
/// a point, and the digits after it padded with zeros to two, or cut to two
/// (not rounded) when there are more.
#[verifier::opaque]
pub open spec fn text_2dp_spec(v: (int, nat, bool)) -> Seq<char> {
    sign_text(v) + whole_digits(v) + seq!['.'] + (if v.1 <= 2 {
        fraction_digits(v) + Seq::new((2 - v.1) as nat, |i: int| '0')
    } else {
        fraction_digits(v).take(2)
    })
}

/// `format!("{:.2}", d)`: `rust_decimal`'s `Display` (`str::to_str_internal`
/// with precision 2, then `Formatter::pad_integral` with the sign flag)
/// writes [`text_2dp_spec`].
#[verifier::external_body]
pub(crate) fn decimal_to_text_2dp(a: Amount) -> (r: String)
    ensures
        r@ == text_2dp_spec(a@),
{
    let mut x = Decimal::from_i128_with_scale(a.mantissa, a.scale);
    x.set_sign_negative(a.negative);
    format!("{:.2}", x)
}

/// `10^(a+b) == 10^a * 10^b`.
pub proof fn lemma_pow10_add(a: nat, b: nat)
    ensures
        pow10(a + b) == pow10(a) * pow10(b),
    decreases a,
{
    if a > 0 {
        lemma_pow10_add((a - 1) as nat, b);
        assert(pow10(a + b) == 10 * pow10((a - 1 + b) as nat));
        assert(10 * (pow10((a - 1) as nat) * pow10(b)) == (10 * pow10((a - 1) as nat)) * pow10(b))
            by (nonlinear_arith);
    }
}

/// An amount, and its negation, can be held at its own scale.
pub proof fn lemma_valid_fits(a: Amount)
    requires
        a.valid(),
    ensures
        fits_at(a.units(), a@.1),
        fits_at(-a.units(), a@.1),
{
    let p = pow10((28 - a@.1) as nat);
    lemma_pow10_pos((28 - a@.1) as nat);
    let m = a@.0;
    assert(abs_int(m * p) < mantissa_bound() * p) by (nonlinear_arith)
        requires
            -mantissa_bound() < m < mantissa_bound(),
            p >= 1,
    ;
}

/// A non-zero amount with at most `s` digits after the point is at least
/// `10^-s` in magnitude.
pub proof fn lemma_nonzero_magnitude(a: Amount, s: nat)
    requires
        a.valid(),
        a@.1 <= s <= 28,
        a.units() != 0,
    ensures
        abs_int(a.units()) >= pow10((28 - s) as nat),
{
    let p = pow10((28 - a@.1) as nat);
    lemma_pow10_mono((28 - s) as nat, (28 - a@.1) as nat);
    lemma_pow10_pos((28 - a@.1) as nat);
    assert(a@.0 != 0);
    assert(abs_int(a@.0 * p) >= p) by (nonlinear_arith)
        requires
            a@.0 != 0,
            p >= 1,
    ;
}

// ---------------------------------------------------------------------------
// Plain numerals
// ---------------------------------------------------------------------------

pub open spec fn is_ascii_digit(c: char) -> bool {
    '0' <= c <= '9'
}

pub open spec fn digit_value(c: char) -> int {
    (c as int) - ('0' as int)
}

/// The number written by a run of ASCII digits.
pub open spec fn digits_value(s: Seq<char>) -> int
    decreases s.len(),
{
    if s.len() == 0 {
        0
    } else {
        digits_value(s.drop_last()) * 10 + digit_value(s.last())
    }
}

pub open spec fn all_digits(s: Seq<char>) -> bool {
    forall|i: int| 0 <= i < s.len() ==> is_ascii_digit(#[trigger] s[i])
}

/// The numeral without its sign.
pub open spec fn unsigned_part(s: Seq<char>) -> Seq<char> {
    if s.len() > 0 && (s[0] == '-' || s[0] == '+') {
        s.drop_first()
    } else {
        s
    }
}

/// `[+-]?\d+(\.\d+)?`
pub open spec fn is_plain_numeral(s: Seq<char>) -> bool {
    let u = unsigned_part(s);
    ||| u.len() > 0 && all_digits(u)
    ||| exists|p: int|
        0 < p < u.len() - 1 && u[p] == '.' && all_digits(u.take(p)) && all_digits(u.skip(p + 1))
}

/// Position of the point in a plain numeral's unsigned part, if any.
pub open spec fn numeral_point(u: Seq<char>) -> int {
    choose|p: int| 0 < p < u.len() - 1 && u[p] == '.'
}

/// Digits after the point.
pub open spec fn plain_numeral_scale(s: Seq<char>) -> nat {
    let u = unsigned_part(s);
    if all_digits(u) {
        0
    } else {
        (u.len() - numeral_point(u) - 1) as nat
    }
}

/// The mantissa a plain numeral denotes.
pub open spec fn plain_numeral_value(s: Seq<char>) -> int {
    let u = unsigned_part(s);
    let magnitude = if all_digits(u) {
        digits_value(u)
    } else {
        digits_value(u.take(numeral_point(u)) + u.skip(numeral_point(u) + 1))
    };
    if s.len() > 0 && s[0] == '-' {
        -magnitude
    } else {
        magnitude
    }
}

// ---------------------------------------------------------------------------
// Equality by value
// ---------------------------------------------------------------------------

impl PartialEq for Amount {
    fn eq(&self, other: &Amount) -> (r: bool) {
        decimal_eq(*self, *other)
    }
}

impl PartialEqSpecImpl for Amount {
    open spec fn obeys_eq_spec() -> bool {
        true
    }

    open spec fn eq_spec(&self, other: &Amount) -> bool {
        self.units() == other.units()
    }
}

} // verus!
