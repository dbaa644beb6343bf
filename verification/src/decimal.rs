//! Exact decimal numbers as the library reads them: a sign, a magnitude and a
//! scale (the value is `magnitude / 10^scale`), the same triple that
//! `rust_decimal::Decimal` stores. Parsing and printing go through
//! `rust_decimal`; comparison is done here, exactly.
use vstd::prelude::*;
use std::str::FromStr;

verus! {

/// A decimal number `(-1)^negative * magnitude / 10^scale`.
#[derive(Clone, Copy, Debug, PartialEq, Eq, Structural)]
pub struct DecimalValue {
    pub negative: bool,
    pub magnitude: u128,
    pub scale: u32,
}

/// `10^n`.
pub open spec fn pow10(n: nat) -> nat
    decreases n,
{
    if n == 0 {
        1
    } else {
        10 * pow10((n - 1) as nat)
    }
}

/// Largest magnitude a `rust_decimal::Decimal` holds (96 bits).
pub open spec fn max_magnitude() -> nat {
    0xffff_ffff_ffff_ffff_ffff_ffff
}

impl DecimalValue {
    /// The triple is one that `rust_decimal::Decimal` can hold.
    pub open spec fn wf(self) -> bool {
        self.magnitude <= max_magnitude() && self.scale <= 28
    }

    /// The signed magnitude.
    pub open spec fn signed(self) -> int {
        if self.negative {
            -(self.magnitude as int)
        } else {
            self.magnitude as int
        }
    }

    /// The value brought to scale `s` (`s >= self.scale`): an integer equal to
    /// `value * 10^s`.
    pub open spec fn at_scale(self, s: nat) -> int {
        self.signed() * pow10((s - self.scale) as nat)
    }

    /// Zero (of either sign).
    pub open spec fn spec_is_zero(self) -> bool {
        self.magnitude == 0
    }

    /// Whether this number is zero (`Decimal::is_zero`).
    pub fn is_zero(&self) -> (res: bool)
        ensures
            res == self.spec_is_zero(),
    {
        self.magnitude == 0
    }
}

pub open spec fn max_scale(a: DecimalValue, b: DecimalValue) -> nat {
    if a.scale >= b.scale {
        a.scale as nat
    } else {
        b.scale as nat
    }
}

/// `a < b` as numbers.
pub open spec fn dec_lt(a: DecimalValue, b: DecimalValue) -> bool {
    a.at_scale(max_scale(a, b)) < b.at_scale(max_scale(a, b))
}

pub proof fn lemma_pow10_positive(n: nat)
    ensures
        pow10(n) >= 1,
    decreases n,
{
    if n > 0 {
        lemma_pow10_positive((n - 1) as nat);
    }
}

pub proof fn lemma_pow10_add(a: nat, b: nat)
    ensures
        pow10(a + b) == pow10(a) * pow10(b),
    decreases a,
{
    if a > 0 {
        let a1 = (a - 1) as nat;
        lemma_pow10_add(a1, b);
        assert(a1 + b == (a + b - 1) as nat);
        let x = pow10(a1);
        let y = pow10(b);
        assert(pow10(a + b) == 10 * pow10(a1 + b));
        assert(pow10(a) == 10 * x);
        assert(10 * (x * y) == (10 * x) * y) by (nonlinear_arith);
    } else {
        assert(pow10(0) == 1);
        assert(a + b == b);
    }
}

pub proof fn lemma_pow10_mono(a: nat, b: nat)
    requires
        a <= b,
    ensures
        pow10(a) <= pow10(b),
    decreases b,
{
    if a < b {
        lemma_pow10_mono(a, (b - 1) as nat);
        lemma_pow10_positive((b - 1) as nat);
    }
}

pub proof fn lemma_pow10_28()
    ensures
        pow10(28) == 10_000_000_000_000_000_000_000_000_000,
{
    reveal_with_fuel(pow10, 29);
}

/// `10^n` for `n <= 28`.
pub fn pow10_u128(n: u32) -> (res: u128)
    requires
        n <= 28,
    ensures
        res == pow10(n as nat),
{
    let mut r: u128 = 1;
    let mut i: u32 = 0;
    while i < n
        invariant
            i <= n <= 28,
            r == pow10(i as nat),
        decreases n - i,
    {
        proof {
            lemma_pow10_mono((i + 1) as nat, 28);
            lemma_pow10_28();
        }
        r = r * 10;
        i = i + 1;
    }
    r
}

proof fn lemma_lex_compare(ia: int, fa: int, ib: int, fb: int, p: int)
    requires
        0 <= fa < p,
        0 <= fb < p,
        ia >= 0,
        ib >= 0,
    ensures
        (ia * p + fa < ib * p + fb) == (ia < ib || (ia == ib && fa < fb)),
        (ia * p + fa == ib * p + fb) == (ia == ib && fa == fb),
{
    if ia < ib {
        assert(ia * p + p <= ib * p) by (nonlinear_arith)
            requires
                ia < ib,
                p > 0,
        ;
    } else if ia > ib {
        assert(ib * p + p <= ia * p) by (nonlinear_arith)
            requires
                ib < ia,
                p > 0,
        ;
    }
}

/// Splits a magnitude at scale `s` into the integer part and the fraction
/// brought to scale `big`.
fn split_at_scale(mag: u128, s: u32, big: u32) -> (res: (u128, u128))
    requires
        s <= big <= 28,
        mag <= max_magnitude(),
    ensures
        res.0 * pow10(big as nat) + res.1 == mag * pow10((big - s) as nat),
        res.1 < pow10(big as nat),
{
    let q = pow10_u128(s);
    let k = pow10_u128(big - s);
    proof {
        lemma_pow10_positive(s as nat);
        lemma_pow10_positive((big - s) as nat);
        lemma_pow10_add(s as nat, (big - s) as nat);
        lemma_pow10_mono(big as nat, 28);
        lemma_pow10_28();
    }
    let ip = mag / q;
    let r = mag % q;
    proof {
        assert(r < q);
        assert(r * k < q * k) by (nonlinear_arith)
            requires
                r < q,
                k > 0,
        ;
        assert(q * k == pow10(big as nat));
        assert(mag == ip * q + r) by (nonlinear_arith)
            requires
                ip == mag / q,
                r == mag % q,
                q > 0,
        ;
        assert(mag * k == ip * (q * k) + r * k) by (nonlinear_arith)
            requires
                mag == ip * q + r,
        ;
    }
    (ip, r * k)
}

/// `a < b` as numbers.
pub fn less_than(a: &DecimalValue, b: &DecimalValue) -> (res: bool)
    requires
        a.wf(),
        b.wf(),
    ensures
        res == dec_lt(*a, *b),
{
    let big = if a.scale >= b.scale { a.scale } else { b.scale };
    let (ia, fa) = split_at_scale(a.magnitude, a.scale, big);
    let (ib, fb) = split_at_scale(b.magnitude, b.scale, big);
    let ghost p = pow10(big as nat);
    let ghost ma = a.magnitude * pow10((big - a.scale) as nat);
    let ghost mb = b.magnitude * pow10((big - b.scale) as nat);
    proof {
        lemma_lex_compare(ia as int, fa as int, ib as int, fb as int, p as int);
        lemma_pow10_positive((big - a.scale) as nat);
        lemma_pow10_positive((big - b.scale) as nat);
        assert(a.magnitude == 0 <==> ma == 0) by (nonlinear_arith)
            requires
                ma == a.magnitude * pow10((big - a.scale) as nat),
                pow10((big - a.scale) as nat) >= 1,
        ;
        assert(b.magnitude == 0 <==> mb == 0) by (nonlinear_arith)
            requires
                mb == b.magnitude * pow10((big - b.scale) as nat),
                pow10((big - b.scale) as nat) >= 1,
        ;
        assert(a.at_scale(big as nat) == if a.negative { -ma } else { ma }) by (nonlinear_arith)
            requires
                a.signed() == if a.negative { -(a.magnitude as int) } else { a.magnitude as int },
                a.at_scale(big as nat) == a.signed() * pow10((big - a.scale) as nat),
                ma == a.magnitude * pow10((big - a.scale) as nat),
        ;
        assert(b.at_scale(big as nat) == if b.negative { -mb } else { mb }) by (nonlinear_arith)
            requires
                b.signed() == if b.negative { -(b.magnitude as int) } else { b.magnitude as int },
                b.at_scale(big as nat) == b.signed() * pow10((big - b.scale) as nat),
                mb == b.magnitude * pow10((big - b.scale) as nat),
        ;
    }
    let a_neg = a.negative && a.magnitude != 0;
    let b_neg = b.negative && b.magnitude != 0;
    let a_mag_lt_b = ia < ib || (ia == ib && fa < fb);
    let b_mag_lt_a = ib < ia || (ib == ia && fb < fa);
    if a_neg && !b_neg {
        true
    } else if !a_neg && b_neg {
        false
    } else if !a_neg {
        a_mag_lt_b
    } else {
        b_mag_lt_a
    }
}

/// What `rust_decimal::Decimal::from_str` gives for a string, as
/// `(negative, magnitude, scale)`, or `None` when it returns an error.
pub uninterp spec fn decimal_from_str(s: Seq<char>) -> Option<(bool, nat, nat)>;

/// Calls `rust_decimal::Decimal::from_str` and reads the sign, mantissa and
/// scale of the result. The contract claims only that the result is the one
/// that the parse of these characters gives, and that it is a value that a
/// `Decimal` can hold (96-bit magnitude, scale at most 28).
#[verifier::external_body]
pub(crate) fn parse_decimal(s: &str) -> (res: Option<DecimalValue>)
    ensures
        match decimal_from_str(s@) {
            Some(t) => res == Some(
                DecimalValue { negative: t.0, magnitude: t.1 as u128, scale: t.2 as u32 },
            ) && t.1 <= max_magnitude() && t.2 <= 28,
            None => res is None,
        },
{
    match rust_decimal::Decimal::from_str(s) {
        Ok(d) => Some(
            DecimalValue {
                negative: d.is_sign_negative(),
                magnitude: d.mantissa().unsigned_abs(),
                scale: d.scale(),
            },
        ),
        Err(_) => None,
    }
}

/// The digits of a magnitude, most significant first (none for zero), with
/// leading zeros up to at least `scale` digits.
pub open spec fn padded_digits(magnitude: nat, scale: nat) -> Seq<char> {
    let ds = if magnitude == 0 { Seq::<char>::empty() } else { crate::text::nat_text(magnitude) };
    if ds.len() < scale {
        Seq::new((scale - ds.len()) as nat, |i: int| '0') + ds
    } else {
        ds
    }
}

/// What `Display` of a `rust_decimal::Decimal` prints: `-` when its sign is
/// negative, the whole digits (`0` when there are none), then, when the
/// scale is positive, `.` and the last `scale` digits.
pub open spec fn decimal_display(negative: bool, magnitude: nat, scale: nat) -> Seq<char> {
    let ds = padded_digits(magnitude, scale);
    let whole = ds.subrange(0, ds.len() - scale);
    let frac = ds.subrange(ds.len() - scale, ds.len() as int);
    (if negative { "-"@ } else { Seq::empty() })
        + (if whole.len() == 0 { "0"@ } else { whole })
        + (if scale > 0 { "."@ + frac } else { Seq::empty() })
}

/// Builds the `rust_decimal::Decimal` with this sign, magnitude and scale and
/// calls `to_string` on it. The contract claims that the text is the one
/// stated above, which is what its `Display` (`to_str_internal` without a
/// precision, then `pad_integral` on the sign flag) writes.
#[verifier::external_body]
pub(crate) fn decimal_to_string(d: &DecimalValue) -> (res: String)
    requires
        d.wf(),
    ensures
        res@ == decimal_display(d.negative, d.magnitude as nat, d.scale as nat),
{
    let mut x = rust_decimal::Decimal::from_i128_with_scale(d.magnitude as i128, d.scale);
    x.set_sign_negative(d.negative);
    x.to_string()
}

impl DecimalValue {
    /// The text of this number, as `rust_decimal` prints it.
    pub fn to_string(&self) -> (res: String)
        requires
            self.wf(),
        ensures
            res@ == decimal_display(self.negative, self.magnitude as nat, self.scale as nat),
    {
        decimal_to_string(self)
    }
}

} // verus!
