//! A plain model of `rust_decimal::Decimal` (sign, 96-bit mantissa, scale)
//! and the decimal operations the library uses.
//!
//! Rounding arithmetic and parsing are done by `rust_decimal` itself; their
//! results are named. Comparison and display are done by `rust_decimal` and
//! stated exactly. Operations whose whole behaviour is a few lines
//! (negation, truncation, ceiling, normalisation, conversion to `i64`) are
//! written here and proved.
use rust_decimal::Decimal;
use crate::text::{chars_of, nat_digits};
use vstd::arithmetic::div_mod::*;
use vstd::prelude::*;

verus! {

/// The largest mantissa a decimal can hold (`2^96 - 1`).
pub const MAX_MANTISSA: u128 = 0xFFFF_FFFF_FFFF_FFFF_FFFF_FFFFu128;

/// The largest scale a decimal can hold.
pub const MAX_SCALE: u32 = 28u32;

/// A decimal number `(-1)^negative * mantissa / 10^scale`, laid out as
/// `rust_decimal::Decimal` lays it out (a zero may carry a negative sign).
#[derive(Clone, Copy, Debug, PartialEq, Eq, Structural)]
pub struct Dec {
    pub negative: bool,
    pub mantissa: u128,
    pub scale: u32,
}

/// `10^n`.
pub open spec fn pow10(n: nat) -> nat
    decreases n,
{
    if n == 0 {
        1
    } else {
        10 * pow10((n - 1) as nat)
    }
}

impl Dec {
    /// The representation invariant of a decimal.
    pub open spec fn wf(self) -> bool {
        self.mantissa <= MAX_MANTISSA && self.scale <= MAX_SCALE
    }

    /// The signed mantissa.
    pub open spec fn signed(self) -> int {
        if self.negative {
            -(self.mantissa as int)
        } else {
            self.mantissa as int
        }
    }
}

/// The decimal `0`.
pub open spec fn dec_zero() -> Dec {
    Dec { negative: false, mantissa: 0, scale: 0 }
}

/// The decimal with integer value `n` and scale 0.
pub open spec fn dec_int(n: int) -> Dec {
    Dec { negative: n < 0, mantissa: (if n < 0 { -n } else { n }) as u128, scale: 0 }
}

/// The decimal `mantissa / 10^scale` built like `Decimal::new`.
pub open spec fn dec_new(num: int, scale: nat) -> Dec {
    Dec { negative: num < 0, mantissa: (if num < 0 { -num } else { num }) as u128, scale: scale as u32 }
}

/// `a < b` as numbers.
pub open spec fn dec_lt(a: Dec, b: Dec) -> bool {
    a.signed() * pow10(b.scale as nat) < b.signed() * pow10(a.scale as nat)
}

/// `a == b` as numbers.
pub open spec fn dec_eq(a: Dec, b: Dec) -> bool {
    a.signed() * pow10(b.scale as nat) == b.signed() * pow10(a.scale as nat)
}

/// `a <= b` as numbers.
pub open spec fn dec_le(a: Dec, b: Dec) -> bool {
    !dec_lt(b, a)
}

pub open spec fn dec_is_zero(a: Dec) -> bool {
    a.mantissa == 0
}

/// `Decimal::max`: `other` when `self < other`, else `self`.
pub open spec fn dec_max(a: Dec, b: Dec) -> Dec {
    if dec_lt(a, b) {
        b
    } else {
        a
    }
}

/// `Decimal::min`: `other` when `self > other`, else `self`.
pub open spec fn dec_min(a: Dec, b: Dec) -> Dec {
    if dec_lt(b, a) {
        b
    } else {
        a
    }
}

/// Negation flips the sign flag.
pub open spec fn dec_neg(a: Dec) -> Dec {
    Dec { negative: !a.negative, mantissa: a.mantissa, scale: a.scale }
}

/// `Decimal::trunc`: drop the fraction, keep the sign flag.
pub open spec fn dec_trunc(a: Dec) -> Dec {
    Dec { negative: a.negative, mantissa: (a.mantissa as nat / pow10(a.scale as nat)) as u128, scale: 0 }
}

/// `Decimal::ceil`: the least integer not below `a`.
pub open spec fn dec_ceil(a: Dec) -> Dec {
    if a.scale == 0 {
        a
    } else {
        let q = a.mantissa as nat / pow10(a.scale as nat);
        if !a.negative && a.mantissa as nat % pow10(a.scale as nat) != 0 {
            Dec { negative: false, mantissa: (q + 1) as u128, scale: 0 }
        } else {
            Dec { negative: a.negative, mantissa: q as u128, scale: 0 }
        }
    }
}

/// `Decimal::normalize`: strip trailing zeros of the fraction; zero becomes
/// positive with scale 0.
pub open spec fn dec_normalize(a: Dec) -> Dec
    decreases a.scale,
{
    if a.mantissa == 0 {
        dec_zero()
    } else if a.scale > 0 && a.mantissa % 10 == 0 {
        dec_normalize(
            Dec { negative: a.negative, mantissa: a.mantissa / 10, scale: (a.scale - 1) as u32 },
        )
    } else {
        a
    }
}

/// `ToPrimitive::to_i64`: the truncated value when it fits in `i64`.
pub open spec fn dec_to_i64(a: Dec) -> Option<i64> {
    let t = a.mantissa as nat / pow10(a.scale as nat);
    if a.negative {
        if t <= 0x8000_0000_0000_0000 {
            Some((-(t as int)) as i64)
        } else {
            None
        }
    } else {
        if t < 0x8000_0000_0000_0000 {
            Some(t as i64)
        } else {
            None
        }
    }
}

/// `n` zeros.
pub open spec fn zeros(n: nat) -> Seq<char> {
    Seq::new(n, |i: int| '0')
}

/// The digits `Display` writes for a mantissa: none for zero.
pub open spec fn mantissa_digits(m: nat) -> Seq<char> {
    if m == 0 {
        Seq::empty()
    } else {
        nat_digits(m)
    }
}

/// The digits of `m`, padded with leading zeros to at least `scale` digits.
pub open spec fn padded_digits(m: nat, scale: nat) -> Seq<char> {
    let d = mantissa_digits(m);
    if d.len() < scale {
        zeros((scale - d.len()) as nat) + d
    } else {
        d
    }
}

/// What `Display` writes for a decimal without its sign.
pub open spec fn unsigned_text(m: nat, scale: nat) -> Seq<char> {
    if scale == 0 {
        nat_digits(m)
    } else {
        let p = padded_digits(m, scale);
        let whole = p.subrange(0, p.len() - scale);
        let frac = p.subrange(p.len() - scale, p.len() as int);
        (if whole.len() == 0 {
            seq!['0']
        } else {
            whole
        }) + seq!['.'] + frac
    }
}

/// What `Display` (and `to_string`) writes for a decimal: a `-` for a
/// negative sign flag, the integer digits, and exactly `scale` fraction digits.
pub open spec fn dec_text(a: Dec) -> Seq<char> {
    (if a.negative {
        seq!['-']
    } else {
        Seq::empty()
    }) + unsigned_text(a.mantissa as nat, a.scale as nat)
}

/// What `Decimal::checked_add` returns.
pub uninterp spec fn decimal_checked_add(a: Dec, b: Dec) -> Option<Dec>;

/// What `Decimal::checked_sub` returns.
pub uninterp spec fn decimal_checked_sub(a: Dec, b: Dec) -> Option<Dec>;

/// What `Decimal::checked_mul` returns.
pub uninterp spec fn decimal_checked_mul(a: Dec, b: Dec) -> Option<Dec>;

/// What `Decimal::checked_div` returns.
pub uninterp spec fn decimal_checked_div(a: Dec, b: Dec) -> Option<Dec>;

/// What `<Decimal as FromStr>::from_str` returns, `None` for an error.
pub uninterp spec fn decimal_from_str(s: Seq<char>) -> Option<Dec>;

/// Calls `Decimal::checked_add`. Claimed: the result is its named result, and
/// a result is a valid decimal.
#[verifier::external_body]
pub(crate) fn checked_add(a: &Dec, b: &Dec) -> (r: Option<Dec>)
    requires
        a.wf(),
        b.wf(),
    ensures
        r == decimal_checked_add(*a, *b),
        r matches Some(d) ==> d.wf(),
{
    let mut x = Decimal::from_i128_with_scale(a.mantissa as i128, a.scale);
    x.set_sign_negative(a.negative);
    let mut y = Decimal::from_i128_with_scale(b.mantissa as i128, b.scale);
    y.set_sign_negative(b.negative);
    match x.checked_add(y) {
        Some(v) => Some(Dec { negative: v.is_sign_negative(), mantissa: v.mantissa().unsigned_abs(), scale: v.scale() }),
        None => None,
    }
}

/// Calls `Decimal::checked_sub`. Claimed: the result is its named result, and
/// a result is a valid decimal.
#[verifier::external_body]
pub(crate) fn checked_sub(a: &Dec, b: &Dec) -> (r: Option<Dec>)
    requires
        a.wf(),
        b.wf(),
    ensures
        r == decimal_checked_sub(*a, *b),
        r matches Some(d) ==> d.wf(),
{
    let mut x = Decimal::from_i128_with_scale(a.mantissa as i128, a.scale);
    x.set_sign_negative(a.negative);
    let mut y = Decimal::from_i128_with_scale(b.mantissa as i128, b.scale);
    y.set_sign_negative(b.negative);
    match x.checked_sub(y) {
        Some(v) => Some(Dec { negative: v.is_sign_negative(), mantissa: v.mantissa().unsigned_abs(), scale: v.scale() }),
        None => None,
    }
}

/// Calls `Decimal::checked_mul`. Claimed: the result is its named result, and
/// a result is a valid decimal.
#[verifier::external_body]
pub(crate) fn checked_mul(a: &Dec, b: &Dec) -> (r: Option<Dec>)
    requires
        a.wf(),
        b.wf(),
    ensures
        r == decimal_checked_mul(*a, *b),
        r matches Some(d) ==> d.wf(),
{
    let mut x = Decimal::from_i128_with_scale(a.mantissa as i128, a.scale);
    x.set_sign_negative(a.negative);
    let mut y = Decimal::from_i128_with_scale(b.mantissa as i128, b.scale);
    y.set_sign_negative(b.negative);
    match x.checked_mul(y) {
        Some(v) => Some(Dec { negative: v.is_sign_negative(), mantissa: v.mantissa().unsigned_abs(), scale: v.scale() }),
        None => None,
    }
}

/// Calls `Decimal::checked_div`. Claimed: the result is its named result, a
/// result is a valid decimal, and a zero divisor gives `None`.
#[verifier::external_body]
pub(crate) fn checked_div(a: &Dec, b: &Dec) -> (r: Option<Dec>)
    requires
        a.wf(),
        b.wf(),
    ensures
        r == decimal_checked_div(*a, *b),
        r matches Some(d) ==> d.wf(),
        b.mantissa == 0 ==> r is None,
{
    let mut x = Decimal::from_i128_with_scale(a.mantissa as i128, a.scale);
    x.set_sign_negative(a.negative);
    let mut y = Decimal::from_i128_with_scale(b.mantissa as i128, b.scale);
    y.set_sign_negative(b.negative);
    match x.checked_div(y) {
        Some(v) => Some(Dec { negative: v.is_sign_negative(), mantissa: v.mantissa().unsigned_abs(), scale: v.scale() }),
        None => None,
    }
}

/// Calls `Decimal`'s `<`. Claimed: it compares the two numbers by value.
#[verifier::external_body]
pub(crate) fn less_than(a: &Dec, b: &Dec) -> (r: bool)
    requires
        a.wf(),
        b.wf(),
    ensures
        r == dec_lt(*a, *b),
{
    let mut x = Decimal::from_i128_with_scale(a.mantissa as i128, a.scale);
    x.set_sign_negative(a.negative);
    let mut y = Decimal::from_i128_with_scale(b.mantissa as i128, b.scale);
    y.set_sign_negative(b.negative);
    x < y
}

/// Calls `Decimal`'s `Display` through `to_string`. Claimed: it writes
/// `dec_text`: a `-` when the sign flag is set (also for a zero), the integer
/// digits (`0` when there are none), and, for a positive scale, a `.` and
/// exactly `scale` fraction digits.
#[verifier::external_body]
pub(crate) fn decimal_to_string(a: &Dec) -> (r: String)
    requires
        a.wf(),
    ensures
        r@ == dec_text(*a),
{
    let mut x = Decimal::from_i128_with_scale(a.mantissa as i128, a.scale);
    x.set_sign_negative(a.negative);
    x.to_string()
}

/// Calls `<Decimal as FromStr>::from_str`. Claimed: it succeeds exactly when
/// the named result is present, gives that value, and the value is a valid
/// decimal. The error text is not stated.
#[verifier::external_body]
pub(crate) fn parse_decimal(s: &str) -> (r: Result<Dec, String>)
    ensures
        r is Ok <==> decimal_from_str(s@) is Some,
        r matches Ok(d) ==> decimal_from_str(s@) == Some(d) && d.wf(),
{
    match s.parse::<Decimal>() {
        Ok(v) => Ok(Dec { negative: v.is_sign_negative(), mantissa: v.mantissa().unsigned_abs(), scale: v.scale() }),
        Err(e) => Err(e.to_string()),
    }
}

proof fn lemma_pow10_positive(n: nat)
    ensures
        pow10(n) >= 1,
    decreases n,
{
    if n > 0 {
        lemma_pow10_positive((n - 1) as nat);
    }
}

proof fn lemma_pow10_le_28(n: nat)
    requires
        n <= 28,
    ensures
        pow10(n) <= 10_000_000_000_000_000_000_000_000_000,
    decreases 28 - n,
{
    if n < 28 {
        lemma_pow10_le_28(n + 1);
        assert(pow10(n + 1) == 10 * pow10(n));
    } else {
        reveal_with_fuel(pow10, 29);
    }
}

proof fn lemma_pow10_add(a: nat, b: nat)
    ensures
        pow10(a + b) == pow10(a) * pow10(b),
    decreases b,
{
    if b > 0 {
        lemma_pow10_add(a, (b - 1) as nat);
        let x = pow10(a);
        let y = pow10((b - 1) as nat);
        assert(pow10(a + b) == 10 * pow10((a + b - 1) as nat));
        assert(pow10((a + b - 1) as nat) == x * y);
        assert(pow10(b) == 10 * y);
        assert(10 * (x * y) == x * (10 * y)) by (nonlinear_arith);
    } else {
        assert(pow10(0) == 1);
        assert(pow10(a) * 1 == pow10(a));
    }
}

/// The shape of a normalised nonzero decimal: same sign, no larger scale,
/// the mantissa scaled down by a power of ten, and no trailing fraction zero.
proof fn lemma_normalize_of_nonzero(v: Dec)
    requires
        v.mantissa != 0,
    ensures
        dec_normalize(v).negative == v.negative,
        dec_normalize(v).scale <= v.scale,
        dec_normalize(v).mantissa != 0,
        v.mantissa as int == dec_normalize(v).mantissa as int * pow10(
            (v.scale - dec_normalize(v).scale) as nat,
        ),
        dec_normalize(v).scale > 0 ==> dec_normalize(v).mantissa % 10 != 0,
    decreases v.scale,
{
    let n = dec_normalize(v);
    if v.scale > 0 && v.mantissa % 10 == 0 {
        let w = Dec { negative: v.negative, mantissa: v.mantissa / 10, scale: (v.scale - 1) as u32 };
        assert(w.mantissa != 0);
        lemma_normalize_of_nonzero(w);
        assert(dec_normalize(w) == n);
        let p = pow10((w.scale - n.scale) as nat);
        assert(pow10((v.scale - n.scale) as nat) == 10 * p);
        let a = n.mantissa as int;
        assert(w.mantissa as int == a * p);
        assert(v.mantissa as int == 10 * (w.mantissa as int));
        assert(10 * (a * p) == a * (10 * p)) by (nonlinear_arith);
        assert(v.mantissa as int == a * pow10((v.scale - n.scale) as nat));
    } else {
        assert(n == v);
        assert(pow10(0) == 1);
        assert((v.scale - n.scale) as nat == 0);
        assert(v.mantissa as int == v.mantissa as int * 1);
    }
}

/// Two decimals of equal value have the same normalised form.
pub proof fn lemma_normalize_canonical(v: Dec, w: Dec)
    requires
        dec_eq(v, w),
    ensures
        dec_normalize(v) == dec_normalize(w),
{
    let pv = pow10(v.scale as nat);
    let pw = pow10(w.scale as nat);
    lemma_pow10_positive(v.scale as nat);
    lemma_pow10_positive(w.scale as nat);
    assert(v.signed() * pw == w.signed() * pv);
    if v.mantissa == 0 || w.mantissa == 0 {
        if v.mantissa == 0 {
            assert(v.signed() == 0);
            assert(v.signed() * pw == 0) by (nonlinear_arith)
                requires
                    v.signed() == 0,
            ;
            assert(w.signed() * pv == 0);
            assert(w.signed() == 0) by (nonlinear_arith)
                requires
                    w.signed() * pv == 0,
                    pv >= 1,
            ;
        } else {
            assert(w.signed() == 0);
            assert(w.signed() * pv == 0) by (nonlinear_arith)
                requires
                    w.signed() == 0,
            ;
            assert(v.signed() * pw == 0);
            assert(v.signed() == 0) by (nonlinear_arith)
                requires
                    v.signed() * pw == 0,
                    pw >= 1,
            ;
        }
        return;
    }
    lemma_normalize_of_nonzero(v);
    lemma_normalize_of_nonzero(w);
    let nv = dec_normalize(v);
    let nw = dec_normalize(w);
    let a = nv.mantissa as int;
    let b = nw.mantissa as int;
    let s = nv.scale as nat;
    let t = nw.scale as nat;
    let dv = (v.scale - s) as nat;
    let dw = (w.scale - t) as nat;
    let mv = v.mantissa as int;
    let mw = w.mantissa as int;
    // Signs agree: both products have the sign of their mantissa.
    assert(mv * pw > 0) by (nonlinear_arith)
        requires
            mv > 0,
            pw >= 1,
    ;
    assert(mw * pv > 0) by (nonlinear_arith)
        requires
            mw > 0,
            pv >= 1,
    ;
    assert(v.signed() * pw == (if v.negative {
        -(mv * pw)
    } else {
        mv * pw
    })) by (nonlinear_arith)
        requires
            v.signed() == (if v.negative {
                -mv
            } else {
                mv
            }),
    ;
    assert(w.signed() * pv == (if w.negative {
        -(mw * pv)
    } else {
        mw * pv
    })) by (nonlinear_arith)
        requires
            w.signed() == (if w.negative {
                -mw
            } else {
                mw
            }),
    ;
    assert(v.negative == w.negative);
    assert(mv * pw == mw * pv);
    // a * 10^(dv + Sw) == b * 10^(dw + Sv), and dv + Sw == t + e, dw + Sv == s + e.
    let e = (v.scale as nat + w.scale as nat - s - t) as nat;
    lemma_pow10_add(dv, w.scale as nat);
    lemma_pow10_add(dw, v.scale as nat);
    assert(dv + w.scale as nat == t + e);
    assert(dw + v.scale as nat == s + e);
    lemma_pow10_add(t, e);
    lemma_pow10_add(s, e);
    let pdv = pow10(dv);
    let pdw = pow10(dw);
    let pt = pow10(t);
    let ps = pow10(s);
    let pe = pow10(e);
    lemma_pow10_positive(e);
    assert(mv == a * pdv);
    assert(mw == b * pdw);
    assert(pdv * pw == pt * pe);
    assert(pdw * pv == ps * pe);
    assert((a * pt) * pe == (b * ps) * pe) by (nonlinear_arith)
        requires
            mv * pw == mw * pv,
            mv == a * pdv,
            mw == b * pdw,
            pdv * pw == pt * pe,
            pdw * pv == ps * pe,
    ;
    assert(a * pt == b * ps) by (nonlinear_arith)
        requires
            (a * pt) * pe == (b * ps) * pe,
            pe >= 1,
    ;
    if s > t {
        let d = (s - t) as nat;
        lemma_pow10_add(t, d);
        assert(d >= 1);
        let pd1 = pow10((d - 1) as nat);
        assert(pow10(d) == 10 * pd1);
        lemma_pow10_positive(t);
        assert(a == b * (10 * pd1)) by (nonlinear_arith)
            requires
                a * pt == b * ps,
                ps == pt * (10 * pd1),
                pt >= 1,
        ;
        assert(a == 10 * (b * pd1)) by (nonlinear_arith)
            requires
                a == b * (10 * pd1),
        ;
        assert(a % 10 == 0);
        assert(false);
    } else if t > s {
        let d = (t - s) as nat;
        lemma_pow10_add(s, d);
        let pd1 = pow10((d - 1) as nat);
        assert(pow10(d) == 10 * pd1);
        lemma_pow10_positive(s);
        assert(b == a * (10 * pd1)) by (nonlinear_arith)
            requires
                a * pt == b * ps,
                pt == ps * (10 * pd1),
                ps >= 1,
        ;
        assert(b == 10 * (a * pd1)) by (nonlinear_arith)
            requires
                b == a * (10 * pd1),
        ;
        assert(b % 10 == 0);
        assert(false);
    } else {
        lemma_pow10_positive(s);
        assert(a == b) by (nonlinear_arith)
            requires
                a * pt == b * ps,
                pt == ps,
                ps >= 1,
        ;
    }
}

/// `10^n` for a scale a decimal can hold.
pub fn pow10_exec(n: u32) -> (r: u128)
    requires
        n <= MAX_SCALE,
    ensures
        r as nat == pow10(n as nat),
        r >= 1,
{
    let mut r: u128 = 1;
    let mut i: u32 = 0;
    while i < n
        invariant
            i <= n <= MAX_SCALE,
            r as nat == pow10(i as nat),
        decreases n - i,
    {
        proof {
            lemma_pow10_le_28((i + 1) as nat);
        }
        r = r * 10;
        i = i + 1;
    }
    proof {
        lemma_pow10_positive(n as nat);
    }
    r
}

impl Dec {
    /// The decimal `0`.
    pub fn zero() -> (r: Dec)
        ensures
            r == dec_zero(),
            r.wf(),
    {
        Dec { negative: false, mantissa: 0, scale: 0 }
    }

    /// The decimal of an `i64` (`Decimal::from`).
    pub fn from_i64(n: i64) -> (r: Dec)
        ensures
            r == dec_int(n as int),
            r.wf(),
    {
        if n < 0 {
            let m: i128 = -(n as i128);
            Dec { negative: true, mantissa: m as u128, scale: 0 }
        } else {
            Dec { negative: false, mantissa: n as u128, scale: 0 }
        }
    }

    /// The decimal of a `u64` (`Decimal::from`).
    pub fn from_u64(n: u64) -> (r: Dec)
        ensures
            r == dec_int(n as int),
            r.wf(),
    {
        Dec { negative: false, mantissa: n as u128, scale: 0 }
    }

    /// `num / 10^scale`, as `Decimal::new` builds it.
    pub fn new(num: i64, scale: u32) -> (r: Dec)
        requires
            scale <= MAX_SCALE,
        ensures
            r == dec_new(num as int, scale as nat),
            r.wf(),
    {
        if num < 0 {
            let m: i128 = -(num as i128);
            Dec { negative: true, mantissa: m as u128, scale }
        } else {
            Dec { negative: false, mantissa: num as u128, scale }
        }
    }

    /// Whether the value is zero.
    pub fn is_zero(&self) -> (r: bool)
        ensures
            r == dec_is_zero(*self),
    {
        self.mantissa == 0
    }

    /// The negation (`-x`).
    pub fn neg(&self) -> (r: Dec)
        requires
            self.wf(),
        ensures
            r == dec_neg(*self),
            r.wf(),
    {
        Dec { negative: !self.negative, mantissa: self.mantissa, scale: self.scale }
    }

    /// `Decimal::max`.
    pub fn max(&self, other: &Dec) -> (r: Dec)
        requires
            self.wf(),
            other.wf(),
        ensures
            r == dec_max(*self, *other),
            r.wf(),
    {
        if less_than(self, other) {
            *other
        } else {
            *self
        }
    }

    /// `Decimal::min`.
    pub fn min(&self, other: &Dec) -> (r: Dec)
        requires
            self.wf(),
            other.wf(),
        ensures
            r == dec_min(*self, *other),
            r.wf(),
    {
        if less_than(other, self) {
            *other
        } else {
            *self
        }
    }

    /// Value equality (`==` on `Decimal`).
    pub fn value_eq(&self, other: &Dec) -> (r: bool)
        requires
            self.wf(),
            other.wf(),
        ensures
            r == dec_eq(*self, *other),
    {
        !less_than(self, other) && !less_than(other, self)
    }

    /// `Decimal::trunc`.
    pub fn trunc(&self) -> (r: Dec)
        requires
            self.wf(),
        ensures
            r == dec_trunc(*self),
            r.wf(),
    {
        let p = pow10_exec(self.scale);
        proof {
            lemma_div_is_ordered_by_denominator(self.mantissa as int, 1, p as int);
        }
        Dec { negative: self.negative, mantissa: self.mantissa / p, scale: 0 }
    }

    /// `Decimal::ceil`.
    pub fn ceil(&self) -> (r: Dec)
        requires
            self.wf(),
        ensures
            r == dec_ceil(*self),
            r.wf(),
    {
        if self.scale == 0 {
            return *self;
        }
        let p = pow10_exec(self.scale);
        assert(p >= 10) by {
            lemma_pow10_positive((self.scale - 1) as nat);
        }
        let q = self.mantissa / p;
        proof {
            lemma_div_is_ordered_by_denominator(self.mantissa as int, 10, p as int);
        }
        if !self.negative && self.mantissa % p != 0 {
            Dec { negative: false, mantissa: q + 1, scale: 0 }
        } else {
            Dec { negative: self.negative, mantissa: q, scale: 0 }
        }
    }

    /// `Decimal::normalize`.
    pub fn normalize(&self) -> (r: Dec)
        requires
            self.wf(),
        ensures
            r == dec_normalize(*self),
            r.wf(),
    {
        if self.mantissa == 0 {
            return Dec::zero();
        }
        let mut cur = *self;
        while cur.scale > 0 && cur.mantissa % 10 == 0
            invariant
                cur.wf(),
                cur.mantissa != 0,
                dec_normalize(cur) == dec_normalize(*self),
            decreases cur.scale,
        {
            cur = Dec { negative: cur.negative, mantissa: cur.mantissa / 10, scale: cur.scale - 1 };
        }
        cur
    }

    /// `ToPrimitive::to_i64`.
    pub fn to_i64(&self) -> (r: Option<i64>)
        requires
            self.wf(),
        ensures
            r == dec_to_i64(*self),
    {
        let t = self.trunc().mantissa;
        proof {
            lemma_pow10_positive(self.scale as nat);
            lemma_div_is_ordered_by_denominator(self.mantissa as int, 1, pow10(self.scale as nat) as int);
        }
        assert(t as nat == self.mantissa as nat / pow10(self.scale as nat));
        if self.negative {
            if t <= 0x8000_0000_0000_0000u128 {
                let v: i128 = -(t as i128);
                assert(v == -(t as int));
                assert(i64::MIN <= v <= 0);
                Some(v as i64)
            } else {
                None
            }
        } else {
            if t < 0x8000_0000_0000_0000u128 {
                Some(t as i64)
            } else {
                None
            }
        }
    }

    /// `self + other`, `None` on overflow.
    pub fn checked_add(&self, other: &Dec) -> (r: Option<Dec>)
        requires
            self.wf(),
            other.wf(),
        ensures
            r == decimal_checked_add(*self, *other),
            r matches Some(d) ==> d.wf(),
    {
        checked_add(self, other)
    }

    /// `self - other`, `None` on overflow.
    pub fn checked_sub(&self, other: &Dec) -> (r: Option<Dec>)
        requires
            self.wf(),
            other.wf(),
        ensures
            r == decimal_checked_sub(*self, *other),
            r matches Some(d) ==> d.wf(),
    {
        checked_sub(self, other)
    }

    /// `self * other`, `None` on overflow.
    pub fn checked_mul(&self, other: &Dec) -> (r: Option<Dec>)
        requires
            self.wf(),
            other.wf(),
        ensures
            r == decimal_checked_mul(*self, *other),
            r matches Some(d) ==> d.wf(),
    {
        checked_mul(self, other)
    }

    /// `self / other`, `None` on a zero divisor or on overflow.
    pub fn checked_div(&self, other: &Dec) -> (r: Option<Dec>)
        requires
            self.wf(),
            other.wf(),
        ensures
            r == decimal_checked_div(*self, *other),
            r matches Some(d) ==> d.wf(),
            other.mantissa == 0 ==> r is None,
    {
        checked_div(self, other)
    }

    /// `self < other` as numbers.
    pub fn lt(&self, other: &Dec) -> (r: bool)
        requires
            self.wf(),
            other.wf(),
        ensures
            r == dec_lt(*self, *other),
    {
        less_than(self, other)
    }

    /// Parses a decimal as `Decimal::from_str` does.
    pub fn parse(s: &str) -> (r: Option<Dec>)
        ensures
            r == decimal_from_str(s@),
            r matches Some(d) ==> d.wf(),
    {
        match parse_decimal(s) {
            Ok(d) => Some(d),
            Err(_) => None,
        }
    }

    /// Parses a decimal as `Decimal::from_str` does, keeping its error text.
    pub fn parse_with_error(s: &str) -> (r: Result<Dec, String>)
        ensures
            r is Ok <==> decimal_from_str(s@) is Some,
            r matches Ok(d) ==> decimal_from_str(s@) == Some(d) && d.wf(),
    {
        parse_decimal(s)
    }

    /// What `to_string` writes for the decimal.
    pub fn text_chars(&self) -> (r: Vec<char>)
        requires
            self.wf(),
        ensures
            r@ == dec_text(*self),
    {
        let t = decimal_to_string(self);
        chars_of(t.as_str())
    }

    /// What `to_string` writes for the decimal.
    pub fn to_text(&self) -> (r: String)
        requires
            self.wf(),
        ensures
            r@ == dec_text(*self),
    {
        decimal_to_string(self)
    }
}

} // verus!
