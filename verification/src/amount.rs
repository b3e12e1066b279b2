//! Exact decimal amounts.
//!
//! An [`Amount`] holds the two integers that make up a `rust_decimal::Decimal`:
//! a signed mantissa of at most 96 bits and a scale between 0 and 28. Its value
//! is `mantissa / 10^scale`. The arithmetic is that of `rust_decimal`, reached
//! through the trusted functions of this module, whose contracts say of it what
//! the rest of the library builds on:
//!
//! - the order and the equality of two amounts are those of their values;
//! - a sum or a difference with zero is exact;
//! - a sum or a difference of two amounts whose mantissas have at most 64 bits
//!   and whose scales differ by at most 19 is exact and has the larger scale,
//!   where its mantissa has at most 96 bits;
//! - any other sum or difference is whatever `rust_decimal` computes, which
//!   may be rounded: it has a name and no more is said of it;
//! - a normalized amount is the same number with the smallest scale.
use rust_decimal::Decimal;
use vstd::prelude::*;

verus! {

/// The largest magnitude of a mantissa: `2^96 - 1`.
pub const MAX_MANTISSA: i128 = 79_228_162_514_264_337_593_543_950_335;

/// The largest scale.
pub const MAX_SCALE: u32 = 28;

/// Below this magnitude, `2^64`, the mantissas of two amounts are added and
/// subtracted without rounding.
pub const EXACT_LIMIT: i128 = 18_446_744_073_709_551_616;

/// Up to this difference of their scales, two amounts are added and
/// subtracted without rounding.
pub const EXACT_SCALES: u32 = 19;

/// `10^n`.
pub open spec fn pow10(n: nat) -> nat
    decreases n,
{
    if n == 0 {
        1
    } else {
        10 * pow10((n - 1) as nat)
    }
}

/// The mantissa and scale that `Decimal::checked_add` gives for
/// `m1 / 10^e1 + m2 / 10^e2`, or `None` where it reports an overflow.
pub uninterp spec fn decimal_sum(m1: i128, e1: u32, m2: i128, e2: u32) -> Option<(i128, u32)>;

/// The mantissa and scale that `Decimal::checked_sub` gives for
/// `m1 / 10^e1 - m2 / 10^e2`, or `None` where it reports an overflow.
pub uninterp spec fn decimal_difference(m1: i128, e1: u32, m2: i128, e2: u32) -> Option<
    (i128, u32),
>;

/// The mantissa and scale of `m / 10^e` without trailing zeros in its
/// fraction: zero has scale 0, and any other number the smallest scale with
/// which it can be written.
pub open spec fn normal_parts(m: int, e: nat) -> (int, nat)
    decreases e,
{
    if m == 0 {
        (0, 0)
    } else if e == 0 || m % 10 != 0 {
        (m, e)
    } else {
        normal_parts(m / 10, (e - 1) as nat)
    }
}

/// An exact decimal number, `mantissa / 10^scale`.
#[derive(Clone, Copy, Debug)]
pub struct Amount {
    mantissa: i128,
    scale: u32,
}

/// Whether a mantissa and a scale are those of a decimal.
pub open spec fn representable(mantissa: int, scale: int) -> bool {
    &&& -MAX_MANTISSA <= mantissa <= MAX_MANTISSA
    &&& 0 <= scale <= MAX_SCALE
}

impl Amount {
    #[verifier::type_invariant]
    spec fn in_range(self) -> bool {
        representable(self.mantissa as int, self.scale as int)
    }

    /// The mantissa of this amount.
    pub closed spec fn spec_mantissa(self) -> i128 {
        self.mantissa
    }

    /// The scale of this amount.
    pub closed spec fn spec_scale(self) -> u32 {
        self.scale
    }

    /// The amount with the given mantissa and scale.
    pub closed spec fn from_parts(mantissa: i128, scale: u32) -> Amount {
        Amount { mantissa, scale }
    }

    /// An amount is its mantissa and its scale, and nothing else.
    pub broadcast proof fn lemma_parts(mantissa: i128, scale: u32)
        ensures
            (#[trigger] Amount::from_parts(mantissa, scale)).spec_mantissa() == mantissa,
            Amount::from_parts(mantissa, scale).spec_scale() == scale,
    {
    }

    /// Two amounts with the same mantissa and the same scale are one amount.
    pub proof fn lemma_same_parts(self, other: Amount)
        requires
            self.spec_mantissa() == other.spec_mantissa(),
            self.spec_scale() == other.spec_scale(),
        ensures
            self == other,
    {
    }

    /// `mantissa / 10^scale`, or `None` where the two are not those of a decimal.
    pub fn new(mantissa: i128, scale: u32) -> (made: Option<Amount>)
        ensures
            made is Some <==> representable(mantissa as int, scale as int),
            made is Some ==> made == Some(Amount::from_parts(mantissa, scale)),
    {
        if -MAX_MANTISSA <= mantissa && mantissa <= MAX_MANTISSA && scale <= MAX_SCALE {
            Some(Amount { mantissa, scale })
        } else {
            None
        }
    }

    /// Zero, with scale 0.
    pub fn zero() -> (made: Amount)
        ensures
            made == Amount::from_parts(0, 0),
    {
        Amount { mantissa: 0, scale: 0 }
    }

    /// The mantissa of this amount.
    #[verifier::when_used_as_spec(spec_mantissa)]
    pub fn mantissa(self) -> (m: i128)
        ensures
            m == self.spec_mantissa(),
            representable(m as int, self.spec_scale() as int),
    {
        proof {
            use_type_invariant(self);
        }
        self.mantissa
    }

    /// The scale of this amount.
    #[verifier::when_used_as_spec(spec_scale)]
    pub fn scale(self) -> (e: u32)
        ensures
            e == self.spec_scale(),
            e <= MAX_SCALE,
    {
        proof {
            use_type_invariant(self);
        }
        self.scale
    }

    /// The larger of the scales of two amounts.
    pub open spec fn wider_scale(self, other: Amount) -> u32 {
        if self.spec_scale() >= other.spec_scale() {
            self.spec_scale()
        } else {
            other.spec_scale()
        }
    }

    /// The mantissa of this amount where it is written with the scale `to`,
    /// which is not less than its own.
    pub open spec fn raised(self, to: u32) -> int {
        self.spec_mantissa() * pow10((to - self.spec_scale()) as nat)
    }

    /// Whether the mantissa has at most 64 bits.
    pub open spec fn short(self) -> bool {
        -EXACT_LIMIT < self.spec_mantissa() < EXACT_LIMIT
    }

    /// Whether the scales of two amounts differ by at most 19.
    pub open spec fn near(self, other: Amount) -> bool {
        self.spec_scale() - other.spec_scale() <= EXACT_SCALES && other.spec_scale()
            - self.spec_scale() <= EXACT_SCALES
    }
}

/// The amount that a mantissa and a scale make up, where there are any.
pub open spec fn amount_of_parts(parts: Option<(i128, u32)>) -> Option<Amount> {
    match parts {
        Some((m, e)) => Some(Amount::from_parts(m, e)),
        None => None,
    }
}

/// The amount with the mantissa `m` and the scale `e` where the sum or the
/// difference of `a` and `b` of which `m` is the exact mantissa is not
/// rounded, and what `rounded` holds elsewhere.
pub open spec fn exact_or(a: Amount, b: Amount, m: int, e: u32, rounded: Option<(i128, u32)>)
    -> Option<Amount> {
    if a.short() && b.short() && a.near(b) && -MAX_MANTISSA <= m <= MAX_MANTISSA {
        Some(Amount::from_parts(m as i128, e))
    } else {
        amount_of_parts(rounded)
    }
}

/// `a + b` where `rounded` is what `rust_decimal` makes of the sum: `b` where
/// `a` is zero, `a` where `b` is zero, the exact sum at the larger scale
/// where it is not rounded, and what `rounded` holds elsewhere.
pub open spec fn sum_or(a: Amount, b: Amount, rounded: Option<(i128, u32)>) -> Option<Amount> {
    if a.spec_mantissa() == 0 {
        Some(b)
    } else if b.spec_mantissa() == 0 {
        Some(a)
    } else {
        exact_or(
            a,
            b,
            a.raised(a.wider_scale(b)) + b.raised(a.wider_scale(b)),
            a.wider_scale(b),
            rounded,
        )
    }
}

/// `a - b` where `rounded` is what `rust_decimal` makes of the difference:
/// `-b` where `a` is zero, `a` where `b` is zero, the exact difference at the
/// larger scale where it is not rounded, and what `rounded` holds elsewhere.
pub open spec fn difference_or(a: Amount, b: Amount, rounded: Option<(i128, u32)>) -> Option<
    Amount,
> {
    if a.spec_mantissa() == 0 {
        Some(Amount::from_parts((-b.spec_mantissa()) as i128, b.spec_scale()))
    } else if b.spec_mantissa() == 0 {
        Some(a)
    } else {
        exact_or(
            a,
            b,
            a.raised(a.wider_scale(b)) - b.raised(a.wider_scale(b)),
            a.wider_scale(b),
            rounded,
        )
    }
}

/// What `a + b` comes to, or `None` where the sum overflows.
pub open spec fn amount_sum(a: Amount, b: Amount) -> Option<Amount> {
    sum_or(a, b, decimal_sum(a.spec_mantissa(), a.spec_scale(), b.spec_mantissa(), b.spec_scale()))
}

/// What `a - b` comes to, or `None` where the difference overflows.
pub open spec fn amount_difference(a: Amount, b: Amount) -> Option<Amount> {
    difference_or(
        a,
        b,
        decimal_difference(a.spec_mantissa(), a.spec_scale(), b.spec_mantissa(), b.spec_scale()),
    )
}

/// The same number without trailing zeros in its fraction.
pub open spec fn amount_normal(a: Amount) -> Amount {
    Amount::from_parts(
        normal_parts(a.spec_mantissa() as int, a.spec_scale() as nat).0 as i128,
        normal_parts(a.spec_mantissa() as int, a.spec_scale() as nat).1 as u32,
    )
}

/// Whether `a` is the smaller number: `ma / 10^ea < mb / 10^eb`.
pub open spec fn amount_lt(a: Amount, b: Amount) -> bool {
    a.spec_mantissa() * pow10(b.spec_scale() as nat) < b.spec_mantissa() * pow10(
        a.spec_scale() as nat,
    )
}

/// Whether `a` and `b` are the same number: `ma / 10^ea == mb / 10^eb`.
pub open spec fn amount_eq(a: Amount, b: Amount) -> bool {
    a.spec_mantissa() * pow10(b.spec_scale() as nat) == b.spec_mantissa() * pow10(
        a.spec_scale() as nat,
    )
}

/// `Decimal::checked_add` on the decimals that `a` and `b` stand for.
///
/// The contract claims that the result is a decimal again, and of its value
/// what the fast paths of the addition show: a sum with zero is the other
/// operand as it stands; a sum of two operands that fit 64 bits, with scales
/// at most 19 apart, is exact at the larger scale where it fits 96 bits. Of
/// any other sum it gives the name and says nothing of how it is rounded.
#[verifier::external_body]
fn decimal_checked_add(a: Amount, b: Amount) -> (sum: Option<Amount>)
    requires
        a.in_range(),
        b.in_range(),
    ensures
        sum == sum_or(a, b, decimal_sum(a.mantissa, a.scale, b.mantissa, b.scale)),
        sum matches Some(s) ==> s.in_range(),
{
    let x = Decimal::from_i128_with_scale(a.mantissa, a.scale);
    let y = Decimal::from_i128_with_scale(b.mantissa, b.scale);
    match x.checked_add(y) {
        Some(d) => Some(Amount { mantissa: d.mantissa(), scale: d.scale() }),
        None => None,
    }
}

/// `Decimal::checked_sub` on the decimals that `a` and `b` stand for.
///
/// The contract claims that the result is a decimal again, and of its value
/// what the fast paths of the subtraction show: zero less `b` is `-b` with
/// the scale of `b`, and `a` less zero is `a` as it stands; a difference of
/// two operands that fit 64 bits, with scales at most 19 apart, is exact at
/// the larger scale where it fits 96 bits. Of any other difference it gives
/// the name and says nothing of how it is rounded.
#[verifier::external_body]
fn decimal_checked_sub(a: Amount, b: Amount) -> (difference: Option<Amount>)
    requires
        a.in_range(),
        b.in_range(),
    ensures
        difference == difference_or(
            a,
            b,
            decimal_difference(a.mantissa, a.scale, b.mantissa, b.scale),
        ),
        difference matches Some(d) ==> d.in_range(),
{
    let x = Decimal::from_i128_with_scale(a.mantissa, a.scale);
    let y = Decimal::from_i128_with_scale(b.mantissa, b.scale);
    match x.checked_sub(y) {
        Some(d) => Some(Amount { mantissa: d.mantissa(), scale: d.scale() }),
        None => None,
    }
}

/// `Decimal::normalize` on the decimal that `a` stands for: the same number
/// with the trailing zeros of its fraction taken off, and zero with scale 0.
#[verifier::external_body]
fn decimal_normalize(a: Amount) -> (normal: Amount)
    requires
        a.in_range(),
    ensures
        normal.mantissa == normal_parts(a.mantissa as int, a.scale as nat).0,
        normal.scale == normal_parts(a.mantissa as int, a.scale as nat).1,
        normal.in_range(),
{
    let d = Decimal::from_i128_with_scale(a.mantissa, a.scale).normalize();
    Amount { mantissa: d.mantissa(), scale: d.scale() }
}

/// `<` of `Decimal` on the decimals that `a` and `b` stand for: the order of
/// the two numbers, whatever their scales.
#[verifier::external_body]
fn decimal_lt(a: Amount, b: Amount) -> (less: bool)
    requires
        a.in_range(),
        b.in_range(),
    ensures
        less == amount_lt(a, b),
{
    Decimal::from_i128_with_scale(a.mantissa, a.scale) < Decimal::from_i128_with_scale(
        b.mantissa,
        b.scale,
    )
}

/// `==` of `Decimal` on the decimals that `a` and `b` stand for: whether the
/// two numbers are equal, whatever their scales.
#[verifier::external_body]
fn decimal_eq(a: Amount, b: Amount) -> (same: bool)
    requires
        a.in_range(),
        b.in_range(),
    ensures
        same == amount_eq(a, b),
{
    Decimal::from_i128_with_scale(a.mantissa, a.scale) == Decimal::from_i128_with_scale(
        b.mantissa,
        b.scale,
    )
}

impl Amount {
    /// `self + other`, or `None` where the sum overflows.
    pub fn checked_add(self, other: Amount) -> (sum: Option<Amount>)
        ensures
            sum == amount_sum(self, other),
    {
        proof {
            use_type_invariant(self);
            use_type_invariant(other);
        }
        decimal_checked_add(self, other)
    }

    /// `self - other`, or `None` where the difference overflows.
    pub fn checked_sub(self, other: Amount) -> (difference: Option<Amount>)
        ensures
            difference == amount_difference(self, other),
    {
        proof {
            use_type_invariant(self);
            use_type_invariant(other);
        }
        decimal_checked_sub(self, other)
    }

    /// The same number without trailing zeros in its fraction.
    pub fn normalize(self) -> (normal: Amount)
        ensures
            normal == amount_normal(self),
    {
        proof {
            use_type_invariant(self);
        }
        let normal = decimal_normalize(self);
        proof {
            normal.lemma_same_parts(amount_normal(self));
        }
        normal
    }

    /// Whether `self` is the smaller number.
    pub fn less_than(self, other: Amount) -> (less: bool)
        ensures
            less == amount_lt(self, other),
    {
        proof {
            use_type_invariant(self);
            use_type_invariant(other);
        }
        decimal_lt(self, other)
    }

    /// Whether `self` and `other` are the same number.
    pub fn same_value(self, other: Amount) -> (same: bool)
        ensures
            same == amount_eq(self, other),
    {
        proof {
            use_type_invariant(self);
            use_type_invariant(other);
        }
        decimal_eq(self, other)
    }
}

impl PartialEq for Amount {
    /// Two amounts are equal where they are the same number: `1.50 == 1.5`.
    fn eq(&self, other: &Amount) -> (same: bool) {
        self.same_value(*other)
    }
}

impl vstd::std_specs::cmp::PartialEqSpecImpl for Amount {
    open spec fn obeys_eq_spec() -> bool {
        true
    }

    open spec fn eq_spec(&self, other: &Amount) -> bool {
        amount_eq(*self, *other)
    }
}

impl From<i32> for Amount {
    /// The whole number `n`, with scale 0.
    fn from(n: i32) -> (made: Amount) {
        Amount { mantissa: n as i128, scale: 0 }
    }
}

impl vstd::std_specs::convert::FromSpecImpl<i32> for Amount {
    open spec fn obeys_from_spec() -> bool {
        true
    }

    open spec fn from_spec(n: i32) -> Amount {
        Amount::from_parts(n as i128, 0)
    }
}

/// Below this magnitude, `2^63`, of both mantissas at the larger scale, a
/// difference that is added again comes back exactly.
pub const MODEST_LIMIT: i128 = 9_223_372_036_854_775_808;

/// Whether taking `d` from `b` and giving it back comes to the number `b`
/// again. It does unless the difference or the sum has more digits than a
/// decimal holds and is rounded.
pub open spec fn gives_back(b: Amount, d: Amount) -> bool {
    amount_difference(b, d) matches Some(less) && amount_sum(less, d) matches Some(back)
        && amount_eq(back, b)
}

/// Whether both amounts, written with the larger of their scales, have
/// mantissas of at most 63 bits.
pub open spec fn modest(b: Amount, d: Amount) -> bool {
    &&& -MODEST_LIMIT < b.raised(b.wider_scale(d)) < MODEST_LIMIT
    &&& -MODEST_LIMIT < d.raised(b.wider_scale(d)) < MODEST_LIMIT
}

/// `10^(a + b) == 10^a * 10^b`.
pub proof fn lemma_pow10_adds(a: nat, b: nat)
    ensures
        pow10(a + b) == pow10(a) * pow10(b),
    decreases a,
{
    if a > 0 {
        lemma_pow10_adds((a - 1) as nat, b);
        assert(((a - 1) as nat) + b == (a + b - 1) as nat);
        assert(pow10(a + b) == 10 * pow10((a + b - 1) as nat));
        assert(10 * (pow10((a - 1) as nat) * pow10(b)) == (10 * pow10((a - 1) as nat)) * pow10(b))
            by (nonlinear_arith);
    } else {
        assert(pow10(a) == 1);
        assert(a + b == b);
    }
}

/// `10^a <= 10^b` where `a <= b`, and `10^0 == 1`.
pub proof fn lemma_pow10_grows(a: nat, b: nat)
    requires
        a <= b,
    ensures
        1 <= pow10(a) <= pow10(b),
    decreases b,
{
    if a < b {
        lemma_pow10_grows(a, (b - 1) as nat);
    } else if a > 0 {
        lemma_pow10_grows((a - 1) as nat, (b - 1) as nat);
    }
}

/// A number raised by a power of ten that stays below `2^63` was raised by
/// less than `10^19`, and was no larger itself.
proof fn lemma_raised_is_modest(m: int, k: nat)
    requires
        m != 0,
        -MODEST_LIMIT < m * pow10(k) < MODEST_LIMIT,
    ensures
        k < EXACT_SCALES,
        -MODEST_LIMIT < m < MODEST_LIMIT,
{
    lemma_pow10_grows(0, k);
    let p = pow10(k) as int;
    assert(m >= 1 || m <= -1);
    assert((m >= 1 ==> m * p >= m && m * p >= p) && (m <= -1 ==> m * p <= m && m * p <= -p))
        by (nonlinear_arith)
        requires
            p >= 1,
            m >= 1 || m <= -1,
    ;
    if k >= EXACT_SCALES {
        lemma_pow10_grows(19, k);
        assert(pow10(19) == 10_000_000_000_000_000_000) by {
            reveal_with_fuel(pow10, 20);
        }
    }
}

/// Amounts of modest size come back from a difference and a sum: what is
/// taken from one of them and added again is the same number.
pub proof fn lemma_modest_gives_back(b: Amount, d: Amount)
    requires
        modest(b, d),
    ensures
        gives_back(b, d),
{
    broadcast use Amount::lemma_parts;

    let e = b.wider_scale(d);
    let kb = (e - b.spec_scale()) as nat;
    let kd = (e - d.spec_scale()) as nat;
    let bm = b.spec_mantissa() as int;
    let dm = d.spec_mantissa() as int;
    let big = b.raised(e);
    let dig = d.raised(e);
    assert(pow10(0) == 1);
    if bm == 0 {
        let less = amount_difference(b, d).unwrap();
        assert(less.spec_scale() == d.spec_scale());
        if dm != 0 {
            lemma_raised_is_modest(dm, kd);
            assert(less.raised(less.wider_scale(d)) + d.raised(less.wider_scale(d)) == 0);
            let back = amount_sum(less, d).unwrap();
            assert(back.spec_mantissa() == 0);
        }
    } else if dm == 0 {
        assert(amount_difference(b, d) == Some(b));
        assert(amount_sum(b, d) == Some(b));
    } else {
        lemma_raised_is_modest(bm, kb);
        lemma_raised_is_modest(dm, kd);
        let less = amount_difference(b, d).unwrap();
        assert(less == Amount::from_parts((big - dig) as i128, e));
        if big == dig {
            assert(amount_sum(less, d) == Some(d));
            // bm * 10^kb == dm * 10^kd, and one of kb and kd is zero
            if kb == 0 {
                assert(big == bm) by (nonlinear_arith)
                    requires
                        big == bm * pow10(kb),
                        pow10(kb) == 1,
                ;
                assert(kd + d.spec_scale() as nat == b.spec_scale() as nat);
                lemma_pow10_adds(kd, d.spec_scale() as nat);
                assert(dm * pow10(b.spec_scale() as nat) == dm * (pow10(kd) * pow10(
                    d.spec_scale() as nat,
                )));
                assert(dm * (pow10(kd) * pow10(d.spec_scale() as nat)) == (dm * pow10(kd)) * pow10(
                    d.spec_scale() as nat,
                )) by (nonlinear_arith);
            } else {
                assert(kd == 0);
                assert(dig == dm) by (nonlinear_arith)
                    requires
                        dig == dm * pow10(kd),
                        pow10(kd) == 1,
                ;
                assert(kb + b.spec_scale() as nat == d.spec_scale() as nat);
                lemma_pow10_adds(kb, b.spec_scale() as nat);
                assert(bm * pow10(d.spec_scale() as nat) == bm * (pow10(kb) * pow10(
                    b.spec_scale() as nat,
                )));
                assert(bm * (pow10(kb) * pow10(b.spec_scale() as nat)) == (bm * pow10(kb)) * pow10(
                    b.spec_scale() as nat,
                )) by (nonlinear_arith);
            }
        } else {
            assert(less.wider_scale(d) == e);
            assert(less.raised(e) == big - dig);
            let back = amount_sum(less, d).unwrap();
            assert(back == Amount::from_parts(big as i128, e));
            lemma_pow10_adds(kb, b.spec_scale() as nat);
            assert((bm * pow10(kb)) * pow10(b.spec_scale() as nat) == bm * (pow10(kb) * pow10(
                b.spec_scale() as nat,
            ))) by (nonlinear_arith);
        }
    }
}

/// The magnitude of a number.
pub open spec fn magnitude(x: int) -> int {
    if x < 0 {
        -x
    } else {
        x
    }
}

/// Two amounts that have the same mantissa where both are written with one
/// scale are the same number.
pub proof fn lemma_same_raised(a: Amount, b: Amount, e: u32)
    requires
        a.spec_scale() <= e,
        b.spec_scale() <= e,
        a.raised(e) == b.raised(e),
    ensures
        amount_eq(a, b),
{
    let ka = (e - a.spec_scale()) as nat;
    let kb = (e - b.spec_scale()) as nat;
    let x = a.spec_mantissa() as int;
    let y = b.spec_mantissa() as int;
    let p = pow10(ka) as int;
    let q = pow10(kb) as int;
    let up_a = pow10(a.spec_scale() as nat) as int;
    let up_b = pow10(b.spec_scale() as nat) as int;
    lemma_pow10_adds(ka, a.spec_scale() as nat);
    lemma_pow10_adds(kb, b.spec_scale() as nat);
    lemma_pow10_grows(0, kb);
    assert(ka + a.spec_scale() as nat == kb + b.spec_scale() as nat);
    assert(p * up_a == q * up_b);
    assert((x * up_b) * q == (y * up_a) * q) by (nonlinear_arith)
        requires
            p * up_a == q * up_b,
            x * p == y * q,
    ;
    assert(x * up_b == y * up_a) by (nonlinear_arith)
        requires
            (x * up_b) * q == (y * up_a) * q,
            q >= 1,
    ;
}

/// A sum of two amounts that are of modest size at the scale `e` is exact:
/// written with the scale `e`, its mantissa is the sum of theirs.
pub proof fn lemma_modest_sum(a: Amount, b: Amount, e: u32)
    requires
        a.spec_scale() <= e,
        b.spec_scale() <= e,
        magnitude(a.raised(e)) + magnitude(b.raised(e)) < MODEST_LIMIT,
    ensures
        amount_sum(a, b) is Some,
        amount_sum(a, b).unwrap().spec_scale() <= e,
        amount_sum(a, b).unwrap().raised(e) == a.raised(e) + b.raised(e),
{
    broadcast use Amount::lemma_parts;

    let am = a.spec_mantissa() as int;
    let bm = b.spec_mantissa() as int;
    let ka = (e - a.spec_scale()) as nat;
    let kb = (e - b.spec_scale()) as nat;
    if am == 0 {
        assert(a.raised(e) == 0) by (nonlinear_arith)
            requires
                a.raised(e) == am * pow10(ka),
                am == 0,
        ;
    } else if bm == 0 {
        assert(b.raised(e) == 0) by (nonlinear_arith)
            requires
                b.raised(e) == bm * pow10(kb),
                bm == 0,
        ;
    } else {
        lemma_raised_is_modest(am, ka);
        lemma_raised_is_modest(bm, kb);
        let w = a.wider_scale(b);
        let up = (e - w) as nat;
        let ja = (w - a.spec_scale()) as nat;
        let jb = (w - b.spec_scale()) as nat;
        let m = a.raised(w) + b.raised(w);
        lemma_pow10_adds(ja, up);
        lemma_pow10_adds(jb, up);
        lemma_pow10_grows(0, up);
        assert(ja + up == ka && jb + up == kb);
        let pu = pow10(up) as int;
        assert(m * pu == a.raised(e) + b.raised(e)) by (nonlinear_arith)
            requires
                m == am * pow10(ja) + bm * pow10(jb),
                a.raised(e) == am * pow10(ka),
                b.raised(e) == bm * pow10(kb),
                pow10(ka) == pow10(ja) * pow10(up),
                pow10(kb) == pow10(jb) * pow10(up),
                pu == pow10(up),
        ;
        assert(magnitude(m) <= magnitude(m * pu)) by (nonlinear_arith)
            requires
                pu >= 1,
        ;
        assert(amount_sum(a, b) == Some(Amount::from_parts(m as i128, w)));
    }
}

/// What `normal_parts` gives is the same number, written with a scale that
/// is not larger and with a mantissa that has no trailing zero to take off.
pub proof fn lemma_normal_parts(m: int, e: nat)
    ensures
        normal_parts(m, e).1 <= e,
        normal_parts(m, e).0 * pow10((e - normal_parts(m, e).1) as nat) == m,
        m == 0 ==> normal_parts(m, e) == (0int, 0nat),
        m != 0 ==> normal_parts(m, e).0 != 0 && (normal_parts(m, e).1 == 0 || normal_parts(
            m,
            e,
        ).0 % 10 != 0),
    decreases e,
{
    if m == 0 {
        assert(0 * pow10(e) == 0);
    } else if e == 0 || m % 10 != 0 {
        assert(m * pow10(0) == m) by (nonlinear_arith)
            requires
                pow10(0) == 1,
        ;
    } else {
        lemma_normal_parts(m / 10, (e - 1) as nat);
        let (n, s) = normal_parts(m / 10, (e - 1) as nat);
        assert(normal_parts(m, e) == (n, s));
        let p = pow10((e - 1 - s) as nat) as int;
        assert(((e - s) as nat - 1) as nat == (e - 1 - s) as nat);
        assert(pow10((e - s) as nat) == 10 * p);
        assert(n * (10 * p) == m) by (nonlinear_arith)
            requires
                n * p == m / 10,
                m % 10 == 0,
        ;
    }
}

/// A number other than zero is written in one way only with a mantissa that
/// has no trailing zero to take off.
proof fn lemma_one_normal_form(n1: int, s1: nat, n2: int, s2: nat)
    requires
        n1 != 0,
        n2 != 0,
        s1 == 0 || n1 % 10 != 0,
        s2 == 0 || n2 % 10 != 0,
        n1 * pow10(s2) == n2 * pow10(s1),
    ensures
        n1 == n2,
        s1 == s2,
{
    lemma_pow10_grows(0, s1);
    lemma_pow10_grows(0, s2);
    let ten_s1 = pow10(s1) as int;
    let ten_s2 = pow10(s2) as int;
    if s1 < s2 {
        let k = (s2 - s1 - 1) as nat;
        lemma_pow10_adds(k + 1, s1);
        assert(pow10(k + 1) == 10 * pow10(k));
        let q = pow10(k) as int;
        assert(n2 == 10 * (n1 * q)) by (nonlinear_arith)
            requires
                n1 * ten_s2 == n2 * ten_s1,
                ten_s2 == (10 * q) * ten_s1,
                ten_s1 >= 1,
        ;
    } else if s2 < s1 {
        let k = (s1 - s2 - 1) as nat;
        lemma_pow10_adds(k + 1, s2);
        assert(pow10(k + 1) == 10 * pow10(k));
        let q = pow10(k) as int;
        assert(n1 == 10 * (n2 * q)) by (nonlinear_arith)
            requires
                n1 * ten_s2 == n2 * ten_s1,
                ten_s1 == (10 * q) * ten_s2,
                ten_s2 >= 1,
        ;
    } else {
        assert(n1 == n2) by (nonlinear_arith)
            requires
                n1 * ten_s1 == n2 * ten_s1,
                ten_s1 >= 1,
        ;
    }
}

/// Amounts that are the same number are the same amount once their trailing
/// zeros are taken off.
pub proof fn lemma_same_normal(a: Amount, b: Amount)
    requires
        amount_eq(a, b),
    ensures
        amount_normal(a) == amount_normal(b),
{
    let ma = a.spec_mantissa() as int;
    let mb = b.spec_mantissa() as int;
    let ea = a.spec_scale() as nat;
    let eb = b.spec_scale() as nat;
    lemma_normal_parts(ma, ea);
    lemma_normal_parts(mb, eb);
    lemma_pow10_grows(0, ea);
    lemma_pow10_grows(0, eb);
    let (n1, s1) = normal_parts(ma, ea);
    let (n2, s2) = normal_parts(mb, eb);
    let pa = pow10(ea) as int;
    let pb = pow10(eb) as int;
    if ma == 0 || mb == 0 {
        assert(ma == 0 && mb == 0) by (nonlinear_arith)
            requires
                ma * pb == mb * pa,
                pa >= 1,
                pb >= 1,
                ma == 0 || mb == 0,
        ;
    } else {
        let ka = (ea - s1) as nat;
        let kb = (eb - s2) as nat;
        lemma_pow10_adds(ka, s1);
        lemma_pow10_adds(kb, s2);
        lemma_pow10_grows(0, ka);
        lemma_pow10_grows(0, kb);
        let qa = pow10(ka) as int;
        let qb = pow10(kb) as int;
        let r1 = pow10(s1) as int;
        let r2 = pow10(s2) as int;
        assert((n1 * r2) * (qa * qb) == (n2 * r1) * (qa * qb)) by (nonlinear_arith)
            requires
                n1 * qa == ma,
                n2 * qb == mb,
                ma * pb == mb * pa,
                pa == qa * r1,
                pb == qb * r2,
        ;
        assert(n1 * r2 == n2 * r1) by (nonlinear_arith)
            requires
                (n1 * r2) * (qa * qb) == (n2 * r1) * (qa * qb),
                qa >= 1,
                qb >= 1,
        ;
        lemma_one_normal_form(n1, s1, n2, s2);
    }
}

} // verus!
