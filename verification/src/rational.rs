//! Exact rational magnitudes used by numbers, ratios and measures.
//!
//! A value is kept as a fraction with a positive denominator; every constructor
//! divides numerator and denominator by their greatest common divisor.
//! Numerator and denominator are bounded machine integers; an operation whose
//! exact result leaves that range reports [`NumericFailure::Overflow`].

use vstd::prelude::*;
use vstd::arithmetic::div_mod::{lemma_fundamental_div_mod, lemma_div_is_ordered_by_denominator};
use std::cmp::Ordering;
use vstd::string::StringExecFns;
use crate::text::{pow10, lemma_pow10_monotone, signed_decimal_text, decimal_text, push_signed_decimal, push_decimal};

verus! {

/// Why an exact rational operation could not produce a value.
#[derive(Debug, Clone, Copy, PartialEq, Eq, Structural)]
pub enum NumericFailure {
    Overflow,
    OutOfMemory,
    DivisionByZero,
    Irrational,
}

pub open spec fn spec_failure_message(f: NumericFailure) -> Seq<char> {
    match f {
        NumericFailure::Overflow => "numeric overflow"@,
        NumericFailure::OutOfMemory => "out of memory"@,
        NumericFailure::DivisionByZero => "division by zero"@,
        NumericFailure::Irrational => "irrational result"@,
    }
}

impl NumericFailure {
    /// Human-readable description of the failure.
    pub fn message(&self) -> (r: &'static str)
        ensures
            r@ == spec_failure_message(*self),
    {
        match self {
            NumericFailure::Overflow => "numeric overflow",
            NumericFailure::OutOfMemory => "out of memory",
            NumericFailure::DivisionByZero => "division by zero",
            NumericFailure::Irrational => "irrational result",
        }
    }
}

/// Exact rational number with a positive denominator, built with both parts divided
/// by their greatest common divisor.
#[derive(Debug, Clone, Copy, PartialEq, Eq, Hash, Structural)]
pub struct RationalInteger {
    numer: i128,
    denom: i128,
}

/// Largest magnitude a numerator or denominator may hold.
pub open spec fn bound() -> int {
    i128::MAX as int
}

/// Greatest common divisor (Euclid).
pub open spec fn gcd(a: nat, b: nat) -> nat
    decreases b,
{
    if b == 0 {
        a
    } else {
        gcd(b, a % b)
    }
}

pub open spec fn abs(x: int) -> nat {
    if x < 0 {
        (-x) as nat
    } else {
        x as nat
    }
}

/// `n / d` (for `d > 0`) with both parts divided by their gcd.
pub open spec fn reduced(n: int, d: int) -> (int, int) {
    let m = abs(n) as int;
    let g = gcd(m as nat, d as nat) as int;
    if g > 0 && m % g == 0 && d % g == 0 {
        (if n < 0 {
            -(m / g)
        } else {
            m / g
        }, d / g)
    } else {
        (n, d)
    }
}

/// A fraction fits when both parts stay within the bound and the denominator is positive.
pub open spec fn fits(n: int, d: int) -> bool {
    -bound() <= n <= bound() && 0 < d <= bound()
}

impl RationalInteger {
    pub closed spec fn num(self) -> int {
        self.numer as int
    }

    /// The denominator; positive for every value the type invariant admits.
    pub closed spec fn den(self) -> int {
        if self.denom > 0 {
            self.denom as int
        } else {
            1
        }
    }

    /// The denominator is positive.
    pub proof fn lemma_den_positive(self)
        ensures
            self.den() > 0,
    {
    }

    #[verifier::type_invariant]
    closed spec fn inv(self) -> bool {
        self.denom > 0 && self.numer > i128::MIN
    }

    /// The rational with the given (already fitting) parts, both divided by their gcd.
    pub closed spec fn from_parts(n: int, d: int) -> RationalInteger {
        let (p, q) = reduced(n, d);
        RationalInteger { numer: p as i128, denom: q as i128 }
    }

    /// Exact value equality of two fractions (cross-multiplication).
    pub open spec fn same_value(self, other: RationalInteger) -> bool {
        self.num() * other.den() == other.num() * self.den()
    }

    /// Sign of `self - other`, as -1, 0 or 1.
    pub open spec fn spec_sign_of_difference(self, other: RationalInteger) -> int {
        let l = self.num() * other.den();
        let r = other.num() * self.den();
        if l < r {
            -1
        } else if l == r {
            0
        } else {
            1
        }
    }

    /// Numerator.
    pub fn numer(&self) -> (n: i128)
        ensures
            n == self.num(),
    {
        self.numer
    }

    /// Denominator (always positive).
    pub fn denom(&self) -> (d: i128)
        ensures
            d == self.den(),
            d > 0,
    {
        proof {
            use_type_invariant(self);
        }
        self.denom
    }
}

/// Reducing keeps the value and keeps the parts within bounds.
proof fn lemma_reduced(n: int, d: int)
    requires
        fits(n, d),
    ensures
        fits(reduced(n, d).0, reduced(n, d).1),
        reduced(n, d).0 * d == n * reduced(n, d).1,
        (n < 0) == (reduced(n, d).0 < 0),
        (n == 0) == (reduced(n, d).0 == 0),
{
    let m = abs(n) as int;
    lemma_gcd_positive(m as nat, d as nat);
    let g = gcd(m as nat, d as nat) as int;
    if g > 0 && m % g == 0 && d % g == 0 {
        lemma_fundamental_div_mod(m, g);
        lemma_fundamental_div_mod(d, g);
        lemma_div_is_ordered_by_denominator(m, 1, g);
        lemma_div_is_ordered_by_denominator(d, 1, g);
        let a = m / g;
        let b = d / g;
        assert(m == g * a);
        assert(d == g * b);
        assert(b > 0) by (nonlinear_arith)
            requires
                d == g * b,
                d > 0,
                g > 0,
        ;
        assert(a * d == m * b) by (nonlinear_arith)
            requires
                m == g * a,
                d == g * b,
        ;
        assert(m == 0 <==> a == 0) by (nonlinear_arith)
            requires
                m == g * a,
                g > 0,
        ;
        if n < 0 {
            assert((-a) * d == n * b) by (nonlinear_arith)
                requires
                    a * d == m * b,
                    m == -n,
            ;
        }
    }
}

proof fn lemma_gcd_positive(a: nat, b: nat)
    requires
        a > 0 || b > 0,
    ensures
        gcd(a, b) > 0,
    decreases b,
{
    if b > 0 {
        lemma_gcd_positive(b, a % b);
    }
}

fn gcd_u128(a0: u128, b0: u128) -> (g: u128)
    ensures
        g == gcd(a0 as nat, b0 as nat),
{
    let mut a = a0;
    let mut b = b0;
    while b != 0
        invariant
            gcd(a as nat, b as nat) == gcd(a0 as nat, b0 as nat),
        decreases b,
    {
        let r = a % b;
        a = b;
        b = r;
    }
    a
}

fn magnitude(n: i128) -> (m: u128)
    requires
        n > i128::MIN,
    ensures
        m == abs(n as int),
{
    if n < 0 {
        (0 - n) as u128
    } else {
        n as u128
    }
}

/// Build the fraction `n / d` with both parts divided by their gcd.
fn make(n: i128, d: i128) -> (r: RationalInteger)
    requires
        fits(n as int, d as int),
    ensures
        r == RationalInteger::from_parts(n as int, d as int),
        r.num() == reduced(n as int, d as int).0,
        r.den() == reduced(n as int, d as int).1,
{
    proof {
        lemma_reduced(n as int, d as int);
        lemma_gcd_positive(abs(n as int), d as nat);
    }
    let m = magnitude(n);
    let dm = d as u128;
    let g = gcd_u128(m, dm);
    if m % g == 0 && dm % g == 0 {
        let a = m / g;
        let b = dm / g;
        let numer: i128 = if n < 0 {
            0 - (a as i128)
        } else {
            a as i128
        };
        RationalInteger { numer, denom: b as i128 }
    } else {
        RationalInteger { numer: n, denom: d }
    }
}

/// `n / d` with both parts divided by their gcd; the denominator must not be zero.
pub fn rational_new(n: i64, d: i64) -> (r: RationalInteger)
    requires
        d != 0,
    ensures
        r.same_value(r),
        r.num() * (d as int) == (n as int) * r.den(),
        r == (if d < 0 {
            RationalInteger::from_parts(-(n as int), -(d as int))
        } else {
            RationalInteger::from_parts(n as int, d as int)
        }),
        d == 1 ==> r.num() == n && r.den() == 1,
{
    let (nn, dd): (i128, i128) = if d < 0 {
        (0 - (n as i128), 0 - (d as i128))
    } else {
        (n as i128, d as i128)
    };
    proof {
        lemma_reduced(nn as int, dd as int);
    }
    let r = make(nn, dd);
    proof {
        let (p, q) = reduced(nn as int, dd as int);
        if d == 1 {
            assert(abs(nn as int) % 1 == 0);
            assert(gcd(abs(nn as int), 1) == gcd(1, 0)) by {
                reveal_with_fuel(gcd, 2);
            }
            assert(gcd(1, 0) == 1) by {
                reveal_with_fuel(gcd, 1);
            }
        }
        if d < 0 {
            assert(p * (d as int) == (n as int) * q) by (nonlinear_arith)
                requires
                    p * (dd as int) == (nn as int) * q,
                    dd == -d,
                    nn == -n,
            ;
        }
    }
    r
}

/// The rational `1` as a value.
pub open spec fn spec_one() -> RationalInteger {
    RationalInteger::from_parts(1, 1)
}

/// The rational `0` as a value.
pub open spec fn spec_zero() -> RationalInteger {
    RationalInteger::from_parts(0, 1)
}

/// The rational `1`.
pub fn rational_one() -> (r: RationalInteger)
    ensures
        r == spec_one(),
        r.num() == 1,
        r.den() == 1,
{
    proof {
        reveal_with_fuel(gcd, 2);
        assert(gcd(1, 1) == 1);
        assert(abs(1) == 1);
        assert(1int % 1int == 0);
        assert(1int / 1int == 1);
        assert(reduced(1, 1) == (1int, 1int));
    }
    make(1, 1)
}

/// The rational `0`.
pub fn rational_zero() -> (r: RationalInteger)
    ensures
        r == spec_zero(),
        r.num() == 0,
        r.den() == 1,
{
    proof {
        reveal_with_fuel(gcd, 2);
        assert(gcd(0, 1) == 1);
        assert(abs(0) == 0);
        assert(0int % 1int == 0);
        assert(0int / 1int == 0);
        assert(1int % 1int == 0);
        assert(1int / 1int == 1);
        assert(reduced(0, 1) == (0int, 1int));
    }
    make(0, 1)
}

/// Exact product, or `Overflow` when the unreduced product leaves the bound.
pub open spec fn spec_mul(a: RationalInteger, b: RationalInteger) -> Result<RationalInteger, NumericFailure> {
    let n = a.num() * b.num();
    let d = a.den() * b.den();
    if fits(n, d) {
        Ok(RationalInteger::from_parts(n, d))
    } else {
        Err(NumericFailure::Overflow)
    }
}

/// Exact quotient; `DivisionByZero` for a zero divisor, `Overflow` when the unreduced
/// quotient leaves the bound.
pub open spec fn spec_div(a: RationalInteger, b: RationalInteger) -> Result<RationalInteger, NumericFailure> {
    if b.num() == 0 {
        Err(NumericFailure::DivisionByZero)
    } else {
        let n = if b.num() < 0 { -(a.num() * b.den()) } else { a.num() * b.den() };
        let d = a.den() * abs(b.num());
        if fits(n, d) {
            Ok(RationalInteger::from_parts(n, d))
        } else {
            Err(NumericFailure::Overflow)
        }
    }
}

/// Product of two rationals.
pub fn checked_mul(a: &RationalInteger, b: &RationalInteger) -> (r: Result<RationalInteger, NumericFailure>)
    ensures
        r == spec_mul(*a, *b),
        r matches Ok(v) ==> v.num() * (a.den() * b.den()) == (a.num() * b.num()) * v.den(),
{
    proof {
        use_type_invariant(a);
        use_type_invariant(b);
    }
    match (a.numer.checked_mul(b.numer), a.denom.checked_mul(b.denom)) {
        (Some(n), Some(d)) => {
            if n == i128::MIN {
                return Err(NumericFailure::Overflow);
            }
            proof {
                assert(d > 0) by (nonlinear_arith)
                    requires
                        d == a.denom * b.denom,
                        a.denom > 0,
                        b.denom > 0,
                ;
                lemma_reduced(n as int, d as int);
            }
            Ok(make(n, d))
        },
        _ => Err(NumericFailure::Overflow),
    }
}

/// Quotient of two rationals.
pub fn checked_div(a: &RationalInteger, b: &RationalInteger) -> (r: Result<RationalInteger, NumericFailure>)
    ensures
        r == spec_div(*a, *b),
{
    proof {
        use_type_invariant(a);
        use_type_invariant(b);
    }
    if b.numer == 0 {
        return Err(NumericFailure::DivisionByZero);
    }
    let bm = magnitude(b.numer);
    if bm > i128::MAX as u128 {
        return Err(NumericFailure::Overflow);
    }
    let bmi = bm as i128;
    match (a.numer.checked_mul(b.denom), a.denom.checked_mul(bmi)) {
        (Some(n0), Some(d)) => {
            if n0 == i128::MIN {
                return Err(NumericFailure::Overflow);
            }
            let n = if b.numer < 0 {
                0 - n0
            } else {
                n0
            };
            proof {
                assert(d > 0) by (nonlinear_arith)
                    requires
                        d == a.denom * bmi,
                        a.denom > 0,
                        bmi > 0,
                ;
                lemma_reduced(n as int, d as int);
            }
            Ok(make(n, d))
        },
        _ => Err(NumericFailure::Overflow),
    }
}

/// Order two rationals by cross-multiplication; `Overflow` when a cross product leaves
/// the machine range.
pub fn try_cmp(a: &RationalInteger, b: &RationalInteger) -> (r: Result<Ordering, NumericFailure>)
    ensures
        r is Err ==> r == Err::<Ordering, NumericFailure>(NumericFailure::Overflow),
        (a.num() * b.den() <= i128::MAX && a.num() * b.den() >= i128::MIN && b.num() * a.den()
            <= i128::MAX && b.num() * a.den() >= i128::MIN) <==> r is Ok,
        r == Ok::<Ordering, NumericFailure>(Ordering::Less) <==> (r is Ok
            && a.spec_sign_of_difference(*b) == -1),
        r == Ok::<Ordering, NumericFailure>(Ordering::Equal) <==> (r is Ok
            && a.spec_sign_of_difference(*b) == 0),
        r == Ok::<Ordering, NumericFailure>(Ordering::Greater) <==> (r is Ok
            && a.spec_sign_of_difference(*b) == 1),
{
    proof {
        use_type_invariant(a);
        use_type_invariant(b);
    }
    match (a.numer.checked_mul(b.denom), b.numer.checked_mul(a.denom)) {
        (Some(l), Some(r)) => {
            if l < r {
                Ok(Ordering::Less)
            } else if l == r {
                Ok(Ordering::Equal)
            } else {
                Ok(Ordering::Greater)
            }
        },
        _ => Err(NumericFailure::Overflow),
    }
}

impl RationalInteger {
    /// True when the denominator is one.
    pub fn is_integer(&self) -> (b: bool)
        ensures
            b == (self.den() == 1),
    {
        proof {
            use_type_invariant(self);
        }
        self.denom == 1
    }

    /// The numerator as a `u8` when the value is a whole number in range.
    pub fn numer_to_u8(&self) -> (r: Option<u8>)
        ensures
            r == (if self.den() == 1 && 0 <= self.num() <= u8::MAX {
                Some(self.num() as u8)
            } else {
                None::<u8>
            }),
    {
        proof {
            use_type_invariant(self);
        }
        if self.denom == 1 && 0 <= self.numer && self.numer <= 255 {
            Some(self.numer as u8)
        } else {
            None
        }
    }

    /// The numerator as a `usize` when the value is a whole number in range.
    pub fn numer_to_usize(&self) -> (r: Option<usize>)
        ensures
            r == (if self.den() == 1 && 0 <= self.num() <= usize::MAX {
                Some(self.num() as usize)
            } else {
                None::<usize>
            }),
    {
        proof {
            use_type_invariant(self);
        }
        if self.denom == 1 && 0 <= self.numer && self.numer <= usize::MAX as i128 {
            Some(self.numer as usize)
        } else {
            None
        }
    }

    /// Number of bits needed for the numerator's magnitude.
    pub fn numer_magnitude_bits(&self) -> (bits: u32)
        ensures
            bits == bit_length(abs(self.num())),
            bits <= 128,
    {
        proof {
            use_type_invariant(self);
        }
        bit_length_u128(magnitude(self.numer))
    }

    /// Number of bits needed for the denominator.
    pub fn denom_magnitude_bits(&self) -> (bits: u32)
        ensures
            bits == bit_length(abs(self.den())),
            bits <= 128,
    {
        proof {
            use_type_invariant(self);
        }
        bit_length_u128(magnitude(self.denom))
    }
}

/// Bits needed to write `x` in binary (`0` for zero).
pub open spec fn bit_length(x: nat) -> nat
    decreases x,
{
    if x == 0 {
        0
    } else {
        1 + bit_length(x / 2)
    }
}

proof fn lemma_bit_length_bound(x: nat, k: nat)
    requires
        x < pow2(k),
    ensures
        bit_length(x) <= k,
    decreases x,
{
    if x > 0 {
        assert(k > 0) by {
            if k == 0 {
                assert(pow2(0) == 1);
            }
        }
        assert(pow2(k) == 2 * pow2((k - 1) as nat));
        lemma_bit_length_bound(x / 2, (k - 1) as nat);
    }
}

proof fn lemma_pow2_add(a: nat, b: nat)
    ensures
        pow2(a + b) == pow2(a) * pow2(b),
    decreases a,
{
    if a == 0 {
        assert(pow2(a) == 1);
        assert(a + b == b);
    } else {
        let c = (a - 1) as nat;
        lemma_pow2_add(c, b);
        assert((a + b) as nat == (c + b + 1) as nat);
        assert(pow2((c + b + 1) as nat) == 2 * pow2((c + b) as nat));
        assert(pow2(a) == 2 * pow2(c));
        let x = pow2(c);
        let y = pow2(b);
        assert(2 * (x * y) == (2 * x) * y) by (nonlinear_arith);
    }
}

pub open spec fn pow2(k: nat) -> nat
    decreases k,
{
    if k == 0 {
        1
    } else {
        2 * pow2((k - 1) as nat)
    }
}

fn bit_length_u128(x0: u128) -> (bits: u32)
    ensures
        bits == bit_length(x0 as nat),
        bits <= 128,
{
    proof {
        reveal_with_fuel(pow2, 9);
        assert(pow2(8) == 256);
        lemma_pow2_add(8, 8);
        assert(pow2(16) == 65536);
        lemma_pow2_add(16, 16);
        assert(pow2(32) == 0x1_0000_0000);
        lemma_pow2_add(32, 32);
        assert(pow2(64) == 0x1_0000_0000_0000_0000);
        lemma_pow2_add(64, 64);
        assert(pow2(128) == 0x1_0000_0000_0000_0000_0000_0000_0000_0000);
        lemma_bit_length_bound(x0 as nat, 128);
    }
    let mut x = x0;
    let mut bits: u32 = 0;
    while x != 0
        invariant
            bits + bit_length(x as nat) == bit_length(x0 as nat),
            bits <= 128 - bit_length(x as nat),
            bit_length(x as nat) <= 128,
        decreases x,
    {
        proof {
            assert(bit_length(x as nat) == 1 + bit_length((x / 2) as nat));
        }
        x = x / 2;
        bits = bits + 1;
    }
    bits
}

/// Lift a decimal `mantissa * 10^-scale` to an exact rational.
pub fn decimal_to_rational(mantissa: i128, scale: u32) -> (r: Result<RationalInteger, NumericFailure>)
    requires
        scale <= 28,
        -79228162514264337593543950336 < mantissa < 79228162514264337593543950336,
    ensures
        r == Ok::<RationalInteger, NumericFailure>(
            RationalInteger::from_parts(mantissa as int, pow10(scale as nat) as int),
        ),
{
    proof {
        reveal_with_fuel(pow10, 29);
        assert(pow10(28) == 10000000000000000000000000000);
    }
    let mut d: i128 = 1;
    let mut i: u32 = 0;
    while i < scale
        invariant
            i <= scale <= 28,
            d == pow10(i as nat),
            d <= pow10(28),
            pow10(28) == 10000000000000000000000000000,
        decreases scale - i,
    {
        proof {
            lemma_pow10_monotone((i + 1) as nat, 28);
        }
        d = d * 10;
        i = i + 1;
    }
    proof {
        lemma_pow10_monotone(scale as nat, 28);
    }
    Ok(make(mantissa, d))
}

/// Display text of a rational: the integer when the denominator is one, otherwise
/// `numerator/denominator` as stored.
pub open spec fn rational_text(r: RationalInteger) -> Seq<char> {
    if r.den() == 1 {
        signed_decimal_text(r.num())
    } else {
        signed_decimal_text(r.num()) + "/"@ + decimal_text(r.den() as nat)
    }
}

impl RationalInteger {
    /// Display text: `n` for an integer, otherwise `n/d` as stored.
    pub fn display_str(&self) -> (s: String)
        ensures
            s@ == rational_text(*self),
    {
        proof {
            use_type_invariant(self);
            reveal_strlit("/");
        }
        let mut out = String::new();
        push_signed_decimal(&mut out, self.numer);
        if self.denom != 1 {
            out.append("/");
            push_decimal(&mut out, self.denom as u128);
        }
        out
    }
}

} // verus!
