//! An exact decimal number: an integer mantissa scaled by a power of ten.
//!
//! The arithmetic itself is carried out by `rust_decimal::Decimal`; this type
//! holds the same two plain values that a `Decimal` is made of (mantissa and
//! scale), always in canonical form, so that `==` is equality of values.
//! Each trusted wrapper below rebuilds its operands with
//! `Decimal::from_i128_with_scale` (which panics only out of range, and every
//! wrapper asks for in-range operands) and reads the result back with
//! `Decimal::mantissa` and `Decimal::scale`.
use crate::text::int_text;
use rust_decimal::Decimal;
use vstd::prelude::*;

verus! {

/// The largest mantissa magnitude a decimal can hold: 2^96 - 1.
pub const MAX_MANTISSA: i128 = 79228162514264337593543950335;

/// A twentieth of the largest mantissa, rounded down.
pub const SMALL_INTEGER_PART: i128 = 3961408125713216879677197516;

/// An integer part below which products can always be taken: 10^13.
pub const MODERATE_INTEGER_PART: i128 = 10000000000000;

/// The largest number of digits after the decimal point.
pub const MAX_SCALE: u32 = 28;

/// Ten to the power `n`.
pub open spec fn pow10(n: nat) -> int
    decreases n,
{
    if n == 0 {
        1
    } else {
        10 * pow10((n - 1) as nat)
    }
}

/// The value one, in the units of `Dec::val` (10^-28).
pub open spec fn unit() -> int {
    pow10(MAX_SCALE as nat)
}

/// Whether an integer fits in a decimal mantissa.
pub open spec fn fits_mantissa(v: int) -> bool {
    -MAX_MANTISSA <= v <= MAX_MANTISSA
}

/// The canonical decimal `m / 10^s`: trailing zero digits after the point
/// are dropped.
pub open spec fn canon(m: int, s: nat) -> Dec
    decreases s,
{
    if s > 0 && m % 10 == 0 {
        canon(m / 10, (s - 1) as nat)
    } else {
        Dec { mantissa: m as i128, scale: s as u32 }
    }
}

/// The canonical decimal whose value is `v` units of 10^-28.
pub open spec fn from_val(v: int) -> Dec {
    canon(v, MAX_SCALE as nat)
}

/// The value `mantissa / 10^scale`.
#[derive(Clone, Copy, Debug, PartialEq, Eq, Structural)]
pub struct Dec {
    pub mantissa: i128,
    pub scale: u32,
}

impl Dec {
    /// Mantissa and scale are within what a decimal can hold.
    pub open spec fn in_range(self) -> bool {
        fits_mantissa(self.mantissa as int) && self.scale <= MAX_SCALE
    }

    /// In range and canonical: no trailing zero digit after the point.
    pub open spec fn wf(self) -> bool {
        self.in_range() && (self.scale == 0 || self.mantissa % 10 != 0)
    }

    /// The value as an integer count of 10^-28.
    pub open spec fn val(self) -> int {
        self.mantissa * pow10((MAX_SCALE - self.scale) as nat)
    }

    /// The mantissa once the value is written with `s` digits after the point.
    pub open spec fn aligned(self, s: nat) -> int {
        self.mantissa * pow10((s - self.scale) as nat)
    }

    /// The larger of the two scales.
    pub open spec fn common_scale(self, o: Dec) -> nat {
        if self.scale >= o.scale {
            self.scale as nat
        } else {
            o.scale as nat
        }
    }

    /// Both operands and their sum fit in a mantissa at the common scale, so
    /// the sum is exact.
    pub open spec fn add_fits(self, o: Dec) -> bool {
        let s = self.common_scale(o);
        fits_mantissa(self.aligned(s)) && fits_mantissa(o.aligned(s)) && fits_mantissa(
            self.aligned(s) + o.aligned(s),
        )
    }

    /// Both operands and their difference fit in a mantissa at the common
    /// scale, so the difference is exact.
    pub open spec fn sub_fits(self, o: Dec) -> bool {
        let s = self.common_scale(o);
        fits_mantissa(self.aligned(s)) && fits_mantissa(o.aligned(s)) && fits_mantissa(
            self.aligned(s) - o.aligned(s),
        )
    }

    /// The canonical zero.
    pub open spec fn spec_zero() -> Dec {
        Dec { mantissa: 0, scale: 0 }
    }

    /// The canonical one.
    pub open spec fn spec_one() -> Dec {
        Dec { mantissa: 1, scale: 0 }
    }

    /// The sum in canonical form: exact where it fits, else rounded as
    /// rust_decimal rounds it.
    pub open spec fn spec_add(self, o: Dec) -> Dec {
        if self.add_fits(o) {
            from_val(self.val() + o.val())
        } else {
            from_val(
                decimal_sum(
                    self.mantissa as int,
                    self.scale as int,
                    o.mantissa as int,
                    o.scale as int,
                ),
            )
        }
    }

    /// The difference in canonical form: exact where it fits, else rounded
    /// as rust_decimal rounds it.
    pub open spec fn spec_sub(self, o: Dec) -> Dec {
        if self.sub_fits(o) {
            from_val(self.val() - o.val())
        } else {
            from_val(
                decimal_difference(
                    self.mantissa as int,
                    self.scale as int,
                    o.mantissa as int,
                    o.scale as int,
                ),
            )
        }
    }

    /// A value is at most a tenth of the largest decimal in magnitude, so
    /// that it cannot overflow even once rounded (`v` in units of 10^-28).
    pub open spec fn bounded(v: int) -> bool {
        let bound = MAX_MANTISSA * unit() / 10;
        -bound <= v <= bound
    }

    /// At most a twentieth of the largest decimal in magnitude: two such
    /// values can always be added.
    pub open spec fn small(v: int) -> bool {
        -(SMALL_INTEGER_PART * unit()) <= v <= SMALL_INTEGER_PART * unit()
    }

    /// The sum can be taken: it is exact, or small enough to round.
    pub open spec fn add_ok(self, o: Dec) -> bool {
        self.add_fits(o) || Dec::bounded(self.val() + o.val())
    }

    /// The difference can be taken: it is exact, or small enough to round.
    pub open spec fn sub_ok(self, o: Dec) -> bool {
        self.sub_fits(o) || Dec::bounded(self.val() - o.val())
    }

    /// The product in canonical form: exact where it fits, else rounded as
    /// rust_decimal rounds it.
    pub open spec fn spec_mul(self, o: Dec) -> Dec {
        if self.mul_fits(o) {
            from_val(self.val() * o.val() / unit())
        } else {
            from_val(
                decimal_product(
                    self.mantissa as int,
                    self.scale as int,
                    o.mantissa as int,
                    o.scale as int,
                ),
            )
        }
    }

    /// The product is at most a tenth of the largest decimal in magnitude,
    /// so that it cannot overflow even once rounded.
    pub open spec fn mul_bounded(self, o: Dec) -> bool {
        let bound = MAX_MANTISSA * unit() * unit() / 10;
        -bound <= self.val() * o.val() <= bound
    }

    /// The square root of a non-negative decimal, rounded down to `k` digits
    /// after the point, where `k` is the most (up to 28) for which the
    /// mantissa scaled to `2k` digits still fits in 128 bits.
    pub open spec fn spec_sqrt(self) -> Dec {
        let s = self.scale as nat;
        let k0 = ((s + 1) / 2) as nat;
        let w = root_widen((self.mantissa * pow10((2 * k0 - s) as nat)) as nat, k0);
        canon(root_of(w.0) as int, w.1)
    }

    /// The product can be taken: it is exact, or small enough to round.
    pub open spec fn mul_ok(self, o: Dec) -> bool {
        self.mul_fits(o) || self.mul_bounded(o)
    }

    /// The product of the mantissas fits and the scales add up to at most
    /// the largest scale, so the product is exact.
    pub open spec fn mul_fits(self, o: Dec) -> bool {
        self.scale + o.scale <= MAX_SCALE && fits_mantissa(self.mantissa * o.mantissa)
    }
}

/// What `Decimal::checked_div` returns, as the value of the quotient in units
/// of 10^-28 (`None` where the division fails).
pub uninterp spec fn decimal_quotient(
    n_mantissa: int,
    n_scale: int,
    d_mantissa: int,
    d_scale: int,
) -> Option<int>;

/// What `Decimal + Decimal` returns where the exact sum needs more than 96
/// bits at the larger scale, as a value in units of 10^-28.
pub uninterp spec fn decimal_sum(
    a_mantissa: int,
    a_scale: int,
    b_mantissa: int,
    b_scale: int,
) -> int;

/// What `Decimal - Decimal` returns where the exact difference needs more
/// than 96 bits at the larger scale, as a value in units of 10^-28.
pub uninterp spec fn decimal_difference(
    a_mantissa: int,
    a_scale: int,
    b_mantissa: int,
    b_scale: int,
) -> int;

/// What `Decimal * Decimal` returns where the exact product needs more than
/// 28 digits after the point or 96 bits, as a value in units of 10^-28.
pub uninterp spec fn decimal_product(
    a_mantissa: int,
    a_scale: int,
    b_mantissa: int,
    b_scale: int,
) -> int;

/// The text of `mantissa / 10^scale`: a minus sign for a negative value,
/// the digits of the magnitude (none for zero) padded on the left with zeros
/// to at least `scale` digits, and a point before the last `scale` of them,
/// with a `0` before the point (or alone) where nothing else stands there.
pub open spec fn decimal_text(mantissa: int, scale: int) -> Seq<char> {
    let a = if mantissa < 0 {
        -mantissa
    } else {
        mantissa
    };
    let digits = if a == 0 {
        Seq::<char>::empty()
    } else {
        int_text(a as nat)
    };
    let padded = if digits.len() < scale {
        Seq::new((scale - digits.len()) as nat, |i: int| '0') + digits
    } else {
        digits
    };
    let whole = padded.subrange(0, padded.len() - scale);
    let fraction = padded.subrange(padded.len() - scale, padded.len() as int);
    let sign = if mantissa < 0 {
        seq!['-']
    } else {
        Seq::<char>::empty()
    };
    let lead = if whole.len() == 0 {
        seq!['0']
    } else {
        whole
    };
    if scale == 0 {
        sign + lead
    } else {
        sign + lead + seq!['.'] + fraction
    }
}


/// Relies on rust_decimal's `Decimal + Decimal`: where both operands and
/// their sum fit in 96 bits at the larger scale, the sum is exact; otherwise
/// it is rounded to fit, keeping the sign, and no overflow panic occurs while
/// the sum is well below the largest decimal.
#[verifier::external_body]
fn decimal_add(a: Dec, b: Dec) -> (r: Dec)
    requires
        a.in_range(),
        b.in_range(),
        a.add_ok(b),
    ensures
        r.in_range(),
        a.add_fits(b) ==> r.val() == a.val() + b.val(),
        a.val() >= 0 && b.val() >= 0 ==> r.val() >= 0,
        !a.add_fits(b) ==> r.val() == decimal_sum(
            a.mantissa as int,
            a.scale as int,
            b.mantissa as int,
            b.scale as int,
        ),
{
    let d = Decimal::from_i128_with_scale(a.mantissa, a.scale) + Decimal::from_i128_with_scale(
        b.mantissa,
        b.scale,
    );
    Dec { mantissa: d.mantissa(), scale: d.scale() }
}

/// Relies on rust_decimal's `Decimal - Decimal`: where both operands and
/// their difference fit in 96 bits at the larger scale, the difference is
/// exact; otherwise it is rounded to fit, and no overflow panic occurs while
/// the difference is well below the largest decimal.
#[verifier::external_body]
fn decimal_sub(a: Dec, b: Dec) -> (r: Dec)
    requires
        a.in_range(),
        b.in_range(),
        a.sub_ok(b),
    ensures
        r.in_range(),
        a.sub_fits(b) ==> r.val() == a.val() - b.val(),
        !a.sub_fits(b) ==> r.val() == decimal_difference(
            a.mantissa as int,
            a.scale as int,
            b.mantissa as int,
            b.scale as int,
        ),
{
    let d = Decimal::from_i128_with_scale(a.mantissa, a.scale) - Decimal::from_i128_with_scale(
        b.mantissa,
        b.scale,
    );
    Dec { mantissa: d.mantissa(), scale: d.scale() }
}

/// Relies on rust_decimal's `Decimal * Decimal`: where the product of the
/// mantissas fits in 96 bits and the scales add up to at most 28, the product
/// is exact; otherwise it is rounded to fit, and no overflow panic occurs
/// while the product is well below the largest decimal. The sign of the
/// result is the exclusive or of the operands' signs (zero is positive).
#[verifier::external_body]
fn decimal_mul(a: Dec, b: Dec) -> (r: Dec)
    requires
        a.in_range(),
        b.in_range(),
        a.mul_ok(b),
    ensures
        r.in_range(),
        a.mul_fits(b) ==> r.val() * unit() == a.val() * b.val(),
        a.val() * b.val() >= 0 ==> r.val() >= 0,
        !a.mul_fits(b) ==> r.val() == decimal_product(
            a.mantissa as int,
            a.scale as int,
            b.mantissa as int,
            b.scale as int,
        ),
{
    let d = Decimal::from_i128_with_scale(a.mantissa, a.scale) * Decimal::from_i128_with_scale(
        b.mantissa,
        b.scale,
    );
    Dec { mantissa: d.mantissa(), scale: d.scale() }
}

/// Relies on `Decimal::checked_div`: `None` for a zero divisor or on
/// overflow, zero for a zero dividend and a nonzero divisor, otherwise the
/// (possibly rounded) quotient.
#[verifier::external_body]
fn decimal_checked_div(a: Dec, b: Dec) -> (r: Option<Dec>)
    requires
        a.in_range(),
        b.in_range(),
    ensures
        b.mantissa == 0 ==> r is None,
        a.mantissa == 0 && b.mantissa != 0 ==> r is Some && r.unwrap().val() == 0,
        match r {
            Some(q) => q.in_range() && decimal_quotient(
                a.mantissa as int,
                a.scale as int,
                b.mantissa as int,
                b.scale as int,
            ) == Some(q.val()),
            None => decimal_quotient(
                a.mantissa as int,
                a.scale as int,
                b.mantissa as int,
                b.scale as int,
            ) is None,
        },
{
    Decimal::from_i128_with_scale(a.mantissa, a.scale).checked_div(
        Decimal::from_i128_with_scale(b.mantissa, b.scale),
    ).map(|d| Dec { mantissa: d.mantissa(), scale: d.scale() })
}

/// Whether `r` is the square root of `x`, rounded down.
pub open spec fn is_root(r: nat, x: nat) -> bool {
    r * r <= x < (r + 1) * (r + 1)
}

/// The square root of `x`, rounded down.
pub open spec fn root_of(x: nat) -> nat {
    choose|r: nat| is_root(r, x)
}

/// Adds two digits after the point (multiplying `x` by 100) while `x` still
/// fits in 128 bits and fewer than 28 digits are taken.
pub open spec fn root_widen(x: nat, k: nat) -> (nat, nat)
    decreases MAX_SCALE - k,
{
    if k < MAX_SCALE && x * 100 <= u128::MAX {
        root_widen(x * 100, k + 1)
    } else {
        (x, k)
    }
}

proof fn lemma_root_widen_zero(k: nat)
    ensures
        root_widen(0, k).0 == 0,
    decreases MAX_SCALE - k,
{
    if k < MAX_SCALE {
        lemma_root_widen_zero(k + 1);
    }
}

proof fn lemma_root_unique(r: nat, q: nat, x: nat)
    requires
        is_root(r, x),
    ensures
        is_root(q, x) ==> q == r,
        is_root(root_of(x), x),
        root_of(x) == r,
{
    assert(is_root(q, x) ==> q == r) by {
        if is_root(q, x) && q != r {
            if q < r {
                assert((q + 1) * (q + 1) <= r * r) by (nonlinear_arith)
                    requires
                        q + 1 <= r,
            ;
            } else {
                assert((r + 1) * (r + 1) <= q * q) by (nonlinear_arith)
                    requires
                        r + 1 <= q,
            ;
            }
        }
    }
    assert(is_root(root_of(x), x));
    let c = root_of(x);
    if c != r {
        if c < r {
            assert((c + 1) * (c + 1) <= r * r) by (nonlinear_arith)
                requires
                    c + 1 <= r,
            ;
        } else {
            assert((r + 1) * (r + 1) <= c * c) by (nonlinear_arith)
                requires
                    r + 1 <= c,
            ;
        }
    }
}

/// The square root of a 128-bit integer, rounded down, by bisection.
fn isqrt(x: u128) -> (r: u128)
    ensures
        is_root(r as nat, x as nat),
        r < 0x1_0000_0000_0000_0000,
{
    let mut lo: u128 = 0;
    let mut hi: u128 = 0x1_0000_0000_0000_0000;
    assert(x < hi * hi) by (nonlinear_arith)
        requires
            hi == 0x1_0000_0000_0000_0000u128,
            x <= u128::MAX,
    ;
    while hi - lo > 1
        invariant
            lo < hi <= 0x1_0000_0000_0000_0000u128,
            lo * lo <= x,
            x < hi * hi,
        decreases hi - lo,
    {
        let mid = lo + (hi - lo) / 2;
        assert(mid * mid < 0x1_0000_0000_0000_0000_0000_0000_0000_0000int) by (nonlinear_arith)
            requires
                mid < 0x1_0000_0000_0000_0000u128,
        ;
        if mid * mid <= x {
            lo = mid;
        } else {
            hi = mid;
        }
    }
    assert(hi == lo + 1);
    lo
}

/// Relies on `Decimal`'s `Display` (through `to_string`, with no width or
/// precision): `to_str_internal` writes the magnitude's digits, pads them
/// with zeros to `scale` digits, puts the point `scale` digits from the
/// right with a `0` before it where the whole part is empty (or a lone `0`
/// for an empty text), and `pad_integral` adds `-` for a negative sign.
#[verifier::external_body]
fn decimal_chars(d: Dec) -> (r: Vec<char>)
    requires
        d.in_range(),
    ensures
        r@ == decimal_text(d.mantissa as int, d.scale as int),
{
    Decimal::from_i128_with_scale(d.mantissa, d.scale).to_string().chars().collect()
}

pub proof fn lemma_pow10_step(n: nat)
    ensures
        pow10(n + 1) == 10 * pow10(n),
        pow10(n) > 0,
    decreases n,
{
    reveal_with_fuel(pow10, 2);
    if n > 0 {
        lemma_pow10_step((n - 1) as nat);
    }
}

/// Ten to the power `n`, for a scale `n`.
pub(crate) fn pow10_exec(n: u32) -> (r: i128)
    requires
        n <= MAX_SCALE,
    ensures
        r == pow10(n as nat),
        0 < r <= 10000000000000000000000000000,
{
    let mut r: i128 = 1;
    let mut i: u32 = 0;
    proof {
        reveal_with_fuel(pow10, 29);
        assert(pow10(MAX_SCALE as nat) == 10000000000000000000000000000);
        lemma_pow10_add(0, MAX_SCALE as nat);
    }
    while i < n
        invariant
            i <= n <= MAX_SCALE,
            r == pow10(i as nat),
            r > 0,
            r * pow10((MAX_SCALE - i) as nat) == pow10(MAX_SCALE as nat),
            pow10(MAX_SCALE as nat) == 10000000000000000000000000000,
        decreases n - i,
    {
        proof {
            lemma_pow10_step(i as nat);
            lemma_pow10_add((i + 1) as nat, (MAX_SCALE - i - 1) as nat);
            lemma_pow10_step((MAX_SCALE - i - 1) as nat);
            assert(r * pow10((MAX_SCALE - i) as nat) == 10 * r * pow10(
                (MAX_SCALE - i - 1) as nat,
            )) by (nonlinear_arith)
                requires
                    pow10((MAX_SCALE - i) as nat) == 10 * pow10((MAX_SCALE - i - 1) as nat),
            ;
            assert(10 * r <= pow10(MAX_SCALE as nat)) by (nonlinear_arith)
                requires
                    10 * r * pow10((MAX_SCALE - i - 1) as nat) == pow10(MAX_SCALE as nat),
                    pow10((MAX_SCALE - i - 1) as nat) > 0,
                    r > 0,
            ;
        }
        r = r * 10;
        i = i + 1;
    }
    proof {
        lemma_pow10_step((MAX_SCALE - i) as nat);
        assert(r <= 10000000000000000000000000000) by (nonlinear_arith)
            requires
                r * pow10((MAX_SCALE - i) as nat) == 10000000000000000000000000000,
                pow10((MAX_SCALE - i) as nat) > 0,
                r > 0,
        ;
    }
    r
}

/// Strips trailing zero digits after the point; the value is unchanged.
fn canonical(d: Dec) -> (r: Dec)
    requires
        d.in_range(),
    ensures
        r.wf(),
        r.val() == d.val(),
{
    let mut m: i128 = d.mantissa;
    let mut s: u32 = d.scale;
    while s > 0 && m % 10 == 0
        invariant
            fits_mantissa(m as int),
            s <= MAX_SCALE,
            (Dec { mantissa: m, scale: s }).val() == d.val(),
        decreases s,
    {
        proof {
            lemma_pow10_step((MAX_SCALE - s) as nat);
            assert(m == 10 * (m / 10));
            assert((m / 10) * pow10((MAX_SCALE - s + 1) as nat) == (m / 10) * (10 * pow10(
                (MAX_SCALE - s) as nat,
            )));
            assert((m / 10) * (10 * pow10((MAX_SCALE - s) as nat)) == (10 * (m / 10)) * pow10(
                (MAX_SCALE - s) as nat,
            )) by (nonlinear_arith);
        }
        m = m / 10;
        s = s - 1;
    }
    Dec { mantissa: m, scale: s }
}


/// Zero has value zero.
pub proof fn lemma_zero_val()
    ensures
        Dec::spec_zero().val() == 0,
        Dec::spec_zero().wf(),
{
    let p = pow10(MAX_SCALE as nat);
    assert(0 * p == 0) by (nonlinear_arith);
}

/// Zero minus an in-range decimal is always exact.
pub proof fn lemma_neg_fits(x: Dec)
    requires
        x.in_range(),
    ensures
        Dec::spec_zero().sub_fits(x),
{
    let s = Dec::spec_zero().common_scale(x);
    assert(s == x.scale);
    assert(pow10(0) == 1);
    assert(x.aligned(s) == x.mantissa);
    let p = pow10((s - 0) as nat);
    assert(0 * p == 0) by (nonlinear_arith);
}

/// One has value one unit.
pub proof fn lemma_one_val()
    ensures
        Dec::spec_one().val() == unit(),
        Dec::spec_one().wf(),
{
}

/// The product of two moderate values can be taken.
pub proof fn lemma_moderate_mul(a: Dec, b: Dec)
    requires
        -(MODERATE_INTEGER_PART * unit()) < a.val() < MODERATE_INTEGER_PART * unit(),
        -(MODERATE_INTEGER_PART * unit()) < b.val() < MODERATE_INTEGER_PART * unit(),
    ensures
        a.mul_ok(b),
{
    lemma_unit_positive();
    let u = unit();
    let m = MODERATE_INTEGER_PART * u;
    assert(-(m * m) <= a.val() * b.val() <= m * m) by (nonlinear_arith)
        requires
            -m < a.val() < m,
            -m < b.val() < m,
    ;
    assert(m * m <= MAX_MANTISSA * u * u / 10) by (nonlinear_arith)
        requires
            m == MODERATE_INTEGER_PART * u,
            u > 0,
            10 * MODERATE_INTEGER_PART * MODERATE_INTEGER_PART <= MAX_MANTISSA,
    ;
}

/// The difference of two small values can be taken.
pub proof fn lemma_small_sub(a: Dec, b: Dec)
    requires
        Dec::small(a.val()),
        Dec::small(b.val()),
    ensures
        a.sub_ok(b),
{
    lemma_unit_positive();
    let u = unit();
    assert(2 * (SMALL_INTEGER_PART * u) <= MAX_MANTISSA * u / 10) by (nonlinear_arith)
        requires
            u > 0,
            20 * SMALL_INTEGER_PART <= MAX_MANTISSA,
    ;
}

/// The sum of two small values can be taken.
pub proof fn lemma_small_add(a: Dec, b: Dec)
    requires
        Dec::small(a.val()),
        Dec::small(b.val()),
    ensures
        a.add_ok(b),
{
    lemma_unit_positive();
    let u = unit();
    assert(2 * (SMALL_INTEGER_PART * u) <= MAX_MANTISSA * u / 10) by (nonlinear_arith)
        requires
            u > 0,
            20 * SMALL_INTEGER_PART <= MAX_MANTISSA,
    ;
}

/// The unit is positive.
pub proof fn lemma_unit_positive()
    ensures
        unit() > 0,
{
    lemma_pow10_step(MAX_SCALE as nat);
}

pub proof fn lemma_pow10_add(a: nat, b: nat)
    ensures
        pow10(a + b) == pow10(a) * pow10(b),
    decreases b,
{
    if b > 0 {
        lemma_pow10_add(a, (b - 1) as nat);
        lemma_pow10_step((a + b - 1) as nat);
        lemma_pow10_step((b - 1) as nat);
        assert(pow10(a) * (10 * pow10((b - 1) as nat)) == 10 * (pow10(a) * pow10(
            (b - 1) as nat,
        ))) by (nonlinear_arith);
    } else {
        assert(pow10(0) == 1);
    }
}

proof fn lemma_canon_shift(m: int, s: nat, k: nat)
    requires
        (Dec { mantissa: m as i128, scale: s as u32 }).wf(),
        m == m as i128,
        s == s as u32,
    ensures
        canon(m * pow10(k), s + k) == (Dec { mantissa: m as i128, scale: s as u32 }),
    decreases k,
{
    if k == 0 {
        assert(pow10(0) == 1);
        assert(m * 1 == m);
    } else {
        lemma_pow10_step((k - 1) as nat);
        let q = m * pow10((k - 1) as nat);
        assert(m * pow10(k) == 10 * q) by (nonlinear_arith)
            requires
                pow10(k) == 10 * pow10((k - 1) as nat),
                q == m * pow10((k - 1) as nat),
        ;
        assert((10 * q) % 10 == 0 && (10 * q) / 10 == q) by (nonlinear_arith);
        lemma_canon_shift(m, s, (k - 1) as nat);
        assert((s + k - 1) as nat == s + (k - 1) as nat);
    }
}

/// The canonical form of an in-range decimal is well formed and has the
/// same value.
pub proof fn lemma_canon(d: Dec)
    requires
        d.in_range(),
    ensures
        canon(d.mantissa as int, d.scale as nat).wf(),
        canon(d.mantissa as int, d.scale as nat).val() == d.val(),
    decreases d.scale,
{
    let m = d.mantissa as int;
    let s = d.scale as nat;
    if s > 0 && m % 10 == 0 {
        let e = Dec { mantissa: (m / 10) as i128, scale: (s - 1) as u32 };
        lemma_pow10_step((MAX_SCALE - s) as nat);
        assert(m == 10 * (m / 10));
        assert((m / 10) * (10 * pow10((MAX_SCALE - s) as nat)) == (10 * (m / 10)) * pow10(
            (MAX_SCALE - s) as nat,
        )) by (nonlinear_arith);
        assert((MAX_SCALE - s + 1) as nat == (MAX_SCALE - e.scale) as nat);
        lemma_canon(e);
    }
}

/// The exact difference of two canonical decimals whose difference fits.
pub proof fn lemma_spec_sub(a: Dec, b: Dec)
    requires
        a.wf(),
        b.wf(),
        a.sub_fits(b),
    ensures
        a.spec_sub(b).wf(),
        a.spec_sub(b).val() == a.val() - b.val(),
{
    let s = a.common_scale(b);
    let d = Dec { mantissa: (a.aligned(s) - b.aligned(s)) as i128, scale: s as u32 };
    lemma_aligned(a, s);
    lemma_aligned(b, s);
    assert(d.val() == a.val() - b.val()) by (nonlinear_arith)
        requires
            d.val() == (a.aligned(s) - b.aligned(s)) * pow10((MAX_SCALE - s) as nat),
            a.val() == a.aligned(s) * pow10((MAX_SCALE - s) as nat),
            b.val() == b.aligned(s) * pow10((MAX_SCALE - s) as nat),
    ;
    lemma_canon(d);
    lemma_canon_shift_val(d);
}

/// The exact product of two canonical decimals whose product fits.
pub proof fn lemma_spec_mul(a: Dec, b: Dec)
    requires
        a.wf(),
        b.wf(),
        a.mul_fits(b),
    ensures
        a.spec_mul(b).wf(),
        a.spec_mul(b).val() * unit() == a.val() * b.val(),
        a.spec_mul(b).val() == a.val() * b.val() / unit(),
{
    let d = Dec { mantissa: (a.mantissa * b.mantissa) as i128, scale: (a.scale + b.scale) as u32 };
    let ka = (MAX_SCALE - a.scale) as nat;
    let kb = (MAX_SCALE - b.scale) as nat;
    let kd = (MAX_SCALE - d.scale) as nat;
    lemma_pow10_add(kd, MAX_SCALE as nat);
    lemma_pow10_add(ka, kb);
    assert(kd + MAX_SCALE == ka + kb);
    lemma_mul_rearrange(
        a.mantissa as int,
        b.mantissa as int,
        pow10(ka),
        pow10(kb),
        pow10(kd),
        unit(),
    );
    lemma_pow10_step(MAX_SCALE as nat);
    assert(d.val() * unit() / unit() == d.val()) by (nonlinear_arith)
        requires
            unit() > 0,
    ;
    lemma_canon(d);
    lemma_canon_shift_val(d);
}

proof fn lemma_mul_rearrange(ma: int, mb: int, pa: int, pb: int, pd: int, u: int)
    requires
        pd * u == pa * pb,
    ensures
        ((ma * mb) * pd) * u == (ma * pa) * (mb * pb),
{
    assert(((ma * mb) * pd) * u == (ma * mb) * (pd * u)) by (nonlinear_arith);
    assert((ma * mb) * (pa * pb) == (ma * pa) * (mb * pb)) by (nonlinear_arith);
}

/// Aligning to a larger scale keeps the value.
proof fn lemma_aligned(a: Dec, s: nat)
    requires
        a.scale <= s <= MAX_SCALE,
    ensures
        a.val() == a.aligned(s) * pow10((MAX_SCALE - s) as nat),
{
    let k = (s - a.scale) as nat;
    let l = (MAX_SCALE - s) as nat;
    lemma_pow10_add(k, l);
    assert(k + l == (MAX_SCALE - a.scale) as nat);
    assert(a.mantissa * (pow10(k) * pow10(l)) == (a.mantissa * pow10(k)) * pow10(l))
        by (nonlinear_arith);
}

/// The canonical form of any in-range decimal is the canonical form of its
/// value.
proof fn lemma_canon_shift_val(d: Dec)
    requires
        d.in_range(),
    ensures
        from_val(d.val()) == canon(d.mantissa as int, d.scale as nat),
{
    let c = canon(d.mantissa as int, d.scale as nat);
    lemma_canon(d);
    lemma_from_val(c);
}

/// Every canonical decimal is the canonical form of its own value.
pub proof fn lemma_from_val(d: Dec)
    requires
        d.wf(),
    ensures
        from_val(d.val()) == d,
{
    lemma_canon_shift(d.mantissa as int, d.scale as nat, (MAX_SCALE - d.scale) as nat);
    assert(d.scale as nat + (MAX_SCALE - d.scale) as nat == MAX_SCALE as nat);
}

/// Two canonical decimals with the same value are the same decimal.
pub proof fn lemma_val_determines(a: Dec, b: Dec)
    requires
        a.wf(),
        b.wf(),
        a.val() == b.val(),
    ensures
        a == b,
{
    lemma_canonical_scales(a, b);
    lemma_canonical_scales(b, a);
    {
        lemma_pow10_step((MAX_SCALE - a.scale) as nat);
        let p = pow10((MAX_SCALE - a.scale) as nat);
        assert(a.mantissa * p == b.mantissa * p ==> a.mantissa == b.mantissa) by (nonlinear_arith)
            requires
                p > 0,
        ;
    }
}

proof fn lemma_canonical_scales(a: Dec, b: Dec)
    requires
        a.wf(),
        b.wf(),
        a.val() == b.val(),
    ensures
        a.scale >= b.scale,
{
    if a.scale < b.scale {
        let k = (b.scale - a.scale) as nat;
        let low = (MAX_SCALE - b.scale) as nat;
        lemma_pow10_add(k, low);
        lemma_pow10_step(low);
        lemma_pow10_step((k - 1) as nat);
        let pk = pow10(k);
        let pl = pow10(low);
        assert(a.mantissa * (pk * pl) == (a.mantissa * pk) * pl) by (nonlinear_arith);
        assert((a.mantissa * pk) * pl == b.mantissa * pl ==> a.mantissa * pk == b.mantissa)
            by (nonlinear_arith)
            requires
                pl > 0,
        ;
        let q = a.mantissa * pow10((k - 1) as nat);
        assert(pk == 10 * pow10((k - 1) as nat));
        assert(a.mantissa * pk == 10 * q) by (nonlinear_arith)
            requires
                pk == 10 * pow10((k - 1) as nat),
                q == a.mantissa * pow10((k - 1) as nat),
        ;
        assert((10 * q) % 10 == 0) by (nonlinear_arith);
    }
}

impl Dec {
    /// The decimal `num / 10^scale`, as `Decimal::new` builds it.
    pub fn new(num: i64, scale: u32) -> (r: Dec)
        requires
            scale <= MAX_SCALE,
        ensures
            r.wf(),
            r.val() == num * pow10((MAX_SCALE - scale) as nat),
    {
        canonical(Dec { mantissa: num as i128, scale })
    }

    /// Zero.
    pub fn zero() -> (r: Dec)
        ensures
            r == Dec::spec_zero(),
            r.wf(),
            r.val() == 0,
    {
        Dec { mantissa: 0, scale: 0 }
    }

    /// One.
    pub fn one() -> (r: Dec)
        ensures
            r == Dec::spec_one(),
            r.wf(),
            r.val() == unit(),
    {
        Dec { mantissa: 1, scale: 0 }
    }

    /// Whether the value is zero.
    pub fn is_zero(&self) -> (r: bool)
        requires
            self.wf(),
        ensures
            r == (self.val() == 0),
    {
        proof {
            lemma_pow10_step((MAX_SCALE - self.scale) as nat);
            let p = pow10((MAX_SCALE - self.scale) as nat);
            assert(self.mantissa * p == 0 <==> self.mantissa == 0) by (nonlinear_arith)
                requires
                    p > 0,
            ;
        }
        self.mantissa == 0
    }

    /// The sum: exact where it fits, else rounded by rust_decimal.
    pub fn add(self, o: Dec) -> (r: Dec)
        requires
            self.wf(),
            o.wf(),
            self.add_ok(o),
        ensures
            r.wf(),
            self.add_fits(o) ==> r.val() == self.val() + o.val(),
            self.val() >= 0 && o.val() >= 0 ==> r.val() >= 0,
            r == self.spec_add(o),
    {
        let r = canonical(decimal_add(self, o));
        proof {
            lemma_from_val(r);
        }
        r
    }

    /// The difference: exact where it fits, else rounded by rust_decimal.
    pub fn sub(self, o: Dec) -> (r: Dec)
        requires
            self.wf(),
            o.wf(),
            self.sub_ok(o),
        ensures
            r.wf(),
            self.sub_fits(o) ==> r.val() == self.val() - o.val(),
            r == self.spec_sub(o),
    {
        let r = canonical(decimal_sub(self, o));
        proof {
            lemma_from_val(r);
        }
        r
    }

    /// The product: exact where it fits (values are in units of 10^-28,
    /// hence the factor), else rounded by rust_decimal.
    pub fn mul(self, o: Dec) -> (r: Dec)
        requires
            self.wf(),
            o.wf(),
            self.mul_ok(o),
        ensures
            r.wf(),
            self.mul_fits(o) ==> r.val() * unit() == self.val() * o.val(),
            self.val() * o.val() >= 0 ==> r.val() >= 0,
            r == self.spec_mul(o),
    {
        let r = canonical(decimal_mul(self, o));
        proof {
            lemma_from_val(r);
            lemma_pow10_step(MAX_SCALE as nat);
            assert(r.val() * unit() / unit() == r.val()) by (nonlinear_arith)
                requires
                    unit() > 0,
            ;
        }
        r
    }

    /// The quotient as rust_decimal computes it; `None` for a zero divisor or
    /// a quotient out of range.
    pub fn checked_div(self, o: Dec) -> (r: Option<Dec>)
        requires
            self.wf(),
            o.wf(),
        ensures
            o.val() == 0 ==> r is None,
            self.val() == 0 && o.val() != 0 ==> r == Some(Dec::spec_zero()),
            match r {
                Some(q) => q.wf() && decimal_quotient(
                    self.mantissa as int,
                    self.scale as int,
                    o.mantissa as int,
                    o.scale as int,
                ) == Some(q.val()),
                None => decimal_quotient(
                    self.mantissa as int,
                    self.scale as int,
                    o.mantissa as int,
                    o.scale as int,
                ) is None,
            },
    {
        proof {
            lemma_pow10_step((MAX_SCALE - o.scale) as nat);
            let p = pow10((MAX_SCALE - o.scale) as nat);
            assert(o.mantissa * p == 0 <==> o.mantissa == 0) by (nonlinear_arith)
                requires
                    p > 0,
            ;
        }
        proof {
            lemma_pow10_step((MAX_SCALE - self.scale) as nat);
            let p = pow10((MAX_SCALE - self.scale) as nat);
            assert(self.mantissa * p == 0 ==> self.mantissa == 0) by (nonlinear_arith)
                requires
                    p > 0,
            ;
        }
        match decimal_checked_div(self, o) {
            Some(q) => {
                let c = canonical(q);
                proof {
                    lemma_zero_val();
                    if c.val() == 0 {
                        lemma_val_determines(c, Dec::spec_zero());
                    }
                }
                Some(c)
            },
            None => None,
        }
    }

    /// Appends the text of this decimal, as rust_decimal writes it.
    pub fn push_text(&self, out: &mut Vec<char>)
        requires
            self.wf(),
        ensures
            final(out)@ == old(out)@ + decimal_text(self.mantissa as int, self.scale as int),
    {
        let mut t = decimal_chars(*self);
        out.append(&mut t);
    }

    /// The text of this decimal, as rust_decimal writes it (`"1.5"`, `"-2"`).
    pub fn to_string(&self) -> (r: String)
        requires
            self.wf(),
        ensures
            r@ == decimal_text(self.mantissa as int, self.scale as int),
    {
        crate::text::string_from_chars(&decimal_chars(*self))
    }

    /// Whether the value is zero or negative.
    pub fn is_nonpositive(&self) -> (r: bool)
        requires
            self.wf(),
        ensures
            r == (self.val() <= 0),
    {
        proof {
            lemma_pow10_step((MAX_SCALE - self.scale) as nat);
            let p = pow10((MAX_SCALE - self.scale) as nat);
            assert(self.mantissa * p <= 0 <==> self.mantissa <= 0) by (nonlinear_arith)
                requires
                    p > 0,
            ;
        }
        self.mantissa <= 0
    }

    /// The integer part of the magnitude.
    pub open spec fn spec_int_part(self) -> int {
        let a = if self.mantissa < 0 {
            -self.mantissa
        } else {
            self.mantissa as int
        };
        a / pow10(self.scale as nat)
    }

    /// The integer part of the magnitude is below `SMALL_INTEGER_PART`.
    pub open spec fn spec_is_small(self) -> bool {
        self.spec_int_part() < SMALL_INTEGER_PART
    }

    /// The integer part of the magnitude is below `MODERATE_INTEGER_PART`.
    pub open spec fn spec_is_moderate(self) -> bool {
        self.spec_int_part() < MODERATE_INTEGER_PART
    }

    /// The integer part of the magnitude: the value lies strictly between
    /// minus and plus one more than it.
    pub fn int_part(&self) -> (r: i128)
        requires
            self.wf(),
        ensures
            r == self.spec_int_part(),
            0 <= r,
            -((r + 1) * unit()) < self.val() < (r + 1) * unit(),
    {
        let p = pow10_exec(self.scale);
        let a: i128 = if self.mantissa < 0 {
            -self.mantissa
        } else {
            self.mantissa
        };
        let ip = a / p;
        proof {
            let k = (MAX_SCALE - self.scale) as nat;
            lemma_pow10_step(k);
            lemma_pow10_add(self.scale as nat, k);
            assert(self.scale as nat + k == MAX_SCALE as nat);
            let pk = pow10(k);
            assert(a < (ip + 1) * p) by (nonlinear_arith)
                requires
                    ip == a / p,
                    p > 0,
                    a >= 0,
            ;
            assert(a * pk < (ip + 1) * unit()) by (nonlinear_arith)
                requires
                    a < (ip + 1) * p,
                    unit() == p * pk,
                    pk > 0,
            ;
            assert(self.val() == self.mantissa * pk);
            assert(a * pk == self.val() || a * pk == -self.val()) by (nonlinear_arith)
                requires
                    a == self.mantissa || a == -self.mantissa,
                    self.val() == self.mantissa * pk,
            ;
            assert(a * pk >= 0) by (nonlinear_arith)
                requires
                    a >= 0,
                    pk > 0,
            ;
        }
        ip
    }

    /// Whether the integer part of the magnitude is below
    /// `SMALL_INTEGER_PART` (about 3.9 * 10^27), which makes the value small
    /// enough that adding two such values can never overflow.
    pub fn is_small(&self) -> (r: bool)
        requires
            self.wf(),
        ensures
            r == self.spec_is_small(),
            r ==> Dec::small(self.val()),
    {
        let ip = self.int_part();
        proof {
            lemma_unit_positive();
            assert(ip < SMALL_INTEGER_PART ==> (ip + 1) * unit() <= SMALL_INTEGER_PART * unit())
                by (nonlinear_arith)
                requires
                    unit() > 0,
            ;
        }
        ip < SMALL_INTEGER_PART
    }

    /// Whether the integer part of the magnitude is below
    /// `MODERATE_INTEGER_PART` (10^13), which makes the product of two such
    /// values small enough to take.
    pub fn is_moderate(&self) -> (r: bool)
        requires
            self.wf(),
        ensures
            r == self.spec_is_moderate(),
            r ==> -(MODERATE_INTEGER_PART * unit()) < self.val() < MODERATE_INTEGER_PART * unit(),
    {
        let ip = self.int_part();
        proof {
            lemma_unit_positive();
            assert(ip < MODERATE_INTEGER_PART ==> (ip + 1) * unit() <= MODERATE_INTEGER_PART
                * unit()) by (nonlinear_arith)
                requires
                    unit() > 0,
            ;
        }
        ip < MODERATE_INTEGER_PART
    }

    /// The square root, rounded down: `x.spec_sqrt()` (see there).
    pub fn sqrt(self) -> (r: Dec)
        requires
            self.wf(),
            self.val() >= 0,
        ensures
            r.wf(),
            r == self.spec_sqrt(),
            r.val() >= 0,
            self.val() == 0 ==> r.val() == 0,
    {
        proof {
            lemma_pow10_step((MAX_SCALE - self.scale) as nat);
            let p = pow10((MAX_SCALE - self.scale) as nat);
            assert(self.mantissa * p >= 0 ==> self.mantissa >= 0) by (nonlinear_arith)
                requires
                    p > 0,
            ;
            assert(self.mantissa * p == 0 ==> self.mantissa == 0) by (nonlinear_arith)
                requires
                    p > 0,
            ;
            reveal_with_fuel(pow10, 2);
        }
        let s = self.scale;
        let mut k: u32 = (s + 1) / 2;
        let mut x: u128 = if 2 * k > s {
            (self.mantissa as u128) * 10
        } else {
            self.mantissa as u128
        };
        assert(x == self.mantissa * pow10((2 * k - s) as nat));
        let ghost start = (x as nat, k as nat);
        while k < MAX_SCALE && x <= u128::MAX / 100
            invariant
                k <= MAX_SCALE,
                root_widen(x as nat, k as nat) == root_widen(start.0, start.1),
            decreases MAX_SCALE - k,
        {
            x = x * 100;
            k = k + 1;
        }
        assert(!(x * 100 <= u128::MAX) || k >= MAX_SCALE) by (nonlinear_arith)
            requires
                !(k < MAX_SCALE && x <= u128::MAX / 100),
        ;
        assert(root_widen(x as nat, k as nat) == (x as nat, k as nat));
        let r = isqrt(x);
        proof {
            lemma_root_unique(r as nat, root_of(x as nat), x as nat);
            assert(fits_mantissa(r as int));
        }
        let d = Dec { mantissa: r as i128, scale: k };
        let c = canonical(d);
        proof {
            lemma_canon_shift_val(d);
            lemma_from_val(c);
            lemma_canon(d);
            lemma_pow10_step((MAX_SCALE - k) as nat);
            assert(d.val() >= 0) by (nonlinear_arith)
                requires
                    d.val() == r * pow10((MAX_SCALE - k) as nat),
                    r >= 0,
                    pow10((MAX_SCALE - k) as nat) > 0,
            ;
            if self.val() == 0 {
                assert(start.0 == 0);
                lemma_root_widen_zero(start.1);
                assert(x == 0);
                assert(is_root(0, 0));
                lemma_root_unique(r as nat, 0, 0);
                assert(d.val() == 0);
            }
        }
        c
    }
}

} // verus!
