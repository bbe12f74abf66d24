//! RGB colors with unclamped components, and their 8-bit quantization.
use crate::decimal::{lemma_pow10_add, lemma_pow10_step, pow10, pow10_exec, unit, Dec, MAX_SCALE};
use crate::text::{int_text, push_int_text, string_from_chars};
use vstd::arithmetic::div_mod::lemma_fundamental_div_mod_converse;
use vstd::prelude::*;

verus! {

/// A channel value quantized to 8 bits: clamped to `[0, 1]`, times 255,
/// rounded to the nearest integer with halves rounded up (`v` is in units of
/// 10^-28).
pub open spec fn quantize(v: int) -> int {
    if v <= 0 {
        0
    } else if v >= unit() {
        255
    } else {
        (510 * v + unit()) / (2 * unit())
    }
}

/// Quantizes one channel to 8 bits: clamped to `[0, 1]`, scaled by 255 and
/// rounded to the nearest integer, halves rounded up (0.5 gives 128).
pub fn decimal_to_8bit(decimal_value: Dec) -> (r: u8)
    requires
        decimal_value.wf(),
    ensures
        r == quantize(decimal_value.val()),
{
    let m = decimal_value.mantissa;
    let s = decimal_value.scale;
    let ghost k = (MAX_SCALE - s) as nat;
    proof {
        lemma_pow10_step(k);
        lemma_pow10_add(s as nat, k);
        assert(s as nat + k == MAX_SCALE as nat);
    }
    let p = pow10_exec(s);
    let ghost pk = pow10(k);
    assert(decimal_value.val() == m * pk);
    assert(unit() == p * pk);
    if m <= 0 {
        assert(m * pk <= 0) by (nonlinear_arith)
            requires
                m <= 0,
                pk > 0,
        ;
        return 0;
    }
    assert(m * pk > 0) by (nonlinear_arith)
        requires
            m > 0,
            pk > 0,
    ;
    if m >= p {
        assert(m * pk >= p * pk) by (nonlinear_arith)
            requires
                m >= p,
                pk > 0,
        ;
        return 255;
    }
    assert(m * pk < p * pk) by (nonlinear_arith)
        requires
            m < p,
            pk > 0,
    ;
    let num = 510 * m + p;
    let den = 2 * p;
    let q = num / den;
    proof {
        let r = num % den;
        vstd::arithmetic::div_mod::lemma_fundamental_div_mod(num as int, den as int);
        assert(num == q * den + r) by (nonlinear_arith)
            requires
                num == den * (num / den) + (num % den),
                q == num / den,
                r == num % den,
        ;
        vstd::arithmetic::div_mod::lemma_mod_bound(num as int, den as int);
        assert(num * pk == q * (den * pk) + r * pk) by (nonlinear_arith)
            requires
                num == q * den + r,
        ;
        assert(0 <= r * pk < den * pk) by (nonlinear_arith)
            requires
                0 <= r < den,
                pk > 0,
        ;
        assert(num * pk == 510 * (m * pk) + unit()) by (nonlinear_arith)
            requires
                num == 510 * m + p,
                unit() == p * pk,
        ;
        assert(den * pk == 2 * unit()) by (nonlinear_arith)
            requires
                den == 2 * p,
                unit() == p * pk,
        ;
        lemma_fundamental_div_mod_converse(num * pk, den * pk, q as int, r * pk);
        assert(q < 256) by (nonlinear_arith)
            requires
                num == q * den + r,
                0 <= r,
                num < 512 * p,
                den == 2 * p,
                p > 0,
        ;
    }
    q as u8
}


/// An RGB color; components may lie outside `[0, 1]`.
#[derive(Clone, Copy, Debug, PartialEq, Eq, Structural)]
pub struct Color {
    pub red: Dec,
    pub green: Dec,
    pub blue: Dec,
}

/// The text `"r g b"` of a color's quantized channels.
pub open spec fn color_text(c: Color) -> Seq<char> {
    int_text(quantize(c.red.val()) as nat) + seq![' '] + int_text(quantize(c.green.val()) as nat)
        + seq![' '] + int_text(quantize(c.blue.val()) as nat)
}

/// The color `(red, green, blue)`.
pub fn color(red: Dec, green: Dec, blue: Dec) -> (r: Color)
    requires
        red.wf(),
        green.wf(),
        blue.wf(),
    ensures
        r == (Color { red, green, blue }),
        r.wf(),
{
    Color::new(red, green, blue)
}

impl Color {
    /// Every channel is a canonical decimal.
    pub open spec fn wf(self) -> bool {
        self.red.wf() && self.green.wf() && self.blue.wf()
    }

    /// Every channel sum can be taken.
    pub open spec fn add_ok(self, o: Color) -> bool {
        self.red.add_ok(o.red) && self.green.add_ok(o.green) && self.blue.add_ok(o.blue)
    }

    pub open spec fn spec_add(self, o: Color) -> Color {
        Color {
            red: self.red.spec_add(o.red),
            green: self.green.spec_add(o.green),
            blue: self.blue.spec_add(o.blue),
        }
    }

    /// Every channel difference can be taken.
    pub open spec fn sub_ok(self, o: Color) -> bool {
        self.red.sub_ok(o.red) && self.green.sub_ok(o.green) && self.blue.sub_ok(o.blue)
    }

    pub open spec fn spec_sub(self, o: Color) -> Color {
        Color {
            red: self.red.spec_sub(o.red),
            green: self.green.spec_sub(o.green),
            blue: self.blue.spec_sub(o.blue),
        }
    }

    /// Every channel product with `s` can be taken.
    pub open spec fn scale_ok(self, s: Dec) -> bool {
        self.red.mul_ok(s) && self.green.mul_ok(s) && self.blue.mul_ok(s)
    }

    pub open spec fn spec_scale(self, s: Dec) -> Color {
        Color {
            red: self.red.spec_mul(s),
            green: self.green.spec_mul(s),
            blue: self.blue.spec_mul(s),
        }
    }

    /// Every channel product can be taken.
    pub open spec fn mul_ok(self, o: Color) -> bool {
        self.red.mul_ok(o.red) && self.green.mul_ok(o.green) && self.blue.mul_ok(o.blue)
    }

    pub open spec fn spec_mul(self, o: Color) -> Color {
        Color {
            red: self.red.spec_mul(o.red),
            green: self.green.spec_mul(o.green),
            blue: self.blue.spec_mul(o.blue),
        }
    }

    /// The color `(red, green, blue)`; any values are accepted.
    pub fn new(red: Dec, green: Dec, blue: Dec) -> (r: Color)
        requires
            red.wf(),
            green.wf(),
            blue.wf(),
        ensures
            r == (Color { red, green, blue }),
            r.wf(),
    {
        Color { red, green, blue }
    }

    /// Black, `(0, 0, 0)`.
    pub open spec fn black_spec() -> Color {
        Color { red: Dec::spec_zero(), green: Dec::spec_zero(), blue: Dec::spec_zero() }
    }

    /// Black, `(0, 0, 0)`.
    pub fn black() -> (r: Color)
        ensures
            r == Color::black_spec(),
            r.wf(),
    {
        Color { red: Dec::zero(), green: Dec::zero(), blue: Dec::zero() }
    }

    /// Channel-wise sum, unclamped.
    pub fn add(self, other: Color) -> (r: Color)
        requires
            self.wf(),
            other.wf(),
            self.add_ok(other),
        ensures
            r == self.spec_add(other),
            r.wf(),
    {
        Color {
            red: self.red.add(other.red),
            green: self.green.add(other.green),
            blue: self.blue.add(other.blue),
        }
    }

    /// Channel-wise difference, unclamped.
    pub fn sub(self, other: Color) -> (r: Color)
        requires
            self.wf(),
            other.wf(),
            self.sub_ok(other),
        ensures
            r == self.spec_sub(other),
            r.wf(),
    {
        Color {
            red: self.red.sub(other.red),
            green: self.green.sub(other.green),
            blue: self.blue.sub(other.blue),
        }
    }

    /// Every channel times `scalar`.
    pub fn mul_scalar(self, scalar: Dec) -> (r: Color)
        requires
            self.wf(),
            scalar.wf(),
            self.scale_ok(scalar),
        ensures
            r == self.spec_scale(scalar),
            r.wf(),
    {
        Color {
            red: self.red.mul(scalar),
            green: self.green.mul(scalar),
            blue: self.blue.mul(scalar),
        }
    }

    /// Channel-wise (Hadamard) product, used to blend light and surface.
    pub fn mul(self, other: Color) -> (r: Color)
        requires
            self.wf(),
            other.wf(),
            self.mul_ok(other),
        ensures
            r == self.spec_mul(other),
            r.wf(),
    {
        Color {
            red: self.red.mul(other.red),
            green: self.green.mul(other.green),
            blue: self.blue.mul(other.blue),
        }
    }

    /// Appends `"r g b"`, the quantized channels.
    pub(crate) fn push_text(&self, out: &mut Vec<char>)
        requires
            self.wf(),
        ensures
            final(out)@ == old(out)@ + color_text(*self),
    {
        push_int_text(out, decimal_to_8bit(self.red));
        out.push(' ');
        push_int_text(out, decimal_to_8bit(self.green));
        out.push(' ');
        push_int_text(out, decimal_to_8bit(self.blue));
        assert(out@ =~= old(out)@ + color_text(*self));
    }

    /// The text `"r g b"` of the quantized channels, without a newline.
    pub fn to_string(&self) -> (r: String)
        requires
            self.wf(),
        ensures
            r@ == color_text(*self),
    {
        let mut out: Vec<char> = Vec::new();
        self.push_text(&mut out);
        assert(out@ =~= color_text(*self));
        string_from_chars(&out)
    }
}

} // verus!
