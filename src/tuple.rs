//! Homogeneous 4-tuples: points (`w = 1`) and vectors (`w = 0`).
use crate::decimal::{
    decimal_quotient, decimal_text, from_val, lemma_from_val, lemma_moderate_mul, lemma_small_sub,
    lemma_spec_mul, lemma_spec_sub, unit, Dec,
};
use vstd::prelude::*;

verus! {

/// The classification of a tuple, derived from its `w` component.
#[derive(Clone, Copy, Debug, PartialEq, Eq, Structural)]
pub enum TupleType {
    Vector,
    Point,
}

/// A 4-tuple `(x, y, z, w)`.
#[derive(Clone, Copy, Debug, PartialEq, Eq, Structural)]
pub struct Tuple {
    pub x: Dec,
    pub y: Dec,
    pub z: Dec,
    pub w: Dec,
}

/// The spec value of the zero vector `(0, 0, 0, 0)`.
pub open spec fn spec_zero_vector() -> Tuple {
    Tuple { x: Dec::spec_zero(), y: Dec::spec_zero(), z: Dec::spec_zero(), w: Dec::spec_zero() }
}

/// The text `"(x, y, z)"` of a tuple; `w` is not shown.
pub open spec fn tuple_text(t: Tuple) -> Seq<char> {
    seq!['('] + decimal_text(t.x.mantissa as int, t.x.scale as int) + seq![',', ' ']
        + decimal_text(t.y.mantissa as int, t.y.scale as int) + seq![',', ' '] + decimal_text(
        t.z.mantissa as int,
        t.z.scale as int,
    ) + seq![')']
}

/// The quotient of one component by a scalar, as rust_decimal computes it.
pub open spec fn spec_quotient(c: Dec, s: Dec) -> Option<Dec> {
    match decimal_quotient(c.mantissa as int, c.scale as int, s.mantissa as int, s.scale as int) {
        Some(v) => Some(from_val(v)),
        None => None,
    }
}

impl Tuple {
    /// Every component is a canonical decimal.
    pub open spec fn wf(self) -> bool {
        self.x.wf() && self.y.wf() && self.z.wf() && self.w.wf()
    }

    /// `w` is one.
    pub open spec fn is_point(self) -> bool {
        self.w.val() == unit()
    }

    /// `w` is zero.
    pub open spec fn is_vector(self) -> bool {
        self.w.val() == 0
    }

    pub open spec fn spec_is(self) -> TupleType {
        if self.w.val() == 0 {
            TupleType::Vector
        } else {
            TupleType::Point
        }
    }

    /// Every component sum can be taken.
    pub open spec fn add_ok(self, o: Tuple) -> bool {
        self.x.add_ok(o.x) && self.y.add_ok(o.y) && self.z.add_ok(o.z) && self.w.add_ok(o.w)
    }

    pub open spec fn spec_add(self, o: Tuple) -> Tuple {
        Tuple {
            x: self.x.spec_add(o.x),
            y: self.y.spec_add(o.y),
            z: self.z.spec_add(o.z),
            w: self.w.spec_add(o.w),
        }
    }

    /// Every component difference can be taken.
    pub open spec fn sub_ok(self, o: Tuple) -> bool {
        self.x.sub_ok(o.x) && self.y.sub_ok(o.y) && self.z.sub_ok(o.z) && self.w.sub_ok(o.w)
    }

    pub open spec fn spec_sub(self, o: Tuple) -> Tuple {
        Tuple {
            x: self.x.spec_sub(o.x),
            y: self.y.spec_sub(o.y),
            z: self.z.spec_sub(o.z),
            w: self.w.spec_sub(o.w),
        }
    }

    /// The negation: the zero vector minus this tuple.
    pub open spec fn spec_neg(self) -> Tuple {
        spec_zero_vector().spec_sub(self)
    }

    pub open spec fn scale_ok(self, s: Dec) -> bool {
        self.x.mul_ok(s) && self.y.mul_ok(s) && self.z.mul_ok(s) && self.w.mul_ok(s)
    }

    pub open spec fn spec_scale(self, s: Dec) -> Tuple {
        Tuple {
            x: self.x.spec_mul(s),
            y: self.y.spec_mul(s),
            z: self.z.spec_mul(s),
            w: self.w.spec_mul(s),
        }
    }

    /// Each component divided by `s`; `None` where one division fails.
    pub open spec fn spec_div(self, s: Dec) -> Option<Tuple> {
        match (
            spec_quotient(self.x, s),
            spec_quotient(self.y, s),
            spec_quotient(self.z, s),
            spec_quotient(self.w, s),
        ) {
            (Some(x), Some(y), Some(z), Some(w)) => Some(Tuple { x, y, z, w }),
            _ => None,
        }
    }

    /// The products of the dot product and their running sums can be taken.
    pub open spec fn dot_ok(self, o: Tuple) -> bool {
        let px = self.x.spec_mul(o.x);
        let py = self.y.spec_mul(o.y);
        let pz = self.z.spec_mul(o.z);
        let pw = self.w.spec_mul(o.w);
        &&& self.x.mul_ok(o.x)
        &&& self.y.mul_ok(o.y)
        &&& self.z.mul_ok(o.z)
        &&& self.w.mul_ok(o.w)
        &&& px.add_ok(py)
        &&& px.spec_add(py).add_ok(pz)
        &&& px.spec_add(py).spec_add(pz).add_ok(pw)
    }

    /// `x·x' + y·y' + z·z' + w·w'`, summed left to right.
    pub open spec fn spec_dot(self, o: Tuple) -> Dec {
        self.x.spec_mul(o.x).spec_add(self.y.spec_mul(o.y)).spec_add(self.z.spec_mul(o.z)).spec_add(
            self.w.spec_mul(o.w),
        )
    }

    /// The products of the cross product and their differences can be
    /// taken.
    pub open spec fn cross_ok(self, o: Tuple) -> bool {
        &&& self.y.mul_ok(o.z) && self.z.mul_ok(o.y)
        &&& self.z.mul_ok(o.x) && self.x.mul_ok(o.z)
        &&& self.x.mul_ok(o.y) && self.y.mul_ok(o.x)
        &&& self.y.spec_mul(o.z).sub_ok(self.z.spec_mul(o.y))
        &&& self.z.spec_mul(o.x).sub_ok(self.x.spec_mul(o.z))
        &&& self.x.spec_mul(o.y).sub_ok(self.y.spec_mul(o.x))
    }

    /// Every product and difference of the cross product is exact.
    pub open spec fn cross_exact(self, o: Tuple) -> bool {
        &&& self.y.mul_fits(o.z) && self.z.mul_fits(o.y)
        &&& self.z.mul_fits(o.x) && self.x.mul_fits(o.z)
        &&& self.x.mul_fits(o.y) && self.y.mul_fits(o.x)
        &&& self.y.spec_mul(o.z).sub_fits(self.z.spec_mul(o.y))
        &&& self.z.spec_mul(o.x).sub_fits(self.x.spec_mul(o.z))
        &&& self.x.spec_mul(o.y).sub_fits(self.y.spec_mul(o.x))
    }

    /// The 3D cross product over `(x, y, z)`, as a vector.
    pub open spec fn spec_cross(self, o: Tuple) -> Tuple {
        Tuple {
            x: self.y.spec_mul(o.z).spec_sub(self.z.spec_mul(o.y)),
            y: self.z.spec_mul(o.x).spec_sub(self.x.spec_mul(o.z)),
            z: self.x.spec_mul(o.y).spec_sub(self.y.spec_mul(o.x)),
            w: Dec::spec_zero(),
        }
    }

    /// The squares of `x`, `y`, `z` and their running sums can be taken.
    pub open spec fn norm_ok(self) -> bool {
        let px = self.x.spec_mul(self.x);
        let py = self.y.spec_mul(self.y);
        let pz = self.z.spec_mul(self.z);
        &&& self.x.mul_ok(self.x)
        &&& self.y.mul_ok(self.y)
        &&& self.z.mul_ok(self.z)
        &&& px.add_ok(py)
        &&& px.spec_add(py).add_ok(pz)
    }

    /// `x² + y² + z²` (`w` excluded).
    pub open spec fn spec_norm_squared(self) -> Dec {
        self.x.spec_mul(self.x).spec_add(self.y.spec_mul(self.y)).spec_add(self.z.spec_mul(self.z))
    }

    /// The square root of `x² + y² + z²`, rounded down (see `Dec::spec_sqrt`).
    pub open spec fn spec_magnitude(self) -> Dec {
        let n = self.spec_norm_squared();
        n.spec_sqrt()
    }
}


/// The zero vector `(0, 0, 0, 0)`.
pub fn zero_vector() -> (r: Tuple)
    ensures
        r == spec_zero_vector(),
        r.wf(),
{
    Tuple { x: Dec::zero(), y: Dec::zero(), z: Dec::zero(), w: Dec::zero() }
}

/// The point `(x, y, z, 1)`.
pub fn point(x: Dec, y: Dec, z: Dec) -> (r: Tuple)
    requires
        x.wf(),
        y.wf(),
        z.wf(),
    ensures
        r == (Tuple { x, y, z, w: Dec::spec_one() }),
        r.wf(),
        r.is_point(),
{
    Tuple::new(x, y, z, Dec::one())
}

/// The vector `(x, y, z, 0)`.
pub fn vector(x: Dec, y: Dec, z: Dec) -> (r: Tuple)
    requires
        x.wf(),
        y.wf(),
        z.wf(),
    ensures
        r == (Tuple { x, y, z, w: Dec::spec_zero() }),
        r.wf(),
        r.is_vector(),
{
    Tuple::new(x, y, z, Dec::zero())
}

impl Tuple {
    /// The tuple `(x, y, z, w)`, with any `w`.
    pub fn new(x: Dec, y: Dec, z: Dec, w: Dec) -> (r: Tuple)
        requires
            x.wf(),
            y.wf(),
            z.wf(),
            w.wf(),
        ensures
            r == (Tuple { x, y, z, w }),
            r.wf(),
    {
        Tuple { x, y, z, w }
    }

    /// `Vector` when `w` is zero, `Point` otherwise.
    pub fn is(self) -> (r: TupleType)
        requires
            self.wf(),
        ensures
            r == self.spec_is(),
    {
        if self.w.is_zero() {
            TupleType::Vector
        } else {
            TupleType::Point
        }
    }

    /// The kind of a sum or difference of `self` and `other`: a point where
    /// either one is a point, a vector where both are vectors.
    pub fn get_type(self, other: Tuple) -> (r: TupleType)
        requires
            self.wf(),
            other.wf(),
        ensures
            r == (if self.spec_is() == TupleType::Point || other.spec_is() == TupleType::Point {
                TupleType::Point
            } else {
                TupleType::Vector
            }),
    {
        if self.is() == TupleType::Point || other.is() == TupleType::Point {
            TupleType::Point
        } else {
            TupleType::Vector
        }
    }

    /// Component-wise sum, `w` included.
    pub fn add(self, other: Tuple) -> (r: Tuple)
        requires
            self.wf(),
            other.wf(),
            self.add_ok(other),
        ensures
            r == self.spec_add(other),
            r.wf(),
    {
        Tuple {
            x: self.x.add(other.x),
            y: self.y.add(other.y),
            z: self.z.add(other.z),
            w: self.w.add(other.w),
        }
    }

    /// Component-wise difference, `w` included.
    pub fn sub(self, other: Tuple) -> (r: Tuple)
        requires
            self.wf(),
            other.wf(),
            self.sub_ok(other),
        ensures
            r == self.spec_sub(other),
            r.wf(),
    {
        Tuple {
            x: self.x.sub(other.x),
            y: self.y.sub(other.y),
            z: self.z.sub(other.z),
            w: self.w.sub(other.w),
        }
    }

    /// The zero vector minus this tuple.
    pub fn neg(self) -> (r: Tuple)
        requires
            self.wf(),
            spec_zero_vector().sub_ok(self),
        ensures
            r == self.spec_neg(),
            r.wf(),
    {
        zero_vector().sub(self)
    }

    /// The zero vector minus this tuple (same as `neg`).
    pub fn negate(self) -> (r: Tuple)
        requires
            self.wf(),
            spec_zero_vector().sub_ok(self),
        ensures
            r == self.spec_neg(),
            r.wf(),
    {
        self.neg()
    }

    /// Every component, `w` included, times `scalar`.
    pub fn mul(self, scalar: Dec) -> (r: Tuple)
        requires
            self.wf(),
            scalar.wf(),
            self.scale_ok(scalar),
        ensures
            r == self.spec_scale(scalar),
            r.wf(),
    {
        Tuple {
            x: self.x.mul(scalar),
            y: self.y.mul(scalar),
            z: self.z.mul(scalar),
            w: self.w.mul(scalar),
        }
    }

    /// Every component, `w` included, divided by `scalar`; `None` where a
    /// division fails, which a zero scalar always does.
    pub fn div(self, scalar: Dec) -> (r: Option<Tuple>)
        requires
            self.wf(),
            scalar.wf(),
        ensures
            r == self.spec_div(scalar),
            scalar.val() == 0 ==> r is None,
            r matches Some(t) ==> t.wf(),
            scalar.val() != 0 && self.is_vector() && r is Some ==> r.unwrap().is_vector(),
    {
        let x = self.x.checked_div(scalar);
        let y = self.y.checked_div(scalar);
        let z = self.z.checked_div(scalar);
        let w = self.w.checked_div(scalar);
        proof {
            if let Some(q) = x {
                lemma_from_val(q);
            }
            if let Some(q) = y {
                lemma_from_val(q);
            }
            if let Some(q) = z {
                lemma_from_val(q);
            }
            if let Some(q) = w {
                lemma_from_val(q);
            }
        }
        match (x, y, z, w) {
            (Some(x), Some(y), Some(z), Some(w)) => Some(Tuple { x, y, z, w }),
            _ => None,
        }
    }

    /// `x·x' + y·y' + z·z' + w·w'`.
    pub fn dot_product(self, other: Tuple) -> (r: Dec)
        requires
            self.wf(),
            other.wf(),
            self.dot_ok(other),
        ensures
            r == self.spec_dot(other),
            r.wf(),
    {
        let px = self.x.mul(other.x);
        let py = self.y.mul(other.y);
        let pz = self.z.mul(other.z);
        let pw = self.w.mul(other.w);
        px.add(py).add(pz).add(pw)
    }

    /// The 3D cross product of the `(x, y, z)` parts, as a vector.
    pub fn cross_product(self, other: Tuple) -> (r: Tuple)
        requires
            self.wf(),
            other.wf(),
            self.cross_ok(other),
        ensures
            r == self.spec_cross(other),
            r.wf(),
            r.is_vector(),
    {
        vector(
            self.y.mul(other.z).sub(self.z.mul(other.y)),
            self.z.mul(other.x).sub(self.x.mul(other.z)),
            self.x.mul(other.y).sub(self.y.mul(other.x)),
        )
    }

    /// The Euclidean length of `(x, y, z)`: the square root of
    /// `x² + y² + z²`.
    pub fn magnitude(self) -> (r: Dec)
        requires
            self.wf(),
            self.norm_ok(),
        ensures
            r == self.spec_magnitude(),
            r.wf(),
    {
        let px = self.x.mul(self.x);
        let py = self.y.mul(self.y);
        let pz = self.z.mul(self.z);
        let n = px.add(py).add(pz);
        proof {
            assert(self.x.val() * self.x.val() >= 0) by (nonlinear_arith);
            assert(self.y.val() * self.y.val() >= 0) by (nonlinear_arith);
            assert(self.z.val() * self.z.val() >= 0) by (nonlinear_arith);
        }
        let r = n.sqrt();
        proof {
            lemma_from_val(r);
        }
        r
    }

    /// Appends `"(x, y, z)"`.
    pub fn push_text(&self, out: &mut Vec<char>)
        requires
            self.wf(),
        ensures
            final(out)@ == old(out)@ + tuple_text(*self),
    {
        out.push('(');
        self.x.push_text(out);
        out.push(',');
        out.push(' ');
        self.y.push_text(out);
        out.push(',');
        out.push(' ');
        self.z.push_text(out);
        out.push(')');
        assert(out@ =~= old(out)@ + tuple_text(*self));
    }

    /// The text `"(x, y, z)"`; `w` is not shown.
    pub fn to_string(&self) -> (r: String)
        requires
            self.wf(),
        ensures
            r@ == tuple_text(*self),
    {
        let mut out: Vec<char> = Vec::new();
        self.push_text(&mut out);
        assert(out@ =~= tuple_text(*self));
        crate::text::string_from_chars(&out)
    }

    /// Every component is small enough that adding two such tuples can never
    /// overflow (a sufficient test).
    pub open spec fn spec_small(self) -> bool {
        Dec::small(self.x.val()) && Dec::small(self.y.val()) && Dec::small(self.z.val())
            && Dec::small(self.w.val())
    }

    /// Every component passes `Dec::is_small`.
    pub open spec fn spec_is_small(self) -> bool {
        self.x.spec_is_small() && self.y.spec_is_small() && self.z.spec_is_small()
            && self.w.spec_is_small()
    }

    /// Tests that every component is small (see `Dec::is_small`).
    pub fn is_small(&self) -> (r: bool)
        requires
            self.wf(),
        ensures
            r == self.spec_is_small(),
            r ==> self.spec_small(),
    {
        self.x.is_small() && self.y.is_small() && self.z.is_small() && self.w.is_small()
    }

    /// The tests `try_magnitude` makes: `x`, `y`, `z` moderate, and their
    /// squares and the first partial sum small.
    pub open spec fn magnitude_testable(self) -> bool {
        let px = self.x.spec_mul(self.x);
        let py = self.y.spec_mul(self.y);
        let pz = self.z.spec_mul(self.z);
        &&& self.x.spec_is_moderate() && self.y.spec_is_moderate() && self.z.spec_is_moderate()
        &&& px.spec_is_small() && py.spec_is_small() && pz.spec_is_small()
        &&& px.spec_add(py).spec_is_small()
    }

    /// The magnitude, where range tests show that it can be taken; `None`
    /// where they fail.
    pub fn try_magnitude(&self) -> (r: Option<Dec>)
        requires
            self.wf(),
        ensures
            r == (if self.magnitude_testable() {
                Some(self.spec_magnitude())
            } else {
                None
            }),
    {
        if !self.norm_checked() {
            return None;
        }
        Some(self.magnitude())
    }

    /// Runs the tests of `magnitude_testable`.
    fn norm_checked(&self) -> (r: bool)
        requires
            self.wf(),
        ensures
            r == self.magnitude_testable(),
            r ==> self.norm_ok(),
    {
        if !(self.x.is_moderate() && self.y.is_moderate() && self.z.is_moderate()) {
            return false;
        }
        proof {
            lemma_moderate_mul(self.x, self.x);
            lemma_moderate_mul(self.y, self.y);
            lemma_moderate_mul(self.z, self.z);
        }
        let px = self.x.mul(self.x);
        let py = self.y.mul(self.y);
        let pz = self.z.mul(self.z);
        if !(px.is_small() && py.is_small() && pz.is_small()) {
            return false;
        }
        proof {
            crate::decimal::lemma_small_add(px, py);
        }
        let sum = px.add(py);
        let r = sum.is_small();
        proof {
            if r {
                crate::decimal::lemma_small_add(sum, pz);
            }
        }
        r
    }

    /// This tuple divided by its magnitude, where range tests show that the
    /// magnitude can be taken; `None` where they fail or the division fails.
    pub fn try_normalise(&self) -> (r: Option<Tuple>)
        requires
            self.wf(),
        ensures
            r == (if self.magnitude_testable() {
                self.spec_div(self.spec_magnitude())
            } else {
                None
            }),
    {
        if !self.norm_checked() {
            return None;
        }
        self.normalise()
    }

    /// The tests `try_dot_product` makes: every component moderate, and the
    /// products and running sums small.
    pub open spec fn dot_testable(self, o: Tuple) -> bool {
        let px = self.x.spec_mul(o.x);
        let py = self.y.spec_mul(o.y);
        let pz = self.z.spec_mul(o.z);
        let pw = self.w.spec_mul(o.w);
        &&& self.x.spec_is_moderate() && self.y.spec_is_moderate()
        &&& self.z.spec_is_moderate() && self.w.spec_is_moderate()
        &&& o.x.spec_is_moderate() && o.y.spec_is_moderate()
        &&& o.z.spec_is_moderate() && o.w.spec_is_moderate()
        &&& px.spec_is_small() && py.spec_is_small() && pz.spec_is_small() && pw.spec_is_small()
        &&& px.spec_add(py).spec_is_small()
        &&& px.spec_add(py).spec_add(pz).spec_is_small()
    }

    /// The dot product, where range tests show that it can be taken; `None`
    /// where they fail.
    pub fn try_dot_product(&self, other: &Tuple) -> (r: Option<Dec>)
        requires
            self.wf(),
            other.wf(),
        ensures
            r == (if self.dot_testable(*other) {
                Some(self.spec_dot(*other))
            } else {
                None
            }),
    {
        if !(self.x.is_moderate() && self.y.is_moderate() && self.z.is_moderate()
            && self.w.is_moderate() && other.x.is_moderate() && other.y.is_moderate()
            && other.z.is_moderate() && other.w.is_moderate()) {
            return None;
        }
        proof {
            lemma_moderate_mul(self.x, other.x);
            lemma_moderate_mul(self.y, other.y);
            lemma_moderate_mul(self.z, other.z);
            lemma_moderate_mul(self.w, other.w);
        }
        let px = self.x.mul(other.x);
        let py = self.y.mul(other.y);
        let pz = self.z.mul(other.z);
        let pw = self.w.mul(other.w);
        if !(px.is_small() && py.is_small() && pz.is_small() && pw.is_small()) {
            return None;
        }
        proof {
            crate::decimal::lemma_small_add(px, py);
        }
        let s1 = px.add(py);
        if !s1.is_small() {
            return None;
        }
        proof {
            crate::decimal::lemma_small_add(s1, pz);
        }
        let s2 = s1.add(pz);
        if !s2.is_small() {
            return None;
        }
        proof {
            crate::decimal::lemma_small_add(s2, pw);
        }
        Some(self.dot_product(*other))
    }

    /// The tests `try_cross_product` makes: `x`, `y`, `z` of both moderate,
    /// and the six products small.
    pub open spec fn cross_testable(self, o: Tuple) -> bool {
        &&& self.x.spec_is_moderate() && self.y.spec_is_moderate() && self.z.spec_is_moderate()
        &&& o.x.spec_is_moderate() && o.y.spec_is_moderate() && o.z.spec_is_moderate()
        &&& self.y.spec_mul(o.z).spec_is_small() && self.z.spec_mul(o.y).spec_is_small()
        &&& self.z.spec_mul(o.x).spec_is_small() && self.x.spec_mul(o.z).spec_is_small()
        &&& self.x.spec_mul(o.y).spec_is_small() && self.y.spec_mul(o.x).spec_is_small()
    }

    /// The cross product, where range tests show that it can be taken;
    /// `None` where they fail.
    pub fn try_cross_product(&self, other: &Tuple) -> (r: Option<Tuple>)
        requires
            self.wf(),
            other.wf(),
        ensures
            r == (if self.cross_testable(*other) {
                Some(self.spec_cross(*other))
            } else {
                None
            }),
    {
        if !(self.x.is_moderate() && self.y.is_moderate() && self.z.is_moderate()
            && other.x.is_moderate() && other.y.is_moderate() && other.z.is_moderate()) {
            return None;
        }
        proof {
            lemma_moderate_mul(self.y, other.z);
            lemma_moderate_mul(self.z, other.y);
            lemma_moderate_mul(self.z, other.x);
            lemma_moderate_mul(self.x, other.z);
            lemma_moderate_mul(self.x, other.y);
            lemma_moderate_mul(self.y, other.x);
        }
        let a = self.y.mul(other.z);
        let b = self.z.mul(other.y);
        let c = self.z.mul(other.x);
        let d = self.x.mul(other.z);
        let e = self.x.mul(other.y);
        let f = self.y.mul(other.x);
        if !(a.is_small() && b.is_small() && c.is_small() && d.is_small() && e.is_small()
            && f.is_small()) {
            return None;
        }
        proof {
            lemma_small_sub(a, b);
            lemma_small_sub(c, d);
            lemma_small_sub(e, f);
        }
        Some(self.cross_product(*other))
    }

    /// This tuple divided by its magnitude; `None` where the division fails
    /// (a zero magnitude always does).
    pub fn normalise(self) -> (r: Option<Tuple>)
        requires
            self.wf(),
            self.norm_ok(),
        ensures
            r == self.spec_div(self.spec_magnitude()),
            r matches Some(t) ==> t.wf(),
            self.is_vector() && r is Some ==> r.unwrap().is_vector(),
    {
        let m = self.magnitude();
        self.div(m)
    }
}

/// Two small tuples can always be added.
pub proof fn lemma_small_add(a: Tuple, b: Tuple)
    requires
        a.spec_small(),
        b.spec_small(),
    ensures
        a.add_ok(b),
{
    crate::decimal::lemma_small_add(a.x, b.x);
    crate::decimal::lemma_small_add(a.y, b.y);
    crate::decimal::lemma_small_add(a.z, b.z);
    crate::decimal::lemma_small_add(a.w, b.w);
}

/// Subtraction keeps the point/vector distinction: point minus point is a
/// vector, point minus vector is a point, vector minus vector is a vector.
pub proof fn law_difference_kinds(a: Tuple, b: Tuple)
    requires
        a.wf(),
        b.wf(),
    ensures
        a.is_point() && b.is_point() ==> a.spec_sub(b).is_vector(),
        a.is_point() && b.is_vector() ==> a.spec_sub(b).is_point(),
        a.is_vector() && b.is_vector() ==> a.spec_sub(b).is_vector(),
{
    lemma_kind_exact(a.w);
    lemma_kind_exact(b.w);
    if (a.is_point() || a.is_vector()) && (b.is_point() || b.is_vector()) {
        lemma_spec_sub(a.w, b.w);
    }
}

/// A canonical zero or one is written with scale zero.
proof fn lemma_kind_exact(w: Dec)
    requires
        w.wf(),
    ensures
        w.val() == 0 ==> w == Dec::spec_zero(),
        w.val() == unit() ==> w == Dec::spec_one(),
{
    crate::decimal::lemma_zero_val();
    crate::decimal::lemma_one_val();
    if w.val() == 0 {
        crate::decimal::lemma_val_determines(w, Dec::spec_zero());
    }
    if w.val() == unit() {
        crate::decimal::lemma_val_determines(w, Dec::spec_one());
    }
}

/// The cross product is anti-commutative: `a × b == -(b × a)`, wherever its
/// products and differences are exact.
pub proof fn law_cross_anticommutative(a: Tuple, b: Tuple)
    requires
        a.wf(),
        b.wf(),
        a.cross_exact(b),
    ensures
        b.cross_exact(a),
        a.spec_cross(b) == b.spec_cross(a).spec_neg(),
{
    lemma_cross_component(a.y, a.z, b.y, b.z);
    lemma_cross_component(a.z, a.x, b.z, b.x);
    lemma_cross_component(a.x, a.y, b.x, b.y);
    lemma_from_val(Dec::spec_zero());
    crate::decimal::lemma_zero_val();
    let l = a.spec_cross(b);
    let r = b.spec_cross(a).spec_neg();
    assert(l.x == r.x);
    assert(l.y == r.y);
    assert(l.z == r.z);
    assert(l.w == r.w);
}

/// For one component: `p·q' − q·p'` is the negation of `p'·q − q'·p`.
proof fn lemma_cross_component(p: Dec, q: Dec, pb: Dec, qb: Dec)
    requires
        p.wf(),
        q.wf(),
        pb.wf(),
        qb.wf(),
        p.mul_fits(qb),
        q.mul_fits(pb),
        p.spec_mul(qb).sub_fits(q.spec_mul(pb)),
    ensures
        pb.mul_fits(q),
        qb.mul_fits(p),
        pb.spec_mul(q).sub_fits(qb.spec_mul(p)),
        p.spec_mul(qb).spec_sub(q.spec_mul(pb)) == Dec::spec_zero().spec_sub(
            pb.spec_mul(q).spec_sub(qb.spec_mul(p)),
        ),
{
    assert(pb.mantissa * q.mantissa == q.mantissa * pb.mantissa) by (nonlinear_arith);
    assert(qb.mantissa * p.mantissa == p.mantissa * qb.mantissa) by (nonlinear_arith);
    assert(pb.val() * q.val() == q.val() * pb.val()) by (nonlinear_arith);
    assert(qb.val() * p.val() == p.val() * qb.val()) by (nonlinear_arith);
    assert(pb.mul_fits(q));
    assert(qb.mul_fits(p));
    assert(pb.spec_mul(q) == q.spec_mul(pb));
    assert(qb.spec_mul(p) == p.spec_mul(qb));
    lemma_spec_mul(p, qb);
    lemma_spec_mul(q, pb);
    lemma_spec_sub(q.spec_mul(pb), p.spec_mul(qb));
    lemma_spec_sub(p.spec_mul(qb), q.spec_mul(pb));
    crate::decimal::lemma_neg_fits(pb.spec_mul(q).spec_sub(qb.spec_mul(p)));
    crate::decimal::lemma_zero_val();
    lemma_spec_sub(Dec::spec_zero(), pb.spec_mul(q).spec_sub(qb.spec_mul(p)));
}

} // verus!
