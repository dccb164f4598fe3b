//! The degree-4 tower extension of the prime field. An element
//! `(a, b, c, d)` stands for `(a + b*i) + (c + d*i)*j` with the defining
//! relations `i^2 = -1` and `j^2 = 2 + i`: a quadratic extension, with a
//! complex-like basis, of a quadratic extension. All arithmetic reduces to
//! complex-pair arithmetic over the base field.

use vstd::prelude::*;
use vstd::arithmetic::div_mod::lemma_small_mod;
use vstd::arithmetic::div_mod::lemma_mod_division_less_than_divisor;
use vstd::arithmetic::div_mod::lemma_add_mod_noop;
use vstd::arithmetic::div_mod::lemma_sub_mod_noop;
use vstd::arithmetic::div_mod::lemma_mul_mod_noop_general;
use vstd::arithmetic::div_mod::lemma_mod_multiples_vanish;
use vstd::arithmetic::div_mod::lemma_fundamental_div_mod;
use vstd::arithmetic::mul::lemma_mul_is_associative;
use crate::basefield::BaseField;
use crate::basefield::PRIME;
use crate::basefield::fadd;
use crate::basefield::fsub;
use crate::basefield::fmul;
use crate::basefield::fneg;
use crate::basefield::finv;

verus! {

/// Componentwise sum of complex pairs.
pub open spec fn cadd(a: (int, int), b: (int, int)) -> (int, int) {
    (fadd(a.0, b.0), fadd(a.1, b.1))
}

/// Complex multiplication with `i^2 = -1`.
pub open spec fn cmul(a: (int, int), b: (int, int)) -> (int, int) {
    (fsub(fmul(a.0, b.0), fmul(a.1, b.1)), fadd(fmul(a.0, b.1), fmul(a.1, b.0)))
}

/// The square of a complex pair.
pub open spec fn csquare(a: (int, int)) -> (int, int) {
    cmul(a, a)
}

/// The norm of a complex pair: `a^2 + b^2`.
pub open spec fn cnorm(a: (int, int)) -> int {
    fadd(fmul(a.0, a.0), fmul(a.1, a.1))
}

/// A complex pair scaled by a base-field element.
pub open spec fn cscale(a: (int, int), s: int) -> (int, int) {
    (fmul(a.0, s), fmul(a.1, s))
}

/// Inverse of a complex pair: the conjugate divided by the norm.
pub open spec fn cinv(a: (int, int)) -> (int, int) {
    cscale((a.0, fneg(a.1)), finv(cnorm(a)))
}

/// Componentwise sum of tower elements.
pub open spec fn eadd(x: (int, int, int, int), y: (int, int, int, int)) -> (int, int, int, int) {
    (fadd(x.0, y.0), fadd(x.1, y.1), fadd(x.2, y.2), fadd(x.3, y.3))
}

/// Componentwise difference of tower elements.
pub open spec fn esub(x: (int, int, int, int), y: (int, int, int, int)) -> (int, int, int, int) {
    (fsub(x.0, y.0), fsub(x.1, y.1), fsub(x.2, y.2), fsub(x.3, y.3))
}

/// Componentwise negation of a tower element.
pub open spec fn eneg(x: (int, int, int, int)) -> (int, int, int, int) {
    (fneg(x.0), fneg(x.1), fneg(x.2), fneg(x.3))
}

/// Tower multiplication: with `x = P + Q*j` and `y = R + S*j` as pairs of
/// complex pairs, `x*y = (P*R + (2 + i)*Q*S) + (P*S + Q*R)*j`, the constant
/// `(2, 1)` encoding `j^2 = 2 + i`.
pub open spec fn emul(x: (int, int, int, int), y: (int, int, int, int)) -> (int, int, int, int) {
    let re = cadd(cmul((x.0, x.1), (y.0, y.1)), cmul((2, 1), cmul((x.2, x.3), (y.2, y.3))));
    let jm = cadd(cmul((x.0, x.1), (y.2, y.3)), cmul((x.2, x.3), (y.0, y.1)));
    (re.0, re.1, jm.0, jm.1)
}

/// The tower norm of `x = A + B*j`: the complex pair `A^2 - (2 + i)*B^2`,
/// the denominator of the inversion identity
/// `(A + B*j)^-1 = (A - B*j) / (A^2 - j^2*B^2)`.
pub open spec fn edenom(x: (int, int, int, int)) -> (int, int) {
    let a2 = csquare((x.0, x.1));
    let b2 = csquare((x.2, x.3));
    let ib2 = (fneg(b2.1), b2.0);
    (fsub(a2.0, fadd(fadd(b2.0, b2.0), ib2.0)), fsub(a2.1, fadd(fadd(b2.1, b2.1), ib2.1)))
}

/// The inversion identity applies to `x` when the norm of its tower norm is
/// nonzero. Every nonzero `x` satisfies this — `-1` is not a square modulo
/// `PRIME`, so a norm vanishes only on zero — but that fact rests on
/// Fermat's Little Theorem and is not proved here; callers establish the
/// condition directly, or let `try_inverse` decide it at run time.
pub open spec fn einvertible(x: (int, int, int, int)) -> bool {
    cnorm(edenom(x)) != 0
}

/// Tower inversion: the conjugate `A - B*j` times the inverted tower norm.
pub open spec fn einv(x: (int, int, int, int)) -> (int, int, int, int) {
    let di = cinv(edenom(x));
    let ra = cmul((x.0, x.1), di);
    let rb = cmul((fneg(x.2), fneg(x.3)), di);
    (ra.0, ra.1, rb.0, rb.1)
}

/// The tower product before reduction: each coordinate of `emul` as a plain
/// integer polynomial over the operands' coordinates. The tower ring's
/// defining relations do not involve the modulus, so this product is
/// associative and commutative over the integers; `emul` is its
/// coordinatewise reduction.
pub open spec fn emul_raw(x: (int, int, int, int), y: (int, int, int, int)) -> (
    int,
    int,
    int,
    int,
) {
    (
        x.0 * y.0 - x.1 * y.1 + 2 * (x.2 * y.2 - x.3 * y.3) - (x.2 * y.3 + x.3 * y.2),
        x.0 * y.1 + x.1 * y.0 + 2 * (x.2 * y.3 + x.3 * y.2) + (x.2 * y.2 - x.3 * y.3),
        x.0 * y.2 - x.1 * y.3 + x.2 * y.0 - x.3 * y.1,
        x.0 * y.3 + x.1 * y.2 + x.2 * y.1 + x.3 * y.0,
    )
}

/// Componentwise integer sum, before reduction.
pub open spec fn add4(x: (int, int, int, int), y: (int, int, int, int)) -> (int, int, int, int) {
    (x.0 + y.0, x.1 + y.1, x.2 + y.2, x.3 + y.3)
}

/// Componentwise canonical reduction.
pub open spec fn reduce4(x: (int, int, int, int)) -> (int, int, int, int) {
    (x.0 % (PRIME as int), x.1 % (PRIME as int), x.2 % (PRIME as int), x.3 % (PRIME as int))
}

/// The tower's multiplicative identity.
pub open spec fn eone() -> (int, int, int, int) {
    (1, 0, 0, 0)
}

/// The `e`-th power in the tower: `x` multiplied onto the identity `e`
/// times.
pub open spec fn epow(x: (int, int, int, int), e: nat) -> (int, int, int, int)
    decreases e,
{
    if e == 0 {
        eone()
    } else {
        emul(epow(x, (e - 1) as nat), x)
    }
}

/// The base-field element `s` as the tower element `s + 0*i + (0 + 0*i)*j`.
pub open spec fn embed(s: int) -> (int, int, int, int) {
    (s, 0, 0, 0)
}

/// A tower element scaled componentwise by a base-field element.
pub open spec fn escale(x: (int, int, int, int), s: int) -> (int, int, int, int) {
    (fmul(x.0, s), fmul(x.1, s), fmul(x.2, s), fmul(x.3, s))
}

/// All four coordinates are canonical residues.
pub open spec fn ewf(x: (int, int, int, int)) -> bool {
    &&& 0 <= x.0 < PRIME
    &&& 0 <= x.1 < PRIME
    &&& 0 <= x.2 < PRIME
    &&& 0 <= x.3 < PRIME
}

/// An element of the tower extension: the coordinates of
/// `(a + b*i) + (c + d*i)*j`, each a canonical base-field residue.
#[derive(Clone, Copy, Debug, PartialEq, Eq, Structural)]
pub struct ExtensionField(pub BaseField, pub BaseField, pub BaseField, pub BaseField);

impl View for ExtensionField {
    type V = (int, int, int, int);

    open spec fn view(&self) -> (int, int, int, int) {
        (self.0@, self.1@, self.2@, self.3@)
    }
}

impl ExtensionField {
    /// All four stored coordinates are canonical.
    pub open spec fn wf(self) -> bool {
        self.0.wf() && self.1.wf() && self.2.wf() && self.3.wf()
    }

    /// Builds the tower element with the four residue classes' canonical
    /// representatives as coordinates.
    pub fn new(a: u32, b: u32, c: u32, d: u32) -> (r: Self)
        ensures
            r.wf(),
            r@ == (
                a as int % PRIME as int,
                b as int % PRIME as int,
                c as int % PRIME as int,
                d as int % PRIME as int,
            ),
    {
        ExtensionField(BaseField::new(a), BaseField::new(b), BaseField::new(c), BaseField::new(d))
    }

    /// Componentwise addition.
    pub fn add(self, other: ExtensionField) -> (r: ExtensionField)
        requires
            self.wf(),
            other.wf(),
        ensures
            r.wf(),
            r@ == eadd(self@, other@),
    {
        ExtensionField(
            self.0.add(other.0),
            self.1.add(other.1),
            self.2.add(other.2),
            self.3.add(other.3),
        )
    }

    /// Componentwise subtraction.
    pub fn sub(self, other: ExtensionField) -> (r: ExtensionField)
        requires
            self.wf(),
            other.wf(),
        ensures
            r.wf(),
            r@ == esub(self@, other@),
    {
        ExtensionField(
            self.0.sub(other.0),
            self.1.sub(other.1),
            self.2.sub(other.2),
            self.3.sub(other.3),
        )
    }

    /// Componentwise negation.
    pub fn neg(self) -> (r: ExtensionField)
        requires
            self.wf(),
        ensures
            r.wf(),
            r@ == eneg(self@),
    {
        ExtensionField(self.0.neg(), self.1.neg(), self.2.neg(), self.3.neg())
    }

    /// Complex multiplication of pairs of base-field elements.
    pub fn mul_complex(a: (BaseField, BaseField), b: (BaseField, BaseField)) -> (r: (
        BaseField,
        BaseField,
    ))
        requires
            a.0.wf(),
            a.1.wf(),
            b.0.wf(),
            b.1.wf(),
        ensures
            r.0.wf(),
            r.1.wf(),
            (r.0@, r.1@) == cmul((a.0@, a.1@), (b.0@, b.1@)),
    {
        let (a0, a1) = a;
        let (b0, b1) = b;
        let c0 = a0.mul(b0).sub(a1.mul(b1));
        let c1 = a0.mul(b1).add(a1.mul(b0));
        (c0, c1)
    }

    /// A complex pair scaled by a base-field element.
    pub fn mul_complex_base(a: BaseField, b: BaseField, c: BaseField) -> (r: (
        BaseField,
        BaseField,
    ))
        requires
            a.wf(),
            b.wf(),
            c.wf(),
        ensures
            r.0.wf(),
            r.1.wf(),
            (r.0@, r.1@) == cscale((a@, b@), c@),
    {
        (a.mul(c), b.mul(c))
    }

    /// The square of a complex pair.
    pub fn square_complex(a: (BaseField, BaseField)) -> (r: (BaseField, BaseField))
        requires
            a.0.wf(),
            a.1.wf(),
        ensures
            r.0.wf(),
            r.1.wf(),
            (r.0@, r.1@) == csquare((a.0@, a.1@)),
    {
        Self::mul_complex(a, a)
    }

    /// Inverse of a complex pair: the conjugate divided by the norm.
    /// The norm must be nonzero; a pair with a nonzero coordinate always
    /// has a nonzero norm, `-1` being no square modulo `PRIME`, but that
    /// fact is not proved here and callers establish the condition.
    pub fn inverse_complex(a: BaseField, b: BaseField) -> (r: (BaseField, BaseField))
        requires
            a.wf(),
            b.wf(),
            cnorm((a@, b@)) != 0,
        ensures
            r.0.wf(),
            r.1.wf(),
            (r.0@, r.1@) == cinv((a@, b@)),
    {
        Self::mul_complex_base(a, b.neg(), a.square().add(b.square()).inverse())
    }

    /// Tower multiplication, by the formula `emul` states.
    pub fn mul(self, other: ExtensionField) -> (r: ExtensionField)
        requires
            self.wf(),
            other.wf(),
        ensures
            r.wf(),
            r@ == emul(self@, other@),
    {
        let (a0, b0) = Self::mul_complex((self.0, self.1), (other.0, other.1));
        let (a1, b1) = Self::mul_complex(
            (BaseField(2), BaseField(1)),
            Self::mul_complex((self.2, self.3), (other.2, other.3)),
        );
        let (a, b) = (a0.add(a1), b0.add(b1));
        let (c0, d0) = Self::mul_complex((self.0, self.1), (other.2, other.3));
        let (c1, d1) = Self::mul_complex((self.2, self.3), (other.0, other.1));
        let (c, d) = (c0.add(c1), d0.add(d1));
        ExtensionField(a, b, c, d)
    }

    /// The square of the element.
    pub fn square(self) -> (r: Self)
        requires
            self.wf(),
        ensures
            r.wf(),
            r@ == emul(self@, self@),
    {
        self.mul(self)
    }

    /// Tower inversion: multiply the conjugate `A - B*j` by the inverted
    /// tower norm `(A^2 - (2 + i)*B^2)^-1`.
    pub fn inverse(&self) -> (r: Self)
        requires
            self.wf(),
            einvertible(self@),
        ensures
            r.wf(),
            r@ == einv(self@),
    {
        let b2 = Self::square_complex((self.2, self.3));
        let ib2 = (b2.1.neg(), b2.0);
        let a2 = Self::square_complex((self.0, self.1));
        let denom = (
            a2.0.sub(b2.0.add(b2.0).add(ib2.0)),
            a2.1.sub(b2.1.add(b2.1).add(ib2.1)),
        );
        let denom_inverse = Self::inverse_complex(denom.0, denom.1);
        let (a, b) = Self::mul_complex((self.0, self.1), denom_inverse);
        let (c, d) = Self::mul_complex((self.2.neg(), self.3.neg()), denom_inverse);
        ExtensionField(a, b, c, d)
    }

    /// Tower division: multiplication by the divisor's inverse.
    pub fn div(self, other: ExtensionField) -> (r: ExtensionField)
        requires
            self.wf(),
            other.wf(),
            einvertible(other@),
        ensures
            r.wf(),
            r@ == emul(self@, einv(other@)),
    {
        self.mul(other.inverse())
    }

    /// In-place componentwise addition.
    pub fn add_assign(&mut self, other: ExtensionField)
        requires
            old(self).wf(),
            other.wf(),
        ensures
            final(self).wf(),
            final(self)@ == eadd(old(self)@, other@),
    {
        *self = self.add(other);
    }

    /// In-place componentwise subtraction.
    pub fn sub_assign(&mut self, other: ExtensionField)
        requires
            old(self).wf(),
            other.wf(),
        ensures
            final(self).wf(),
            final(self)@ == esub(old(self)@, other@),
    {
        *self = self.sub(other);
    }

    /// In-place tower multiplication.
    pub fn mul_assign(&mut self, other: ExtensionField)
        requires
            old(self).wf(),
            other.wf(),
        ensures
            final(self).wf(),
            final(self)@ == emul(old(self)@, other@),
    {
        *self = self.mul(other);
    }

    /// Adds a base-field scalar: the scalar joins the first coordinate,
    /// as adding the embedded element `(s, 0, 0, 0)` would.
    pub fn add_scalar(self, other: BaseField) -> (r: ExtensionField)
        requires
            self.wf(),
            other.wf(),
        ensures
            r.wf(),
            r@ == (fadd(self@.0, other@), self@.1, self@.2, self@.3),
    {
        ExtensionField(self.0.add(other), self.1, self.2, self.3)
    }

    /// Subtracts a base-field scalar from the first coordinate.
    pub fn sub_scalar(self, other: BaseField) -> (r: ExtensionField)
        requires
            self.wf(),
            other.wf(),
        ensures
            r.wf(),
            r@ == (fsub(self@.0, other@), self@.1, self@.2, self@.3),
    {
        ExtensionField(self.0.sub(other), self.1, self.2, self.3)
    }

    /// Multiplies by a base-field scalar: every coordinate is scaled, as
    /// multiplying by the embedded element `(s, 0, 0, 0)` would scale it.
    pub fn mul_scalar(self, other: BaseField) -> (r: ExtensionField)
        requires
            self.wf(),
            other.wf(),
        ensures
            r.wf(),
            r@ == escale(self@, other@),
    {
        ExtensionField(
            self.0.mul(other),
            self.1.mul(other),
            self.2.mul(other),
            self.3.mul(other),
        )
    }

    /// Exponentiation by repeated squaring over the tower, scanning the
    /// exponent's bits from least to most significant.
    pub fn pow(&self, exp: u128) -> (r: Self)
        requires
            self.wf(),
        ensures
            r.wf(),
            r@ == epow(self@, exp as nat),
    {
        let mut res = ExtensionField::new(1, 0, 0, 0);
        let mut base: ExtensionField = *self;
        let mut e: u128 = exp;
        proof {
            lemma_small_mod(0, PRIME as nat);
            lemma_small_mod(1, PRIME as nat);
            lemma_epow_ewf(base@, e as nat);
            lemma_emul_one(epow(base@, e as nat));
        }
        while e > 0
            invariant
                res.wf(),
                base.wf(),
                emul(res@, epow(base@, e as nat)) == epow(self@, exp as nat),
            decreases e,
        {
            let ghost r0: (int, int, int, int) = res@;
            let ghost b0: (int, int, int, int) = base@;
            let ghost e0: nat = e as nat;
            proof {
                assert(e & 1 == e % 2) by (bit_vector);
                assert(e >> 1 == e / 2) by (bit_vector);
            }
            if e & 1 == 1 {
                res = res.mul(base);
            }
            base = base.square();
            e = e >> 1;
            proof {
                lemma_epow_square(b0, e as nat);
                if e0 % 2 == 1 {
                    assert(e0 == 2 * (e as nat) + 1);
                    assert(epow(b0, e0) == emul(epow(b0, 2 * (e as nat)), b0));
                    lemma_emul_comm(epow(b0, 2 * (e as nat)), b0);
                    lemma_emul_assoc(r0, b0, epow(b0, 2 * (e as nat)));
                } else {
                    assert(e0 == 2 * (e as nat));
                }
            }
        }
        proof {
            lemma_emul_one(res@);
        }
        res
    }

    /// Tower inversion wherever it applies: computes the tower norm's norm,
    /// tests it, and inverts only when the test passes, so callers need
    /// establish nothing beforehand. A nonzero element always passes —
    /// `-1` is no square modulo `PRIME`, so the test fails only on the zero
    /// element — but that fact rests on Fermat's Little Theorem and is not
    /// proved here.
    pub fn try_inverse(&self) -> (r: Option<ExtensionField>)
        requires
            self.wf(),
        ensures
            r.is_some() <==> einvertible(self@),
            r matches Some(v) ==> v.wf() && v@ == einv(self@),
    {
        let b2 = Self::square_complex((self.2, self.3));
        let ib2 = (b2.1.neg(), b2.0);
        let a2 = Self::square_complex((self.0, self.1));
        let denom = (
            a2.0.sub(b2.0.add(b2.0).add(ib2.0)),
            a2.1.sub(b2.1.add(b2.1).add(ib2.1)),
        );
        let n = denom.0.square().add(denom.1.square());
        if n.0 == 0 {
            None
        } else {
            Some(self.inverse())
        }
    }

    /// Divides by a nonzero base-field scalar: every coordinate is divided.
    pub fn div_scalar(self, other: BaseField) -> (r: ExtensionField)
        requires
            self.wf(),
            other.wf(),
            other@ != 0,
        ensures
            r.wf(),
            r@ == escale(self@, finv(other@)),
    {
        ExtensionField(
            self.0.div(other),
            self.1.div(other),
            self.2.div(other),
            self.3.div(other),
        )
    }
}

/// The tower product is its unreduced polynomial form, reduced
/// componentwise.
pub proof fn lemma_emul_poly(x: (int, int, int, int), y: (int, int, int, int))
    ensures
        emul(x, y) == reduce4(emul_raw(x, y)),
{
    let p = PRIME as int;
    let x0: int = x.0;
    let x1: int = x.1;
    let x2: int = x.2;
    let x3: int = x.3;
    let y0: int = y.0;
    let y1: int = y.1;
    let y2: int = y.2;
    let y3: int = y.3;
    let u: int = x2 * y2 - x3 * y3;
    let v: int = x2 * y3 + x3 * y2;
    lemma_sub_mod_noop(x0 * y0, x1 * y1, p);
    lemma_sub_mod_noop(x2 * y2, x3 * y3, p);
    lemma_add_mod_noop(x2 * y3, x3 * y2, p);
    lemma_mul_mod_noop_general(2, u, p);
    lemma_mul_mod_noop_general(1, v, p);
    lemma_sub_mod_noop(2 * u, v, p);
    lemma_add_mod_noop(x0 * y0 - x1 * y1, 2 * u - v, p);
    lemma_add_mod_noop(x0 * y1, x1 * y0, p);
    lemma_mul_mod_noop_general(2, v, p);
    lemma_mul_mod_noop_general(1, u, p);
    lemma_add_mod_noop(2 * v, u, p);
    lemma_add_mod_noop(x0 * y1 + x1 * y0, 2 * v + u, p);
    lemma_sub_mod_noop(x0 * y2, x1 * y3, p);
    lemma_sub_mod_noop(x2 * y0, x3 * y1, p);
    lemma_add_mod_noop(x0 * y2 - x1 * y3, x2 * y0 - x3 * y1, p);
    lemma_add_mod_noop(x0 * y3, x1 * y2, p);
    lemma_add_mod_noop(x2 * y1, x3 * y0, p);
    lemma_add_mod_noop(x0 * y3 + x1 * y2, x2 * y1 + x3 * y0, p);
}

/// The unreduced tower product is commutative.
pub proof fn lemma_emul_raw_comm(x: (int, int, int, int), y: (int, int, int, int))
    ensures
        emul_raw(x, y) == emul_raw(y, x),
{
    let x0: int = x.0;
    let x1: int = x.1;
    let x2: int = x.2;
    let x3: int = x.3;
    let y0: int = y.0;
    let y1: int = y.1;
    let y2: int = y.2;
    let y3: int = y.3;
    assert(x0 * y0 - x1 * y1 + 2 * (x2 * y2 - x3 * y3) - (x2 * y3 + x3 * y2) == y0 * x0 - y1 * x1
        + 2 * (y2 * x2 - y3 * x3) - (y2 * x3 + y3 * x2)) by (nonlinear_arith);
    assert(x0 * y1 + x1 * y0 + 2 * (x2 * y3 + x3 * y2) + (x2 * y2 - x3 * y3) == y0 * x1 + y1 * x0
        + 2 * (y2 * x3 + y3 * x2) + (y2 * x2 - y3 * x3)) by (nonlinear_arith);
    assert(x0 * y2 - x1 * y3 + x2 * y0 - x3 * y1 == y0 * x2 - y1 * x3 + y2 * x0 - y3 * x1)
        by (nonlinear_arith);
    assert(x0 * y3 + x1 * y2 + x2 * y1 + x3 * y0 == y0 * x3 + y1 * x2 + y2 * x1 + y3 * x0)
        by (nonlinear_arith);
}

/// Multiplying a six-term sum by a factor distributes over the terms.
pub proof fn lemma_mul_sum6(a: int, b: int, c: int, d: int, e: int, f: int, z: int)
    ensures
        (a + b + c + d + e + f) * z == a * z + b * z + c * z + d * z + e * z + f * z,
{
    assert((a + b + c + d + e + f) * z == a * z + b * z + c * z + d * z + e * z + f * z)
        by (nonlinear_arith);
}

/// A factor distributes from the right over a sum shaped like the first
/// unreduced coordinate.
pub proof fn lemma_mul_shape0_right(a: int, b: int, c: int, d: int, e: int, f: int, z: int)
    ensures
        (a - b + 2 * (c - d) - (e + f)) * z == a * z - b * z + 2 * (c * z - d * z) - (e * z + f
            * z),
{
    assert((a - b + 2 * (c - d) - (e + f)) * z == a * z - b * z + 2 * (c * z - d * z) - (e * z + f
        * z)) by (nonlinear_arith);
}

/// A factor distributes from the left over a sum shaped like the first
/// unreduced coordinate.
pub proof fn lemma_mul_shape0_left(x: int, a: int, b: int, c: int, d: int, e: int, f: int)
    ensures
        x * (a - b + 2 * (c - d) - (e + f)) == x * a - x * b + 2 * (x * c - x * d) - (x * e + x
            * f),
{
    assert(x * (a - b + 2 * (c - d) - (e + f)) == x * a - x * b + 2 * (x * c - x * d) - (x * e + x
        * f)) by (nonlinear_arith);
}

/// A factor distributes from the right over a sum shaped like the second
/// unreduced coordinate.
pub proof fn lemma_mul_shape1_right(a: int, b: int, c: int, d: int, e: int, f: int, z: int)
    ensures
        (a + b + 2 * (c + d) + (e - f)) * z == a * z + b * z + 2 * (c * z + d * z) + (e * z - f
            * z),
{
    assert((a + b + 2 * (c + d) + (e - f)) * z == a * z + b * z + 2 * (c * z + d * z) + (e * z - f
        * z)) by (nonlinear_arith);
}

/// A factor distributes from the left over a sum shaped like the second
/// unreduced coordinate.
pub proof fn lemma_mul_shape1_left(x: int, a: int, b: int, c: int, d: int, e: int, f: int)
    ensures
        x * (a + b + 2 * (c + d) + (e - f)) == x * a + x * b + 2 * (x * c + x * d) + (x * e - x
            * f),
{
    assert(x * (a + b + 2 * (c + d) + (e - f)) == x * a + x * b + 2 * (x * c + x * d) + (x * e - x
        * f)) by (nonlinear_arith);
}

/// A factor distributes from the right over a four-term alternating sum.
pub proof fn lemma_mul_shape2_right(a: int, b: int, c: int, d: int, z: int)
    ensures
        (a - b + c - d) * z == a * z - b * z + c * z - d * z,
{
    assert((a - b + c - d) * z == a * z - b * z + c * z - d * z) by (nonlinear_arith);
}

/// A factor distributes from the left over a four-term alternating sum.
pub proof fn lemma_mul_shape2_left(x: int, a: int, b: int, c: int, d: int)
    ensures
        x * (a - b + c - d) == x * a - x * b + x * c - x * d,
{
    assert(x * (a - b + c - d) == x * a - x * b + x * c - x * d) by (nonlinear_arith);
}

/// A factor distributes from the right over a four-term sum.
pub proof fn lemma_mul_shape3_right(a: int, b: int, c: int, d: int, z: int)
    ensures
        (a + b + c + d) * z == a * z + b * z + c * z + d * z,
{
    assert((a + b + c + d) * z == a * z + b * z + c * z + d * z) by (nonlinear_arith);
}

/// A factor distributes from the left over a four-term sum.
pub proof fn lemma_mul_shape3_left(x: int, a: int, b: int, c: int, d: int)
    ensures
        x * (a + b + c + d) == x * a + x * b + x * c + x * d,
{
    assert(x * (a + b + c + d) == x * a + x * b + x * c + x * d) by (nonlinear_arith);
}

/// Reducing the left operand first does not change the reduced product:
/// each coordinate of the unreduced product is linear in that operand, so
/// the parts a reduction discards are multiples of the modulus.
pub proof fn lemma_emul_raw_mod_left(w: (int, int, int, int), z: (int, int, int, int))
    ensures
        reduce4(emul_raw(reduce4(w), z)) == reduce4(emul_raw(w, z)),
{
    let p = PRIME as int;
    let z0: int = z.0;
    let z1: int = z.1;
    let z2: int = z.2;
    let z3: int = z.3;
    lemma_fundamental_div_mod(w.0, p);
    lemma_fundamental_div_mod(w.1, p);
    lemma_fundamental_div_mod(w.2, p);
    lemma_fundamental_div_mod(w.3, p);
    let q0: int = w.0 / p;
    let q1: int = w.1 / p;
    let q2: int = w.2 / p;
    let q3: int = w.3 / p;
    let r0: int = w.0 % p;
    let r1: int = w.1 % p;
    let r2: int = w.2 % p;
    let r3: int = w.3 % p;
    let t00: int = q0 * z0;
    let t01: int = q0 * z1;
    let t02: int = q0 * z2;
    let t03: int = q0 * z3;
    let t10: int = q1 * z0;
    let t11: int = q1 * z1;
    let t12: int = q1 * z2;
    let t13: int = q1 * z3;
    let t20: int = q2 * z0;
    let t21: int = q2 * z1;
    let t22: int = q2 * z2;
    let t23: int = q2 * z3;
    let t30: int = q3 * z0;
    let t31: int = q3 * z1;
    let t32: int = q3 * z2;
    let t33: int = q3 * z3;
    lemma_mul_sum6(p * q0, r0, 0, 0, 0, 0, z0);
    lemma_mul_is_associative(p, q0, z0);
    lemma_mul_sum6(p * q0, r0, 0, 0, 0, 0, z1);
    lemma_mul_is_associative(p, q0, z1);
    lemma_mul_sum6(p * q0, r0, 0, 0, 0, 0, z2);
    lemma_mul_is_associative(p, q0, z2);
    lemma_mul_sum6(p * q0, r0, 0, 0, 0, 0, z3);
    lemma_mul_is_associative(p, q0, z3);
    lemma_mul_sum6(p * q1, r1, 0, 0, 0, 0, z0);
    lemma_mul_is_associative(p, q1, z0);
    lemma_mul_sum6(p * q1, r1, 0, 0, 0, 0, z1);
    lemma_mul_is_associative(p, q1, z1);
    lemma_mul_sum6(p * q1, r1, 0, 0, 0, 0, z2);
    lemma_mul_is_associative(p, q1, z2);
    lemma_mul_sum6(p * q1, r1, 0, 0, 0, 0, z3);
    lemma_mul_is_associative(p, q1, z3);
    lemma_mul_sum6(p * q2, r2, 0, 0, 0, 0, z0);
    lemma_mul_is_associative(p, q2, z0);
    lemma_mul_sum6(p * q2, r2, 0, 0, 0, 0, z1);
    lemma_mul_is_associative(p, q2, z1);
    lemma_mul_sum6(p * q2, r2, 0, 0, 0, 0, z2);
    lemma_mul_is_associative(p, q2, z2);
    lemma_mul_sum6(p * q2, r2, 0, 0, 0, 0, z3);
    lemma_mul_is_associative(p, q2, z3);
    lemma_mul_sum6(p * q3, r3, 0, 0, 0, 0, z0);
    lemma_mul_is_associative(p, q3, z0);
    lemma_mul_sum6(p * q3, r3, 0, 0, 0, 0, z1);
    lemma_mul_is_associative(p, q3, z1);
    lemma_mul_sum6(p * q3, r3, 0, 0, 0, 0, z2);
    lemma_mul_is_associative(p, q3, z2);
    lemma_mul_sum6(p * q3, r3, 0, 0, 0, 0, z3);
    lemma_mul_is_associative(p, q3, z3);
    lemma_mul_sum6(t00, -t11, 2 * t22, -(2 * t33), -t23, -t32, p);
    lemma_mul_sum6(t01, t10, 2 * t23, 2 * t32, t22, -t33, p);
    lemma_mul_sum6(t02, -t13, t20, -t31, 0, 0, p);
    lemma_mul_sum6(t03, t12, t21, t30, 0, 0, p);
    let k0: int = t00 - t11 + 2 * (t22 - t33) - (t23 + t32);
    let a0: int = r0 * z0 - r1 * z1 + 2 * (r2 * z2 - r3 * z3) - (r2 * z3 + r3 * z2);
    let k1: int = t01 + t10 + 2 * (t23 + t32) + (t22 - t33);
    let a1: int = r0 * z1 + r1 * z0 + 2 * (r2 * z3 + r3 * z2) + (r2 * z2 - r3 * z3);
    let k2: int = t02 - t13 + t20 - t31;
    let a2: int = r0 * z2 - r1 * z3 + r2 * z0 - r3 * z1;
    let k3: int = t03 + t12 + t21 + t30;
    let a3: int = r0 * z3 + r1 * z2 + r2 * z1 + r3 * z0;
    assert(emul_raw(w, z).0 == p * k0 + a0);
    assert(emul_raw(w, z).1 == p * k1 + a1);
    assert(emul_raw(w, z).2 == p * k2 + a2);
    assert(emul_raw(w, z).3 == p * k3 + a3);
    lemma_mod_multiples_vanish(k0, a0, p);
    lemma_mod_multiples_vanish(k1, a1, p);
    lemma_mod_multiples_vanish(k2, a2, p);
    lemma_mod_multiples_vanish(k3, a3, p);
    assert(emul_raw(reduce4(w), z).0 == a0);
    assert(emul_raw(reduce4(w), z).1 == a1);
    assert(emul_raw(reduce4(w), z).2 == a2);
    assert(emul_raw(reduce4(w), z).3 == a3);
}

/// Reducing the right operand first does not change the reduced product.
pub proof fn lemma_emul_raw_mod_right(w: (int, int, int, int), z: (int, int, int, int))
    ensures
        reduce4(emul_raw(w, reduce4(z))) == reduce4(emul_raw(w, z)),
{
    lemma_emul_raw_comm(w, reduce4(z));
    lemma_emul_raw_comm(w, z);
    lemma_emul_raw_mod_left(z, w);
}

/// The unreduced tower product is associative: a polynomial identity over
/// the integers, independent of the modulus, assembled from the
/// distribution of each coordinate's sum and the associativity of each
/// three-factor monomial.
pub proof fn lemma_emul_raw_assoc(
    x: (int, int, int, int),
    y: (int, int, int, int),
    z: (int, int, int, int),
)
    ensures
        emul_raw(emul_raw(x, y), z) == emul_raw(x, emul_raw(y, z)),
{
    let x0: int = x.0;
    let x1: int = x.1;
    let x2: int = x.2;
    let x3: int = x.3;
    let y0: int = y.0;
    let y1: int = y.1;
    let y2: int = y.2;
    let y3: int = y.3;
    let z0: int = z.0;
    let z1: int = z.1;
    let z2: int = z.2;
    let z3: int = z.3;
    let a00: int = x0 * y0;
    let a01: int = x0 * y1;
    let a02: int = x0 * y2;
    let a03: int = x0 * y3;
    let a10: int = x1 * y0;
    let a11: int = x1 * y1;
    let a12: int = x1 * y2;
    let a13: int = x1 * y3;
    let a20: int = x2 * y0;
    let a21: int = x2 * y1;
    let a22: int = x2 * y2;
    let a23: int = x2 * y3;
    let a30: int = x3 * y0;
    let a31: int = x3 * y1;
    let a32: int = x3 * y2;
    let a33: int = x3 * y3;
    let g00: int = y0 * z0;
    let g01: int = y0 * z1;
    let g02: int = y0 * z2;
    let g03: int = y0 * z3;
    let g10: int = y1 * z0;
    let g11: int = y1 * z1;
    let g12: int = y1 * z2;
    let g13: int = y1 * z3;
    let g20: int = y2 * z0;
    let g21: int = y2 * z1;
    let g22: int = y2 * z2;
    let g23: int = y2 * z3;
    let g30: int = y3 * z0;
    let g31: int = y3 * z1;
    let g32: int = y3 * z2;
    let g33: int = y3 * z3;
    let u0: int = a00 - a11 + 2 * (a22 - a33) - (a23 + a32);
    let u1: int = a01 + a10 + 2 * (a23 + a32) + (a22 - a33);
    let u2: int = a02 - a13 + a20 - a31;
    let u3: int = a03 + a12 + a21 + a30;
    let v0: int = g00 - g11 + 2 * (g22 - g33) - (g23 + g32);
    let v1: int = g01 + g10 + 2 * (g23 + g32) + (g22 - g33);
    let v2: int = g02 - g13 + g20 - g31;
    let v3: int = g03 + g12 + g21 + g30;
    assert(emul_raw(x, y) == (u0, u1, u2, u3));
    assert(emul_raw(y, z) == (v0, v1, v2, v3));
    lemma_mul_is_associative(x0, y0, z0);
    lemma_mul_is_associative(x0, y0, z1);
    lemma_mul_is_associative(x0, y0, z2);
    lemma_mul_is_associative(x0, y0, z3);
    lemma_mul_is_associative(x0, y1, z0);
    lemma_mul_is_associative(x0, y1, z1);
    lemma_mul_is_associative(x0, y1, z2);
    lemma_mul_is_associative(x0, y1, z3);
    lemma_mul_is_associative(x0, y2, z0);
    lemma_mul_is_associative(x0, y2, z1);
    lemma_mul_is_associative(x0, y2, z2);
    lemma_mul_is_associative(x0, y2, z3);
    lemma_mul_is_associative(x0, y3, z0);
    lemma_mul_is_associative(x0, y3, z1);
    lemma_mul_is_associative(x0, y3, z2);
    lemma_mul_is_associative(x0, y3, z3);
    lemma_mul_is_associative(x1, y0, z0);
    lemma_mul_is_associative(x1, y0, z1);
    lemma_mul_is_associative(x1, y0, z2);
    lemma_mul_is_associative(x1, y0, z3);
    lemma_mul_is_associative(x1, y1, z0);
    lemma_mul_is_associative(x1, y1, z1);
    lemma_mul_is_associative(x1, y1, z2);
    lemma_mul_is_associative(x1, y1, z3);
    lemma_mul_is_associative(x1, y2, z0);
    lemma_mul_is_associative(x1, y2, z1);
    lemma_mul_is_associative(x1, y2, z2);
    lemma_mul_is_associative(x1, y2, z3);
    lemma_mul_is_associative(x1, y3, z0);
    lemma_mul_is_associative(x1, y3, z1);
    lemma_mul_is_associative(x1, y3, z2);
    lemma_mul_is_associative(x1, y3, z3);
    lemma_mul_is_associative(x2, y0, z0);
    lemma_mul_is_associative(x2, y0, z1);
    lemma_mul_is_associative(x2, y0, z2);
    lemma_mul_is_associative(x2, y0, z3);
    lemma_mul_is_associative(x2, y1, z0);
    lemma_mul_is_associative(x2, y1, z1);
    lemma_mul_is_associative(x2, y1, z2);
    lemma_mul_is_associative(x2, y1, z3);
    lemma_mul_is_associative(x2, y2, z0);
    lemma_mul_is_associative(x2, y2, z1);
    lemma_mul_is_associative(x2, y2, z2);
    lemma_mul_is_associative(x2, y2, z3);
    lemma_mul_is_associative(x2, y3, z0);
    lemma_mul_is_associative(x2, y3, z1);
    lemma_mul_is_associative(x2, y3, z2);
    lemma_mul_is_associative(x2, y3, z3);
    lemma_mul_is_associative(x3, y0, z0);
    lemma_mul_is_associative(x3, y0, z1);
    lemma_mul_is_associative(x3, y0, z2);
    lemma_mul_is_associative(x3, y0, z3);
    lemma_mul_is_associative(x3, y1, z0);
    lemma_mul_is_associative(x3, y1, z1);
    lemma_mul_is_associative(x3, y1, z2);
    lemma_mul_is_associative(x3, y1, z3);
    lemma_mul_is_associative(x3, y2, z0);
    lemma_mul_is_associative(x3, y2, z1);
    lemma_mul_is_associative(x3, y2, z2);
    lemma_mul_is_associative(x3, y2, z3);
    lemma_mul_is_associative(x3, y3, z0);
    lemma_mul_is_associative(x3, y3, z1);
    lemma_mul_is_associative(x3, y3, z2);
    lemma_mul_is_associative(x3, y3, z3);
    lemma_mul_shape0_right(a00, a11, a22, a33, a23, a32, z0);
    lemma_mul_shape0_right(a00, a11, a22, a33, a23, a32, z1);
    lemma_mul_shape0_right(a00, a11, a22, a33, a23, a32, z2);
    lemma_mul_shape0_right(a00, a11, a22, a33, a23, a32, z3);
    lemma_mul_shape1_right(a01, a10, a23, a32, a22, a33, z0);
    lemma_mul_shape1_right(a01, a10, a23, a32, a22, a33, z1);
    lemma_mul_shape1_right(a01, a10, a23, a32, a22, a33, z2);
    lemma_mul_shape1_right(a01, a10, a23, a32, a22, a33, z3);
    lemma_mul_shape2_right(a02, a13, a20, a31, z0);
    lemma_mul_shape2_right(a02, a13, a20, a31, z1);
    lemma_mul_shape2_right(a02, a13, a20, a31, z2);
    lemma_mul_shape2_right(a02, a13, a20, a31, z3);
    lemma_mul_shape3_right(a03, a12, a21, a30, z0);
    lemma_mul_shape3_right(a03, a12, a21, a30, z1);
    lemma_mul_shape3_right(a03, a12, a21, a30, z2);
    lemma_mul_shape3_right(a03, a12, a21, a30, z3);
    lemma_mul_shape0_left(x0, g00, g11, g22, g33, g23, g32);
    lemma_mul_shape0_left(x1, g00, g11, g22, g33, g23, g32);
    lemma_mul_shape0_left(x2, g00, g11, g22, g33, g23, g32);
    lemma_mul_shape0_left(x3, g00, g11, g22, g33, g23, g32);
    lemma_mul_shape1_left(x0, g01, g10, g23, g32, g22, g33);
    lemma_mul_shape1_left(x1, g01, g10, g23, g32, g22, g33);
    lemma_mul_shape1_left(x2, g01, g10, g23, g32, g22, g33);
    lemma_mul_shape1_left(x3, g01, g10, g23, g32, g22, g33);
    lemma_mul_shape2_left(x0, g02, g13, g20, g31);
    lemma_mul_shape2_left(x1, g02, g13, g20, g31);
    lemma_mul_shape2_left(x2, g02, g13, g20, g31);
    lemma_mul_shape2_left(x3, g02, g13, g20, g31);
    lemma_mul_shape3_left(x0, g03, g12, g21, g30);
    lemma_mul_shape3_left(x1, g03, g12, g21, g30);
    lemma_mul_shape3_left(x2, g03, g12, g21, g30);
    lemma_mul_shape3_left(x3, g03, g12, g21, g30);
    assert(emul_raw(emul_raw(x, y), z).0 == emul_raw(x, emul_raw(y, z)).0);
    assert(emul_raw(emul_raw(x, y), z).1 == emul_raw(x, emul_raw(y, z)).1);
    assert(emul_raw(emul_raw(x, y), z).2 == emul_raw(x, emul_raw(y, z)).2);
    assert(emul_raw(emul_raw(x, y), z).3 == emul_raw(x, emul_raw(y, z)).3);
}

/// Tower multiplication is associative.
pub proof fn lemma_emul_assoc(
    x: (int, int, int, int),
    y: (int, int, int, int),
    z: (int, int, int, int),
)
    ensures
        emul(emul(x, y), z) == emul(x, emul(y, z)),
{
    lemma_emul_poly(x, y);
    lemma_emul_poly(emul(x, y), z);
    lemma_emul_raw_mod_left(emul_raw(x, y), z);
    lemma_emul_poly(y, z);
    lemma_emul_poly(x, emul(y, z));
    lemma_emul_raw_mod_right(x, emul_raw(y, z));
    lemma_emul_raw_assoc(x, y, z);
}

/// Tower multiplication is commutative.
pub proof fn lemma_emul_comm(x: (int, int, int, int), y: (int, int, int, int))
    ensures
        emul(x, y) == emul(y, x),
{
    lemma_emul_poly(x, y);
    lemma_emul_poly(y, x);
    lemma_emul_raw_comm(x, y);
}

/// Reduction does nothing to a tuple whose coordinates are canonical.
pub proof fn lemma_reduce4_canon(x: (int, int, int, int))
    requires
        ewf(x),
    ensures
        reduce4(x) == x,
{
    lemma_small_mod(x.0 as nat, PRIME as nat);
    lemma_small_mod(x.1 as nat, PRIME as nat);
    lemma_small_mod(x.2 as nat, PRIME as nat);
    lemma_small_mod(x.3 as nat, PRIME as nat);
}

/// The identity is neutral for tower multiplication of canonical elements.
pub proof fn lemma_emul_one(x: (int, int, int, int))
    requires
        ewf(x),
    ensures
        emul(x, eone()) == x,
        emul(eone(), x) == x,
{
    lemma_emul_poly(x, eone());
    assert(emul_raw(x, eone()) == x);
    lemma_reduce4_canon(x);
    lemma_emul_comm(x, eone());
}

/// Every tower product has canonical coordinates.
pub proof fn lemma_emul_ewf(x: (int, int, int, int), y: (int, int, int, int))
    ensures
        ewf(emul(x, y)),
{
    let p = PRIME as int;
    lemma_emul_poly(x, y);
    lemma_mod_division_less_than_divisor(emul_raw(x, y).0, p);
    lemma_mod_division_less_than_divisor(emul_raw(x, y).1, p);
    lemma_mod_division_less_than_divisor(emul_raw(x, y).2, p);
    lemma_mod_division_less_than_divisor(emul_raw(x, y).3, p);
}

/// Every tower power has canonical coordinates.
pub proof fn lemma_epow_ewf(x: (int, int, int, int), e: nat)
    ensures
        ewf(epow(x, e)),
    decreases e,
{
    if e != 0 {
        lemma_emul_ewf(epow(x, (e - 1) as nat), x);
    }
}

/// Multiplying powers of one base adds the exponents.
pub proof fn lemma_epow_adds(x: (int, int, int, int), e1: nat, e2: nat)
    ensures
        emul(epow(x, e1), epow(x, e2)) == epow(x, e1 + e2),
    decreases e2,
{
    if e2 == 0 {
        lemma_epow_ewf(x, e1);
        lemma_emul_one(epow(x, e1));
    } else {
        lemma_epow_adds(x, e1, (e2 - 1) as nat);
        lemma_emul_assoc(epow(x, e1), epow(x, (e2 - 1) as nat), x);
    }
}

/// A power of the square is the doubled power of the base.
pub proof fn lemma_epow_square(x: (int, int, int, int), e: nat)
    ensures
        epow(emul(x, x), e) == epow(x, 2 * e),
    decreases e,
{
    if e != 0 {
        lemma_epow_square(x, (e - 1) as nat);
        assert(epow(x, 2 * e) == emul(epow(x, (2 * e - 1) as nat), x));
        assert(epow(x, (2 * e - 1) as nat) == emul(epow(x, (2 * e - 2) as nat), x));
        lemma_emul_assoc(epow(x, (2 * e - 2) as nat), x, x);
    }
}

} // verus!
