//! The prime field of order `PRIME = 2^31 - 1`: canonical residues with the
//! four ring operations, exponentiation by squaring, and inversion through a
//! fixed addition chain for the exponent `PRIME - 2`.

use vstd::prelude::*;
use vstd::arithmetic::power::pow;
use vstd::arithmetic::power::lemma_pow_adds;
use vstd::arithmetic::power::lemma_pow_multiplies;
use vstd::arithmetic::power::lemma_pow_mod_noop;
use vstd::arithmetic::power::lemma_pow0;
use vstd::arithmetic::power::lemma_pow1;
use vstd::arithmetic::power::lemma_square_is_pow2;
use vstd::arithmetic::power2::pow2;
use vstd::arithmetic::power2::lemma_pow2_adds;
use vstd::arithmetic::power2::lemma2_to64;
use vstd::arithmetic::div_mod::lemma_small_mod;
use vstd::arithmetic::div_mod::lemma_mod_self_0;
use vstd::arithmetic::div_mod::lemma_mod_twice;
use vstd::arithmetic::div_mod::lemma_mod_division_less_than_divisor;
use vstd::arithmetic::div_mod::lemma_mod_add_multiples_vanish;
use vstd::arithmetic::div_mod::lemma_add_mod_noop;
use vstd::arithmetic::div_mod::lemma_sub_mod_noop;
use vstd::arithmetic::div_mod::lemma_mul_mod_noop_general;
use vstd::arithmetic::mul::lemma_mul_is_associative;

verus! {

/// The Mersenne prime 2^31 - 1: the order of the field.
pub const PRIME: u32 = 2147483647;

/// An element of the prime field. The canonical representative of the
/// residue class is stored: every constructor and operation keeps the
/// value in `[0, PRIME)`.
#[derive(Clone, Copy, Debug, PartialEq, Eq, Structural)]
pub struct BaseField(pub u32);

/// Canonical residue of a sum.
pub open spec fn fadd(a: int, b: int) -> int {
    (a + b) % (PRIME as int)
}

/// Canonical residue of a difference.
pub open spec fn fsub(a: int, b: int) -> int {
    (a - b) % (PRIME as int)
}

/// Canonical residue of a product.
pub open spec fn fmul(a: int, b: int) -> int {
    (a * b) % (PRIME as int)
}

/// Canonical residue of the additive inverse.
pub open spec fn fneg(a: int) -> int {
    (PRIME - a) % (PRIME as int)
}

/// Canonical residue of the `e`-th power.
pub open spec fn fpow(a: int, e: nat) -> int {
    pow(a, e) % (PRIME as int)
}

/// The multiplicative inverse of a nonzero residue, by Fermat's Little
/// Theorem: `a^(PRIME - 2)`.
pub open spec fn finv(a: int) -> int {
    fpow(a, (PRIME - 2) as nat)
}

impl View for BaseField {
    type V = int;

    open spec fn view(&self) -> int {
        self.0 as int
    }
}

impl BaseField {
    /// The stored representative is canonical.
    pub open spec fn wf(self) -> bool {
        self.0 < PRIME
    }

    /// Builds the canonical element of `value`'s residue class.
    pub fn new(value: u32) -> (r: Self)
        ensures
            r.wf(),
            r@ == value as int % PRIME as int,
    {
        BaseField(value % PRIME)
    }

    /// Field addition.
    pub fn add(self, other: BaseField) -> (r: BaseField)
        requires
            self.wf(),
            other.wf(),
        ensures
            r.wf(),
            r@ == fadd(self@, other@),
    {
        BaseField((self.0 + other.0) % PRIME)
    }

    /// Field subtraction, computed without a negative intermediate value.
    pub fn sub(self, other: BaseField) -> (r: BaseField)
        requires
            self.wf(),
            other.wf(),
        ensures
            r.wf(),
            r@ == fsub(self@, other@),
    {
        proof {
            lemma_mod_add_multiples_vanish(self@ - other@, PRIME as int);
        }
        BaseField((self.0 + PRIME - other.0) % PRIME)
    }

    /// Field multiplication, through a 64-bit intermediate so the product
    /// of two 31-bit residues cannot overflow.
    pub fn mul(self, other: BaseField) -> (r: BaseField)
        requires
            self.wf(),
            other.wf(),
        ensures
            r.wf(),
            r@ == fmul(self@, other@),
    {
        proof {
            assert(self@ * other@ <= (PRIME - 1) * (PRIME - 1)) by (nonlinear_arith)
                requires
                    0 <= self@ <= PRIME - 1,
                    0 <= other@ <= PRIME - 1,
            ;
            lemma_mod_division_less_than_divisor(self@ * other@, PRIME as int);
        }
        BaseField(((self.0 as u64 * other.0 as u64) % PRIME as u64) as u32)
    }

    /// Additive inverse. Zero is its own negation: the general formula
    /// `PRIME - a` would yield the non-canonical `PRIME` there.
    pub fn neg(self) -> (r: BaseField)
        requires
            self.wf(),
        ensures
            r.wf(),
            r@ == fneg(self@),
    {
        if self.0 == 0 {
            proof {
                lemma_mod_self_0(PRIME as int);
            }
            BaseField(0)
        } else {
            proof {
                lemma_small_mod((PRIME - self.0) as nat, PRIME as nat);
            }
            BaseField(PRIME - self.0)
        }
    }

    /// The square of the element.
    pub fn square(self) -> (r: BaseField)
        requires
            self.wf(),
        ensures
            r.wf(),
            r@ == fmul(self@, self@),
    {
        self.mul(self)
    }

    /// In-place field addition.
    pub fn add_assign(&mut self, other: BaseField)
        requires
            old(self).wf(),
            other.wf(),
        ensures
            final(self).wf(),
            final(self)@ == fadd(old(self)@, other@),
    {
        *self = self.add(other);
    }

    /// In-place field subtraction.
    pub fn sub_assign(&mut self, other: BaseField)
        requires
            old(self).wf(),
            other.wf(),
        ensures
            final(self).wf(),
            final(self)@ == fsub(old(self)@, other@),
    {
        *self = self.sub(other);
    }

    /// In-place field multiplication.
    pub fn mul_assign(&mut self, other: BaseField)
        requires
            old(self).wf(),
            other.wf(),
        ensures
            final(self).wf(),
            final(self)@ == fmul(old(self)@, other@),
    {
        *self = self.mul(other);
    }

    /// Computes `v^(2^N)` by squaring `N` times.
    pub fn sqn<const N: usize>(v: BaseField) -> (r: BaseField)
        requires
            v.wf(),
        ensures
            r.wf(),
            r@ == fpow(v@, pow2(N as nat)),
    {
        proof {
            lemma2_to64();
            lemma_fpow1(v@);
        }
        let mut w = v;
        let mut i: usize = 0;
        while i < N
            invariant
                w.wf(),
                i <= N,
                w@ == fpow(v@, pow2(i as nat)),
            decreases N - i,
        {
            proof {
                lemma_fpow_adds(v@, pow2(i as nat), pow2(i as nat));
                lemma_pow2_adds(i as nat, 1);
                lemma2_to64();
            }
            w = w.square();
            i = i + 1;
        }
        w
    }

    /// Multiplicative inverse of a nonzero element: `self^(PRIME - 2)`,
    /// computed through a fixed addition chain whose block sizes
    /// {2,1,3,1,8,8,7} reach the exponent `PRIME - 2 = 2147483645`.
    pub fn inverse(self) -> (r: BaseField)
        requires
            self.wf(),
            self@ != 0,
        ensures
            r.wf(),
            r@ == finv(self@),
    {
        proof {
            lemma2_to64();
            lemma_fpow1(self@);
        }
        let t0 = Self::sqn::<2>(self).mul(self);
        proof {
            lemma_fpow_adds(self@, 4, 1);
        }
        let t1 = Self::sqn::<1>(t0).mul(t0);
        proof {
            lemma_fpow_multiplies(self@, 5, 2);
            lemma_fpow_adds(self@, 10, 5);
        }
        let t2 = Self::sqn::<3>(t1).mul(t0);
        proof {
            lemma_fpow_multiplies(self@, 15, 8);
            lemma_fpow_adds(self@, 120, 5);
        }
        let t3 = Self::sqn::<1>(t2).mul(t0);
        proof {
            lemma_fpow_multiplies(self@, 125, 2);
            lemma_fpow_adds(self@, 250, 5);
        }
        let t4 = Self::sqn::<8>(t3).mul(t3);
        proof {
            lemma_fpow_multiplies(self@, 255, 256);
            lemma_fpow_adds(self@, 65280, 255);
        }
        let t5 = Self::sqn::<8>(t4).mul(t3);
        proof {
            lemma_fpow_multiplies(self@, 65535, 256);
            lemma_fpow_adds(self@, 16776960, 255);
        }
        let r = Self::sqn::<7>(t5).mul(t2);
        proof {
            lemma_fpow_multiplies(self@, 16777215, 128);
            lemma_fpow_adds(self@, 2147483520, 125);
        }
        r
    }

    /// Field division: multiplication by the divisor's inverse.
    pub fn div(self, other: BaseField) -> (r: BaseField)
        requires
            self.wf(),
            other.wf(),
            other@ != 0,
        ensures
            r.wf(),
            r@ == fmul(self@, finv(other@)),
    {
        self.mul(other.inverse())
    }

    /// Exponentiation by repeated squaring, scanning the exponent's bits
    /// from least to most significant.
    pub fn pow(&self, exp: u128) -> (r: BaseField)
        requires
            self.wf(),
        ensures
            r.wf(),
            r@ == fpow(self@, exp as nat),
    {
        let mut res = BaseField::new(1);
        let mut base: BaseField = *self;
        let mut e: u128 = exp;
        proof {
            lemma_small_mod(1, PRIME as nat);
            lemma_fpow_range(base@, e as nat);
            lemma_small_mod(fpow(base@, e as nat) as nat, PRIME as nat);
        }
        while e > 0
            invariant
                res.wf(),
                base.wf(),
                fmul(res@, fpow(base@, e as nat)) == fpow(self@, exp as nat),
            decreases e,
        {
            let ghost r0: int = res@;
            let ghost b0: int = base@;
            let ghost e0: nat = e as nat;
            proof {
                assert(e & 1 == e % 2) by (bit_vector);
                assert(e >> 1 == e / 2) by (bit_vector);
            }
            if e & 1 == 1 {
                res = res.mul(base);
            }
            base = base.square();
            e = e >> 1;
            proof {
                lemma_square_is_pow2(b0);
                assert(fmul(b0, b0) == fpow(b0, 2));
                lemma_fpow_multiplies(b0, 2, e as nat);
                if e0 % 2 == 1 {
                    lemma_fpow1(b0);
                    lemma_fpow_adds(b0, 1, 2 * (e as nat));
                    lemma_fmul_assoc(r0, b0, fpow(b0, 2 * (e as nat)));
                    assert(e0 == 2 * (e as nat) + 1);
                } else {
                    assert(e0 == 2 * (e as nat));
                }
            }
        }
        proof {
            lemma_fpow0(base@);
            lemma_small_mod(res@ as nat, PRIME as nat);
        }
        res
    }
}

/// A canonical residue of a power lies in `[0, PRIME)`.
pub proof fn lemma_fpow_range(a: int, e: nat)
    ensures
        0 <= fpow(a, e) < PRIME as int,
{
    lemma_mod_division_less_than_divisor(pow(a, e), PRIME as int);
}

/// Anything to the zeroth power is the multiplicative identity.
pub proof fn lemma_fpow0(a: int)
    ensures
        fpow(a, 0) == 1,
{
    lemma_pow0(a);
    lemma_small_mod(1, PRIME as nat);
}

/// The first power of a canonical residue is the residue itself.
pub proof fn lemma_fpow1(a: int)
    requires
        0 <= a < PRIME,
    ensures
        fpow(a, 1) == a,
{
    lemma_pow1(a);
    lemma_small_mod(a as nat, PRIME as nat);
}

/// Multiplying powers of one base adds the exponents.
pub proof fn lemma_fpow_adds(a: int, e1: nat, e2: nat)
    ensures
        fmul(fpow(a, e1), fpow(a, e2)) == fpow(a, e1 + e2),
{
    lemma_mul_mod_noop_general(pow(a, e1), pow(a, e2), PRIME as int);
    lemma_pow_adds(a, e1, e2);
}

/// Raising a power to a power multiplies the exponents.
pub proof fn lemma_fpow_multiplies(a: int, e1: nat, e2: nat)
    ensures
        fpow(fpow(a, e1), e2) == fpow(a, e1 * e2),
{
    lemma_pow_mod_noop(pow(a, e1), e2, PRIME as int);
    lemma_pow_multiplies(a, e1, e2);
}

/// Modular multiplication is associative.
pub proof fn lemma_fmul_assoc(a: int, b: int, c: int)
    ensures
        fmul(fmul(a, b), c) == fmul(a, fmul(b, c)),
{
    lemma_mul_mod_noop_general(a * b, c, PRIME as int);
    lemma_mul_mod_noop_general(a, b * c, PRIME as int);
    lemma_mul_is_associative(a, b, c);
}

} // verus!
