//! The algebraic laws of the two fields, stated over the mathematical model
//! and proved once for every element: commutativity, associativity,
//! distributivity, the identities, additive inverses, and the agreement of
//! the scalar operations with the embedded-element operations.
//!
//! The one law of the field axioms not proved here is `a * inverse(a) == 1`:
//! it is Fermat's Little Theorem, which the inversion contracts do not
//! depend on — they state the computed power `a^(PRIME - 2)` exactly.

use vstd::prelude::*;
use vstd::arithmetic::div_mod::lemma_small_mod;
use vstd::arithmetic::div_mod::lemma_mod_self_0;
use vstd::arithmetic::div_mod::lemma_add_mod_noop;
use vstd::arithmetic::div_mod::lemma_add_mod_noop_right;
use vstd::arithmetic::div_mod::lemma_mul_mod_noop_general;
use vstd::arithmetic::mul::lemma_mul_is_distributive_add;
use crate::basefield::PRIME;
use crate::basefield::fadd;
use crate::basefield::fsub;
use crate::basefield::fmul;
use crate::basefield::fneg;
use crate::basefield::lemma_fmul_assoc;
use crate::extensionfield::eadd;
use crate::extensionfield::esub;
use crate::extensionfield::eneg;
use crate::extensionfield::emul;
use crate::extensionfield::embed;
use crate::extensionfield::escale;
use crate::extensionfield::eone;
use crate::extensionfield::ewf;
use crate::extensionfield::emul_raw;
use crate::extensionfield::add4;
use crate::extensionfield::reduce4;
use crate::extensionfield::lemma_emul_comm;
use crate::extensionfield::lemma_emul_assoc;
use crate::extensionfield::lemma_emul_raw_mod_right;
use crate::extensionfield::lemma_emul_one;
use crate::extensionfield::lemma_emul_poly;
use crate::extensionfield::lemma_reduce4_canon;

verus! {

/// Base-field addition is commutative.
pub proof fn lemma_base_add_comm(a: int, b: int)
    ensures
        fadd(a, b) == fadd(b, a),
{
}

/// Base-field addition is associative.
pub proof fn lemma_base_add_assoc(a: int, b: int, c: int)
    requires
        0 <= a < PRIME,
        0 <= b < PRIME,
        0 <= c < PRIME,
    ensures
        fadd(fadd(a, b), c) == fadd(a, fadd(b, c)),
{
    let p = PRIME as int;
    lemma_small_mod(a as nat, PRIME as nat);
    lemma_small_mod(c as nat, PRIME as nat);
    lemma_add_mod_noop(a + b, c, p);
    lemma_add_mod_noop(a, b + c, p);
}

/// Zero is neutral for base-field addition.
pub proof fn lemma_base_add_zero(a: int)
    requires
        0 <= a < PRIME,
    ensures
        fadd(a, 0) == a,
{
    lemma_small_mod(a as nat, PRIME as nat);
}

/// Every base-field element plus its negation is zero.
pub proof fn lemma_base_add_neg(a: int)
    requires
        0 <= a < PRIME,
    ensures
        fadd(a, fneg(a)) == 0,
{
    let p = PRIME as int;
    lemma_add_mod_noop_right(a, p - a, p);
    lemma_mod_self_0(p);
}

/// Base-field multiplication is commutative.
pub proof fn lemma_base_mul_comm(a: int, b: int)
    ensures
        fmul(a, b) == fmul(b, a),
{
}

/// Base-field multiplication is associative.
pub proof fn lemma_base_mul_assoc(a: int, b: int, c: int)
    ensures
        fmul(fmul(a, b), c) == fmul(a, fmul(b, c)),
{
    lemma_fmul_assoc(a, b, c);
}

/// One is neutral for base-field multiplication.
pub proof fn lemma_base_mul_one(a: int)
    requires
        0 <= a < PRIME,
    ensures
        fmul(a, 1) == a,
{
    lemma_small_mod(a as nat, PRIME as nat);
}

/// Base-field multiplication distributes over addition.
pub proof fn lemma_base_mul_distrib(a: int, b: int, c: int)
    ensures
        fmul(a, fadd(b, c)) == fadd(fmul(a, b), fmul(a, c)),
{
    let p = PRIME as int;
    lemma_mul_mod_noop_general(a, b + c, p);
    lemma_add_mod_noop(a * b, a * c, p);
    lemma_mul_is_distributive_add(a, b, c);
}

/// The negation of zero is zero, not `PRIME`.
pub proof fn lemma_base_neg_zero()
    ensures
        fneg(0) == 0,
{
    lemma_mod_self_0(PRIME as int);
}

/// Tower addition is commutative.
pub proof fn lemma_ext_add_comm(x: (int, int, int, int), y: (int, int, int, int))
    ensures
        eadd(x, y) == eadd(y, x),
{
}

/// Tower addition is associative.
pub proof fn lemma_ext_add_assoc(
    x: (int, int, int, int),
    y: (int, int, int, int),
    z: (int, int, int, int),
)
    requires
        ewf(x),
        ewf(y),
        ewf(z),
    ensures
        eadd(eadd(x, y), z) == eadd(x, eadd(y, z)),
{
    lemma_base_add_assoc(x.0, y.0, z.0);
    lemma_base_add_assoc(x.1, y.1, z.1);
    lemma_base_add_assoc(x.2, y.2, z.2);
    lemma_base_add_assoc(x.3, y.3, z.3);
}

/// The zero element is neutral for tower addition.
pub proof fn lemma_ext_add_zero(x: (int, int, int, int))
    requires
        ewf(x),
    ensures
        eadd(x, (0int, 0int, 0int, 0int)) == x,
{
    lemma_base_add_zero(x.0);
    lemma_base_add_zero(x.1);
    lemma_base_add_zero(x.2);
    lemma_base_add_zero(x.3);
}

/// Every tower element plus its negation is the zero element.
pub proof fn lemma_ext_add_neg(x: (int, int, int, int))
    requires
        ewf(x),
    ensures
        eadd(x, eneg(x)) == (0int, 0int, 0int, 0int),
{
    lemma_base_add_neg(x.0);
    lemma_base_add_neg(x.1);
    lemma_base_add_neg(x.2);
    lemma_base_add_neg(x.3);
}

/// Tower multiplication is commutative.
pub proof fn lemma_ext_mul_comm(x: (int, int, int, int), y: (int, int, int, int))
    ensures
        emul(x, y) == emul(y, x),
{
    lemma_emul_comm(x, y);
}

/// Tower multiplication is associative.
pub proof fn lemma_ext_mul_assoc(
    x: (int, int, int, int),
    y: (int, int, int, int),
    z: (int, int, int, int),
)
    ensures
        emul(emul(x, y), z) == emul(x, emul(y, z)),
{
    lemma_emul_assoc(x, y, z);
}

/// Tower multiplication distributes over tower addition.
pub proof fn lemma_ext_mul_distrib(
    x: (int, int, int, int),
    y: (int, int, int, int),
    z: (int, int, int, int),
)
    ensures
        emul(x, eadd(y, z)) == eadd(emul(x, y), emul(x, z)),
{
    let p = PRIME as int;
    lemma_emul_poly(x, eadd(y, z));
    assert(eadd(y, z) == reduce4(add4(y, z)));
    lemma_emul_raw_mod_right(x, add4(y, z));
    lemma_mul_is_distributive_add(x.0, y.0, z.0);
    lemma_mul_is_distributive_add(x.0, y.1, z.1);
    lemma_mul_is_distributive_add(x.0, y.2, z.2);
    lemma_mul_is_distributive_add(x.0, y.3, z.3);
    lemma_mul_is_distributive_add(x.1, y.0, z.0);
    lemma_mul_is_distributive_add(x.1, y.1, z.1);
    lemma_mul_is_distributive_add(x.1, y.2, z.2);
    lemma_mul_is_distributive_add(x.1, y.3, z.3);
    lemma_mul_is_distributive_add(x.2, y.0, z.0);
    lemma_mul_is_distributive_add(x.2, y.1, z.1);
    lemma_mul_is_distributive_add(x.2, y.2, z.2);
    lemma_mul_is_distributive_add(x.2, y.3, z.3);
    lemma_mul_is_distributive_add(x.3, y.0, z.0);
    lemma_mul_is_distributive_add(x.3, y.1, z.1);
    lemma_mul_is_distributive_add(x.3, y.2, z.2);
    lemma_mul_is_distributive_add(x.3, y.3, z.3);
    assert(emul_raw(x, add4(y, z)) == add4(emul_raw(x, y), emul_raw(x, z)));
    lemma_emul_poly(x, y);
    lemma_emul_poly(x, z);
    lemma_add_mod_noop(emul_raw(x, y).0, emul_raw(x, z).0, p);
    lemma_add_mod_noop(emul_raw(x, y).1, emul_raw(x, z).1, p);
    lemma_add_mod_noop(emul_raw(x, y).2, emul_raw(x, z).2, p);
    lemma_add_mod_noop(emul_raw(x, y).3, emul_raw(x, z).3, p);
}

/// The identity element is neutral for tower multiplication.
pub proof fn lemma_ext_mul_one(x: (int, int, int, int))
    requires
        ewf(x),
    ensures
        emul(x, eone()) == x,
        emul(eone(), x) == x,
{
    lemma_emul_one(x);
}

/// Adding a scalar is adding its embedded tower element.
pub proof fn lemma_ext_scalar_add(x: (int, int, int, int), s: int)
    requires
        ewf(x),
    ensures
        eadd(x, embed(s)) == (fadd(x.0, s), x.1, x.2, x.3),
{
    lemma_base_add_zero(x.1);
    lemma_base_add_zero(x.2);
    lemma_base_add_zero(x.3);
}

/// Subtracting a scalar is subtracting its embedded tower element.
pub proof fn lemma_ext_scalar_sub(x: (int, int, int, int), s: int)
    requires
        ewf(x),
    ensures
        esub(x, embed(s)) == (fsub(x.0, s), x.1, x.2, x.3),
{
    lemma_small_mod(x.1 as nat, PRIME as nat);
    lemma_small_mod(x.2 as nat, PRIME as nat);
    lemma_small_mod(x.3 as nat, PRIME as nat);
}

/// Multiplying by a scalar is multiplying by its embedded tower element:
/// the general tower product against `(s, 0, 0, 0)` collapses to
/// componentwise scaling.
pub proof fn lemma_ext_scalar_mul(x: (int, int, int, int), s: int)
    ensures
        emul(x, embed(s)) == escale(x, s),
{
    lemma_emul_poly(x, embed(s));
}

} // verus!
