use mersenne31::basefield::{BaseField, PRIME};
use mersenne31::extensionfield::ExtensionField;
use rand::rngs::SmallRng;
use rand::{Rng, SeedableRng};

fn mul_p(a: u32, b: u32) -> u32 {
    ((a as u64 * b as u64) % PRIME as u64) as u32
}

fn add_p(a: u32, b: u32) -> u32 {
    (a + b) % PRIME
}

fn sub_p(a: u32, b: u32) -> u32 {
    if a >= b {
        a - b
    } else {
        PRIME - b + a
    }
}

fn neg_p(a: u32) -> u32 {
    if a == 0 {
        0
    } else {
        PRIME - a
    }
}

#[test]
fn test_basic_ops() {
    let mut rng = SmallRng::seed_from_u64(0);
    for _ in 0..10000 {
        let x: u32 = rng.gen::<u32>() % PRIME;
        let y: u32 = rng.gen::<u32>() % PRIME;
        assert_eq!(
            BaseField::new(add_p(x, y)),
            BaseField::new(x).add(BaseField::new(y))
        );
        assert_eq!(
            BaseField::new(mul_p(x, y)),
            BaseField::new(x).mul(BaseField::new(y))
        );
        assert_eq!(BaseField::new(neg_p(x)), BaseField::new(x).neg());
    }
}

#[test]
fn test_sub_ops() {
    let mut rng = SmallRng::seed_from_u64(0);
    for _ in 0..10000 {
        let x: u32 = rng.gen::<u32>() % PRIME;
        let y: u32 = rng.gen::<u32>() % PRIME;
        assert_eq!(
            BaseField::new(sub_p(x, y)),
            BaseField::new(x).sub(BaseField::new(y))
        );
    }
}

#[test]
fn test_div_ops() {
    let mut rng = SmallRng::seed_from_u64(0);
    for _ in 0..10000 {
        let x: u32 = rng.gen::<u32>() % PRIME;
        let y: u32 = rng.gen::<u32>() % (PRIME - 1) + 1; // avoid division by zero
        let bx = BaseField::new(x);
        let by = BaseField::new(y);
        assert_eq!(bx.div(by), bx.mul(by.inverse()));
    }
}

#[test]
fn test_pow_ops() {
    let mut rng = SmallRng::seed_from_u64(0);
    for _ in 0..1000 {
        let x: u32 = rng.gen::<u32>() % PRIME;
        let exp: u128 = rng.gen::<u128>() % 1000; // limiting exponent size for test
        let bx = BaseField::new(x);
        let mut expected = BaseField::new(1);
        for _ in 0..exp {
            expected = expected.mul(bx);
        }
        assert_eq!(bx.pow(exp), expected);
    }
}

#[test]
fn test_inverse() {
    let mut rng = SmallRng::seed_from_u64(0);
    for _ in 0..10000 {
        let x: u32 = rng.gen::<u32>() % (PRIME - 1) + 1;
        let bx = BaseField::new(x);
        assert_eq!(bx.mul(bx.inverse()), BaseField::new(1));
    }
}

#[test]
fn test_ops() {
    let qm0 = ExtensionField::new(1, 2, 3, 4);
    let qm1 = ExtensionField::new(4, 5, 6, 7);
    let m = BaseField::new(8);
    let qm = ExtensionField(m, BaseField(0), BaseField(0), BaseField(0));
    let qm0_x_qm1 = ExtensionField::new(PRIME - 71, 93, PRIME - 16, 50);

    assert_eq!(qm0.add(qm1), ExtensionField::new(5, 7, 9, 11));
    assert_eq!(qm1.add_scalar(m), qm1.add(qm));
    assert_eq!(qm0.mul(qm1), qm0_x_qm1);
    assert_eq!(qm1.mul_scalar(m), qm1.mul(qm));
    assert_eq!(
        qm0.neg(),
        ExtensionField::new(PRIME - 1, PRIME - 2, PRIME - 3, PRIME - 4)
    );
    assert_eq!(
        qm0.sub(qm1),
        ExtensionField::new(PRIME - 3, PRIME - 3, PRIME - 3, PRIME - 3)
    );
    assert_eq!(qm1.sub_scalar(m), qm1.sub(qm));
    assert_eq!(qm0_x_qm1.div(qm1), ExtensionField::new(1, 2, 3, 4));
    assert_eq!(qm1.div_scalar(m), qm1.div(qm));
}

#[test]
fn test_new_reduces() {
    assert_eq!(BaseField::new(PRIME), BaseField::new(0));
    assert_eq!(BaseField::new(PRIME + 5), BaseField::new(5));
    assert_eq!(BaseField::new(u32::MAX), BaseField::new(u32::MAX % PRIME));
    assert_eq!(
        ExtensionField::new(PRIME, PRIME + 1, 2 * PRIME, PRIME - 1),
        ExtensionField::new(0, 1, 0, PRIME - 1)
    );
}

#[test]
fn test_neg_zero_is_zero() {
    assert_eq!(BaseField::new(0).neg(), BaseField::new(0));
    assert_eq!(BaseField::new(0).neg().0, 0);
    assert_eq!(
        ExtensionField::new(0, 0, 0, 0).neg(),
        ExtensionField::new(0, 0, 0, 0)
    );
}

#[test]
fn test_pow_zero_exponent() {
    assert_eq!(BaseField::new(0).pow(0), BaseField::new(1));
    assert_eq!(BaseField::new(7).pow(0), BaseField::new(1));
    assert_eq!(
        ExtensionField::new(0, 0, 0, 0).pow(0),
        ExtensionField::new(1, 0, 0, 0)
    );
    assert_eq!(
        ExtensionField::new(1, 2, 3, 4).pow(0),
        ExtensionField::new(1, 0, 0, 0)
    );
}

#[test]
fn test_pow_small_exponents() {
    let b = BaseField::new(1234567);
    assert_eq!(b.pow(1), b);
    assert_eq!(b.pow(2), b.mul(b));
    assert_eq!(b.pow(3), b.mul(b).mul(b));
    let x = ExtensionField::new(1, 2, 3, 4);
    assert_eq!(x.pow(1), x);
    assert_eq!(x.pow(2), x.mul(x));
    assert_eq!(x.pow(3), x.mul(x).mul(x));
    assert_eq!(x.square(), x.mul(x));
}

#[test]
fn test_base_field_axioms_random() {
    let mut rng = SmallRng::seed_from_u64(1);
    for _ in 0..10000 {
        let a = BaseField::new(rng.gen::<u32>() % PRIME);
        let b = BaseField::new(rng.gen::<u32>() % PRIME);
        let c = BaseField::new(rng.gen::<u32>() % PRIME);
        assert_eq!(a.add(b), b.add(a));
        assert_eq!(a.add(b).add(c), a.add(b.add(c)));
        assert_eq!(a.mul(b), b.mul(a));
        assert_eq!(a.mul(b).mul(c), a.mul(b.mul(c)));
        assert_eq!(a.mul(b.add(c)), a.mul(b).add(a.mul(c)));
        assert_eq!(a.add(BaseField::new(0)), a);
        assert_eq!(a.mul(BaseField::new(1)), a);
        assert_eq!(a.add(a.neg()), BaseField::new(0));
        assert!(a.add(b).0 < PRIME);
        assert!(a.mul(b).0 < PRIME);
        assert!(a.sub(b).0 < PRIME);
        assert!(a.neg().0 < PRIME);
    }
}

#[test]
fn test_ext_field_axioms_random() {
    let mut rng = SmallRng::seed_from_u64(2);
    let draw = |rng: &mut SmallRng| {
        ExtensionField::new(
            rng.gen::<u32>() % PRIME,
            rng.gen::<u32>() % PRIME,
            rng.gen::<u32>() % PRIME,
            rng.gen::<u32>() % PRIME,
        )
    };
    for _ in 0..2000 {
        let x = draw(&mut rng);
        let y = draw(&mut rng);
        let z = draw(&mut rng);
        let zero = ExtensionField::new(0, 0, 0, 0);
        let one = ExtensionField::new(1, 0, 0, 0);
        assert_eq!(x.add(y), y.add(x));
        assert_eq!(x.add(y).add(z), x.add(y.add(z)));
        assert_eq!(x.mul(y), y.mul(x));
        assert_eq!(x.mul(y).mul(z), x.mul(y.mul(z)));
        assert_eq!(x.mul(y.add(z)), x.mul(y).add(x.mul(z)));
        assert_eq!(x.add(zero), x);
        assert_eq!(x.mul(one), x);
        assert_eq!(x.add(x.neg()), zero);
    }
}

#[test]
fn test_ext_inverse_random() {
    let mut rng = SmallRng::seed_from_u64(3);
    let one = ExtensionField::new(1, 0, 0, 0);
    for _ in 0..2000 {
        let x = ExtensionField::new(
            rng.gen::<u32>() % PRIME,
            rng.gen::<u32>() % PRIME,
            rng.gen::<u32>() % PRIME,
            rng.gen::<u32>() % PRIME,
        );
        if x == ExtensionField::new(0, 0, 0, 0) {
            continue;
        }
        assert_eq!(x.mul(x.inverse()), one);
        assert_eq!(x.div(x), one);
    }
}

#[test]
fn test_scalar_ops_match_embedded() {
    let mut rng = SmallRng::seed_from_u64(4);
    for _ in 0..2000 {
        let x = ExtensionField::new(
            rng.gen::<u32>() % PRIME,
            rng.gen::<u32>() % PRIME,
            rng.gen::<u32>() % PRIME,
            rng.gen::<u32>() % PRIME,
        );
        let s = BaseField::new(rng.gen::<u32>() % (PRIME - 1) + 1);
        let es = ExtensionField(s, BaseField(0), BaseField(0), BaseField(0));
        assert_eq!(x.add_scalar(s), x.add(es));
        assert_eq!(x.sub_scalar(s), x.sub(es));
        assert_eq!(x.mul_scalar(s), x.mul(es));
        assert_eq!(x.div_scalar(s), x.div(es));
    }
}

#[test]
fn test_pow_large_random_exponents() {
    let mut rng = SmallRng::seed_from_u64(5);
    for _ in 0..200 {
        let a = BaseField::new(rng.gen::<u32>() % PRIME);
        let e1: u128 = rng.gen::<u128>();
        let e2: u128 = rng.gen::<u128>() % 1000;
        // a^(e1 + e2) == a^e1 * a^e2
        assert_eq!(a.pow(e1).mul(a.pow(e2)), a.pow(e1 + e2));
        let x = ExtensionField::new(
            rng.gen::<u32>() % PRIME,
            rng.gen::<u32>() % PRIME,
            rng.gen::<u32>() % PRIME,
            rng.gen::<u32>() % PRIME,
        );
        let f1: u128 = rng.gen::<u128>();
        let f2: u128 = rng.gen::<u128>() % 10000;
        assert_eq!(x.pow(f1).mul(x.pow(f2)), x.pow(f1 + f2));
    }
}

#[test]
fn test_assign_ops() {
    let mut a = BaseField::new(100);
    a.add_assign(BaseField::new(50));
    assert_eq!(a, BaseField::new(150));
    a.sub_assign(BaseField::new(200));
    assert_eq!(a, BaseField::new(PRIME - 50));
    a.mul_assign(BaseField::new(2));
    assert_eq!(a, BaseField::new(PRIME - 100));
    let mut x = ExtensionField::new(1, 2, 3, 4);
    x.add_assign(ExtensionField::new(4, 5, 6, 7));
    assert_eq!(x, ExtensionField::new(5, 7, 9, 11));
    x.sub_assign(ExtensionField::new(4, 5, 6, 7));
    assert_eq!(x, ExtensionField::new(1, 2, 3, 4));
    x.mul_assign(ExtensionField::new(4, 5, 6, 7));
    assert_eq!(x, ExtensionField::new(PRIME - 71, 93, PRIME - 16, 50));
}

#[test]
fn test_inverse_concrete() {
    // 3 * 1431655765 == 4294967295 == 2*PRIME + 1, so inverse(3) == 1431655765.
    assert_eq!(BaseField::new(3).inverse(), BaseField::new(1431655765));
    assert_eq!(BaseField::new(1).inverse(), BaseField::new(1));
    assert_eq!(
        BaseField::new(PRIME - 1).inverse(),
        BaseField::new(PRIME - 1)
    );
    assert_eq!(
        BaseField::new(2).div(BaseField::new(3)),
        BaseField::new(2).mul(BaseField::new(1431655765))
    );
}

#[test]
fn test_try_inverse() {
    let one = ExtensionField::new(1, 0, 0, 0);
    assert_eq!(ExtensionField::new(0, 0, 0, 0).try_inverse(), None);
    let x = ExtensionField::new(1, 2, 3, 4);
    let inv = x.try_inverse().unwrap();
    assert_eq!(x.mul(inv), one);
    assert_eq!(inv, x.inverse());
    let y = ExtensionField::new(0, 0, 0, 5);
    assert_eq!(y.mul(y.try_inverse().unwrap()), one);
}

#[test]
fn test_ext_pow_matches_repeated_mul() {
    let mut rng = SmallRng::seed_from_u64(6);
    for _ in 0..200 {
        let x = ExtensionField::new(
            rng.gen::<u32>() % PRIME,
            rng.gen::<u32>() % PRIME,
            rng.gen::<u32>() % PRIME,
            rng.gen::<u32>() % PRIME,
        );
        let exp: u128 = rng.gen::<u128>() % 100;
        let mut expected = ExtensionField::new(1, 0, 0, 0);
        for _ in 0..exp {
            expected = expected.mul(x);
        }
        assert_eq!(x.pow(exp), expected);
    }
}
