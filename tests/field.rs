use share_conversion::field::{Fp, MODULUS};

#[test]
fn field_addition_wraps() {
    assert_eq!(Fp::new(MODULUS - 1).add(Fp::new(2)), Fp::new(1));
    assert_eq!(Fp::new(3).add(Fp::new(4)).value(), 7);
}

#[test]
fn field_new_reduces() {
    assert_eq!(Fp::new(MODULUS).value(), 0);
    assert_eq!(Fp::new(u64::MAX).value(), u64::MAX % MODULUS);
}

#[test]
fn field_negation() {
    assert_eq!(Fp::new(5).neg().value(), MODULUS - 5);
    assert_eq!(Fp::zero().neg(), Fp::zero());
}

#[test]
fn field_multiplication() {
    assert_eq!(Fp::new(6).mul(Fp::new(7)).value(), 42);
    assert_eq!(Fp::new(MODULUS - 1).mul(Fp::new(MODULUS - 1)), Fp::one());
}

#[test]
fn field_inverse() {
    let two = Fp::new(2);
    let inv = two.inverse().unwrap();
    assert_eq!(inv.value(), (MODULUS + 1) / 2);
    assert_eq!(two.mul(inv), Fp::one());
    assert_eq!(Fp::zero().inverse(), None);
}

#[test]
fn field_random_elements() {
    for _ in 0..100 {
        assert!(Fp::rand().value() < MODULUS);
        let r = Fp::rand_nonzero();
        assert!(!r.is_zero() && r.value() < MODULUS);
    }
}

#[test]
fn every_nonzero_element_has_an_inverse() {
    for v in [1u64, 2, 3, 65535, 65536, 1 << 30, MODULUS - 2, MODULUS - 1] {
        let x = Fp::new(v);
        let inv = x.inverse().unwrap();
        assert_eq!(x.mul(inv), Fp::one());
    }
    assert_eq!(Fp::new(MODULUS).inverse(), None);
}
