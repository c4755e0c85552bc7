use circuitry::field::{Fe, MODULUS};

#[test]
fn add_wraps_at_the_modulus() {
    let a = Fe::from_u64(70);
    let b = Fe::from_u64(40);
    assert_eq!(a.add(b).rep, 9);
    assert_eq!(a.sub(b).rep, 30);
    assert_eq!(b.sub(a).rep, 71);
    assert_eq!(a.mul(b).rep, (70 * 40) % MODULUS);
}

#[test]
fn from_u64_reduces() {
    assert_eq!(Fe::from_u64(150).rep, 49);
    assert_eq!(Fe::from_u64(MODULUS).rep, 0);
    assert_eq!(Fe::zero().rep, 0);
    assert_eq!(Fe::one().rep, 1);
}

#[test]
fn neg_is_additive_inverse() {
    for v in 0..MODULUS {
        let x = Fe { rep: v };
        assert_eq!(x.add(x.neg()).rep, 0);
    }
}

#[test]
fn invert_finds_the_inverse_of_every_nonzero_element() {
    assert_eq!(Fe::zero().invert().rep, 0);
    for v in 1..MODULUS {
        let x = Fe { rep: v };
        let inv = x.invert();
        assert_eq!(x.mul(inv).rep, 1, "no inverse for {}", v);
    }
}

#[test]
fn products_of_nonzero_elements_are_nonzero() {
    for a in 1..MODULUS {
        for b in 1..MODULUS {
            assert_ne!(Fe { rep: a }.mul(Fe { rep: b }).rep, 0);
        }
    }
}
