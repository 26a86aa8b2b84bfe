use term_structure_evacuation_kit::scalar::{usize_to_string, Scalar};

fn s(x: u64) -> Scalar {
    Scalar::from_u64(x)
}

/// p - 1, the largest element.
fn minus_one() -> Scalar {
    Scalar::zero().sub(&Scalar::one())
}

#[test]
fn addition_wraps_at_the_prime() {
    assert_eq!(s(7).add(&s(8)), s(15));
    assert_eq!(minus_one().add(&s(1)), s(0));
    assert_eq!(minus_one().add(&s(5)), s(4));
}

#[test]
fn subtraction_wraps_below_zero() {
    assert_eq!(s(8).sub(&s(3)), s(5));
    assert_eq!(s(3).sub(&s(8)).add(&s(5)), s(0));
    assert_eq!(s(0).sub(&s(1)), minus_one());
}

#[test]
fn multiplication_and_power() {
    assert_eq!(s(6).mul(&s(7)), s(42));
    assert_eq!(minus_one().mul(&minus_one()), s(1));
    assert_eq!(s(3).pow(5), s(243));
    assert_eq!(s(2).pow(0), s(1));
    assert_eq!(s(2).pow(64), s(1 << 32).mul(&s(1 << 32)));
}

#[test]
fn order_is_the_order_of_the_numbers() {
    assert!(s(3).lt(&s(4)));
    assert!(!s(4).lt(&s(4)));
    assert!(s(5).gt(&s(4)));
    assert!(s(u64::MAX).lt(&s(u64::MAX).add(&s(1))));
    assert!(minus_one().gt(&s(u64::MAX)));
    assert!(s(0).is_zero());
    assert!(!s(1).is_zero());
}

#[test]
fn bytes_are_little_endian() {
    let bytes = s(0x0102).to_le_bytes();
    assert_eq!(bytes.len(), 32);
    assert_eq!(bytes[0], 0x02);
    assert_eq!(bytes[1], 0x01);
    assert!(bytes[2..].iter().all(|b| *b == 0));
    let big = s(u64::MAX).add(&s(1));
    let bytes = big.to_le_bytes();
    assert!(bytes[..8].iter().all(|b| *b == 0));
    assert_eq!(bytes[8], 1);
    assert_eq!(Scalar::from_le_bytes_mod_order(&bytes), big);
    assert_eq!(Scalar::from_le_bytes_mod_order(&minus_one().to_le_bytes()), minus_one());
}

#[test]
fn reading_bytes_reduces_modulo_the_prime() {
    // 2^256 - 1 = 6 * p + r: compare with the same number built from field operations.
    let all_ones = vec![0xFFu8; 32];
    let two_pow_128 = s(2).pow(128);
    let expected = two_pow_128.mul(&two_pow_128).sub(&s(1));
    assert_eq!(Scalar::from_le_bytes_mod_order(&all_ones), expected);
    assert_eq!(Scalar::from_le_bytes_mod_order(&vec![]), s(0));
    assert_eq!(Scalar::from_le_bytes_mod_order(&vec![5]), s(5));
}

#[test]
fn big_endian_bytes_read_from_the_other_end() {
    assert_eq!(Scalar::from_be_bytes_mod_order(&vec![1, 2]), s(0x0102));
    assert_eq!(Scalar::from_be_bytes_mod_order(&vec![0, 0, 0, 9]), s(9));
}

#[test]
fn decimal_strings() {
    assert_eq!(s(0).to_string(), "");
    assert_eq!(s(5).to_string(), "5");
    assert_eq!(s(1230).to_string(), "1230");
    assert_eq!(
        minus_one().to_string(),
        "21888242871839275222246405745257275088548364400416034343698204186575808495616"
    );
    assert_eq!(usize_to_string(0), "0");
    assert_eq!(usize_to_string(907), "907");
}

#[test]
fn division_rounds_down() {
    let s = |x: u64| Scalar::from_u64(x);
    assert_eq!(s(17).div(&s(5)), s(3));
    assert_eq!(s(4).div(&s(5)), s(0));
    assert_eq!(s(0).div(&s(7)), s(0));
    assert_eq!(s(u64::MAX).div(&s(1)), s(u64::MAX));
    // the largest element, as a whole number, halved
    let top = s(0).sub(&s(1));
    let half = top.div(&s(2));
    assert_eq!(half.add(&half), top);
    assert_eq!(top.div(&top), s(1));
}
