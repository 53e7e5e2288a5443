use fee_miner::field::{bytes_less, prime_bytes, FieldElement};

type Felt = starknet::core::types::FieldElement;

fn outside(f: &FieldElement) -> Felt {
    Felt::from_bytes_be(&f.to_bytes_be()).unwrap()
}

fn inside(f: &Felt) -> FieldElement {
    FieldElement::from_bytes_be(f.to_bytes_be()).unwrap()
}

#[test]
fn from_u64_writes_the_low_eight_bytes() {
    let f = FieldElement::from_u64(0x0102_0304_0506_0708);
    let mut expected = [0u8; 32];
    expected[24..].copy_from_slice(&[1, 2, 3, 4, 5, 6, 7, 8]);
    assert_eq!(f.to_bytes_be(), expected);
    assert_eq!(outside(&f), Felt::from(0x0102_0304_0506_0708u64));
}

#[test]
fn from_u64_covers_the_extremes() {
    assert_eq!(outside(&FieldElement::from_u64(0)), Felt::ZERO);
    assert_eq!(outside(&FieldElement::from_u64(u64::MAX)), Felt::from(u64::MAX));
    assert_eq!(outside(&FieldElement::zero()), Felt::ZERO);
    assert_eq!(outside(&FieldElement::one()), Felt::ONE);
}

#[test]
fn from_u128_writes_the_low_sixteen_bytes() {
    let v = 0x0011_2233_4455_6677_8899_aabb_ccdd_eeffu128;
    assert_eq!(outside(&FieldElement::from_u128(v)), Felt::from(v));
    assert_eq!(outside(&FieldElement::from_u128(u128::MAX)), Felt::from(u128::MAX));
    assert_eq!(outside(&FieldElement::from_u128(7)), Felt::from(7u8));
}

#[test]
fn the_modulus_is_one_above_the_largest_element() {
    let p = prime_bytes();
    assert_eq!(FieldElement::from_bytes_be(p), None);
    assert_eq!(Felt::from_bytes_be(&p).ok(), None);
    let largest = Felt::MAX.to_bytes_be();
    let f = FieldElement::from_bytes_be(largest).unwrap();
    assert_eq!(f.to_bytes_be(), largest);
    assert!(bytes_less(&largest, &p));
    assert!(!bytes_less(&p, &largest));
    assert!(!bytes_less(&p, &p));
    assert_eq!(f.increment(), FieldElement::zero());
}

#[test]
fn from_bytes_be_rejects_what_is_not_below_the_modulus() {
    assert_eq!(FieldElement::from_bytes_be([0xff; 32]), None);
    let mut above = prime_bytes();
    above[31] = 2;
    assert_eq!(FieldElement::from_bytes_be(above), None);
    assert_eq!(FieldElement::from_bytes_be([0u8; 32]), Some(FieldElement::zero()));
}

#[test]
fn increment_agrees_with_field_addition() {
    let samples = [
        Felt::ZERO,
        Felt::ONE,
        Felt::from(0xffu8),
        Felt::from(0xffffu16),
        Felt::from(u64::MAX),
        Felt::from(u128::MAX),
        Felt::from_hex_be("0x00ffffffffffffffffffffffffffffffffffffffffffffffffffffffffffffff")
            .unwrap(),
        Felt::MAX - Felt::ONE,
        Felt::MAX,
    ];
    for s in samples.iter() {
        assert_eq!(outside(&inside(s).increment()), *s + Felt::ONE);
    }
}

#[test]
fn increment_carries_through_trailing_ff_bytes() {
    let f = FieldElement::from_u64(0x01ff_ffff);
    assert_eq!(f.increment(), FieldElement::from_u64(0x0200_0000));
    assert_eq!(FieldElement::from_u64(6000000000000).increment(), FieldElement::from_u64(6000000000001));
}

#[test]
fn order_is_the_order_of_the_integers() {
    let samples = [
        Felt::ZERO,
        Felt::ONE,
        Felt::from(0x100u16),
        Felt::from(0xffu8),
        Felt::from(u64::MAX),
        Felt::from_hex_be("0x0100000000000000000000000000000000000000000000000000000000000000")
            .unwrap(),
        Felt::MAX,
    ];
    for a in samples.iter() {
        for b in samples.iter() {
            let (x, y) = (inside(a), inside(b));
            assert_eq!(x.lt(&y), a < b);
            assert_eq!(x.le(&y), a <= b);
            assert_eq!(x.same(&y), a == b);
        }
    }
}

#[test]
fn is_zero_holds_of_zero_only() {
    assert!(FieldElement::zero().is_zero());
    assert!(!FieldElement::one().is_zero());
    assert!(!inside(&Felt::MAX).is_zero());
}
