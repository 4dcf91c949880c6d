use ark_bn254::{Fq12, FqParameters};
use ark_ff::{FpParameters, FromBytes, One, ToBytes, Zero};
use ark_std::UniformRand;
use stepwise_pairing::error::StepError;
use stepwise_pairing::field::{is_canonical, Element, BN254_DATA_LEN};

fn ark_bytes(x: &Fq12) -> Vec<u8> {
    let mut out = Vec::new();
    x.write(&mut out).unwrap();
    out
}

const MODULUS_LE: [u8; 32] = [
    0x47, 0xfd, 0x7c, 0xd8, 0x16, 0x8c, 0x20, 0x3c, 0x8d, 0xca, 0x71, 0x68, 0x91, 0x6a, 0x81, 0x97,
    0x5d, 0x58, 0x81, 0x81, 0xb6, 0x45, 0x50, 0xb8, 0x29, 0xa0, 0x31, 0xe1, 0x72, 0x4e, 0x64, 0x30,
];

#[test]
fn encoded_width_is_384() {
    assert_eq!(BN254_DATA_LEN, 384);
    assert_eq!(Element::one().encode().len(), 384);
}

#[test]
fn identity_is_one_followed_by_zeros() {
    let bytes = Element::one().encode();
    assert_eq!(bytes[0], 1);
    assert!(bytes[1..].iter().all(|b| *b == 0));
}

#[test]
fn identity_matches_the_field_library() {
    assert_eq!(Element::one().encode(), ark_bytes(&Fq12::one()));
}

#[test]
fn modulus_matches_the_field_library() {
    let mut out = Vec::new();
    FqParameters::MODULUS.write(&mut out).unwrap();
    assert_eq!(out, MODULUS_LE.to_vec());
}

#[test]
fn decode_then_encode_gives_the_bytes_back() {
    let mut rng = ark_std::test_rng();
    for _ in 0..20 {
        let bytes = ark_bytes(&Fq12::rand(&mut rng));
        let element = Element::decode(&bytes).unwrap();
        assert_eq!(element.encode(), bytes);
    }
}

#[test]
fn encode_then_decode_gives_the_element_back() {
    let mut rng = ark_std::test_rng();
    for _ in 0..20 {
        let x = Element::decode(&ark_bytes(&Fq12::rand(&mut rng))).unwrap();
        let y = Element::decode(&x.encode()).unwrap();
        assert!(x.equals(&y));
        assert_eq!(x, y);
    }
}

#[test]
fn identity_round_trips() {
    let one = Element::one();
    let back = Element::decode(&one.encode()).unwrap();
    assert!(back.equals(&one));
}

#[test]
fn decode_agrees_with_the_field_library_on_what_it_accepts() {
    let mut rng = ark_std::test_rng();
    let bytes = ark_bytes(&Fq12::rand(&mut rng));
    for position in 0..12 {
        let mut tampered = bytes.clone();
        for k in 0..32 {
            tampered[32 * position + k] = 0xff;
        }
        assert!(Fq12::read(&tampered[..]).is_err());
        assert_eq!(Element::decode(&tampered), Err(StepError::Decode));
    }
    assert!(Fq12::read(&bytes[..]).is_ok());
    assert!(Element::decode(&bytes).is_ok());
}

#[test]
fn decode_rejects_wrong_lengths() {
    let bytes = Element::one().encode();
    assert_eq!(Element::decode(&bytes[..383]), Err(StepError::Decode));
    let mut longer = bytes.clone();
    longer.push(0);
    assert_eq!(Element::decode(&longer), Err(StepError::Decode));
    assert_eq!(Element::decode(&[]), Err(StepError::Decode));
}

#[test]
fn decode_rejects_a_coefficient_equal_to_the_modulus() {
    for position in 0..12 {
        let mut bytes = vec![0u8; 384];
        bytes[32 * position..32 * position + 32].copy_from_slice(&MODULUS_LE);
        assert!(!is_canonical(&bytes));
        assert_eq!(Element::decode(&bytes), Err(StepError::Decode));
    }
}

#[test]
fn decode_accepts_the_largest_coefficient() {
    let mut largest = MODULUS_LE;
    largest[0] -= 1;
    for position in 0..12 {
        let mut bytes = vec![0u8; 384];
        bytes[32 * position..32 * position + 32].copy_from_slice(&largest);
        assert!(is_canonical(&bytes));
        let element = Element::decode(&bytes).unwrap();
        assert_eq!(element.encode(), bytes);
    }
}

#[test]
fn decode_compares_from_the_most_significant_byte() {
    // Larger than the modulus in the top byte, smaller in every other byte.
    let mut bytes = vec![0u8; 384];
    bytes[31] = 0x31;
    assert_eq!(Element::decode(&bytes), Err(StepError::Decode));
    // Smaller in the top byte, larger in every other byte.
    let mut bytes = vec![0u8; 384];
    for k in 0..31 {
        bytes[k] = 0xff;
    }
    bytes[31] = 0x2f;
    assert!(Element::decode(&bytes).is_ok());
}

#[test]
fn zero_is_an_element() {
    let zero = Element::decode(&[0u8; 384]).unwrap();
    assert_eq!(zero.encode(), ark_bytes(&Fq12::zero()));
    assert!(!zero.equals(&Element::one()));
}

#[test]
fn equals_tells_elements_apart() {
    let mut rng = ark_std::test_rng();
    let a = Element::decode(&ark_bytes(&Fq12::rand(&mut rng))).unwrap();
    let b = Element::decode(&ark_bytes(&Fq12::rand(&mut rng))).unwrap();
    assert!(a.equals(&a.clone()));
    assert!(!a.equals(&b));
    let mut last = a.encode();
    last[383 - 31] ^= 1;
    let c = Element::decode(&last).unwrap();
    assert!(!a.equals(&c));
}
