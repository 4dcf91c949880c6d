use stepwise_pairing::field::Element;
use stepwise_pairing::final_exponentiation::{exp_by_neg_x, final_exponentiation_handler};
use stepwise_pairing::store::Store;

/// What the 63 digits give for the element whose coefficients are 1 to 12.
const EXPECTED: [u8; 384] = [
    0x0b, 0x34, 0x0b, 0x0c, 0xc1, 0xc6, 0x6e, 0x3d, 0x22, 0xe3, 0xf4, 0x15, 0x83, 0x38, 0xbc, 0x25,
    0x46, 0xfe, 0x64, 0x2d, 0xb9, 0x63, 0x42, 0x32, 0x10, 0xec, 0x62, 0x56, 0x5d, 0xe5, 0x53, 0x2a,
    0x13, 0x85, 0x16, 0x86, 0x50, 0xe1, 0x8d, 0xbf, 0xec, 0xf1, 0x45, 0x70, 0x18, 0xc1, 0x04, 0x1a,
    0xbf, 0x6f, 0xdd, 0x0c, 0x39, 0xa1, 0x5a, 0x18, 0x64, 0x29, 0xa6, 0xe4, 0x36, 0x71, 0xfc, 0x2b,
    0x27, 0x4a, 0xa6, 0x8f, 0x94, 0x46, 0x8b, 0x1d, 0xd7, 0x3f, 0x72, 0x41, 0xc0, 0x58, 0xf6, 0xa1,
    0xfe, 0x93, 0xea, 0x24, 0x0e, 0x2d, 0x39, 0xab, 0x53, 0x44, 0x69, 0x99, 0x7a, 0x20, 0x6d, 0x02,
    0xf3, 0x64, 0xac, 0x31, 0xdc, 0x43, 0xde, 0x85, 0xaa, 0xb8, 0x25, 0xd8, 0x0b, 0x3e, 0x12, 0xb5,
    0xd4, 0x55, 0xbe, 0xb7, 0xdc, 0x26, 0x05, 0xd2, 0x66, 0x75, 0xf1, 0x71, 0x66, 0x9b, 0x7a, 0x2a,
    0x06, 0x62, 0xf9, 0x35, 0x50, 0x42, 0xd5, 0xed, 0x7f, 0xef, 0xba, 0xaf, 0xf0, 0x57, 0x23, 0x66,
    0x1d, 0x25, 0x34, 0xd6, 0xf6, 0xcf, 0xca, 0xfb, 0x8a, 0x56, 0xa0, 0x3e, 0x91, 0xba, 0x58, 0x09,
    0xa4, 0x29, 0x06, 0xab, 0xcd, 0x38, 0xcb, 0x77, 0x7f, 0xbe, 0xdb, 0xb4, 0x09, 0x78, 0x6a, 0xb3,
    0x46, 0x2f, 0xf6, 0xa4, 0xb3, 0x3a, 0xb8, 0xba, 0xb5, 0xde, 0xae, 0x26, 0xc2, 0xfc, 0xe0, 0x20,
    0xb6, 0xa9, 0x51, 0x00, 0xf0, 0x91, 0x1f, 0xa2, 0xfe, 0xcb, 0x3c, 0xb7, 0xea, 0xf1, 0x70, 0xe6,
    0x78, 0x61, 0x2a, 0xdf, 0x0c, 0x05, 0x43, 0x0e, 0x60, 0x15, 0xf0, 0x38, 0xc2, 0x1e, 0xcf, 0x27,
    0xe5, 0xa3, 0x1a, 0x22, 0x9b, 0x8f, 0x45, 0xff, 0x20, 0x73, 0xd2, 0x9d, 0x2e, 0xcc, 0x06, 0x44,
    0x6b, 0x46, 0xe2, 0x37, 0x7d, 0x5f, 0x91, 0x7d, 0xd3, 0xed, 0x6c, 0x13, 0xaa, 0xfa, 0x0b, 0x29,
    0x60, 0x2d, 0x4f, 0x9f, 0xaf, 0x00, 0xde, 0x80, 0xa4, 0x55, 0xe6, 0x26, 0x67, 0x1d, 0xc1, 0xeb,
    0xba, 0x41, 0x1e, 0x70, 0xec, 0x00, 0x60, 0xb5, 0xf9, 0xf5, 0xde, 0xc8, 0x20, 0xcd, 0xe6, 0x22,
    0x20, 0xc5, 0xa6, 0x5b, 0x58, 0xe9, 0xa2, 0x5c, 0xde, 0xd9, 0x8b, 0xbc, 0x70, 0x70, 0x40, 0x72,
    0xc7, 0x62, 0x04, 0xaa, 0xa1, 0x8a, 0x23, 0x14, 0x12, 0xbb, 0x8f, 0x4d, 0x45, 0x6d, 0xb5, 0x22,
    0xa7, 0x05, 0x68, 0xb8, 0xe4, 0x18, 0x27, 0x86, 0xae, 0xa7, 0xc8, 0x1c, 0x9a, 0xca, 0x33, 0xf7,
    0x54, 0x76, 0x82, 0xa5, 0x66, 0xe3, 0x2d, 0x8d, 0x75, 0x00, 0xcf, 0x35, 0x21, 0x6f, 0x5d, 0x23,
    0x23, 0xe0, 0xd2, 0x30, 0x60, 0x63, 0xea, 0xfa, 0xdf, 0xfb, 0xa3, 0xd1, 0x90, 0x7a, 0x79, 0x64,
    0xec, 0xca, 0xbd, 0xe6, 0x87, 0x7f, 0xcd, 0xe0, 0x71, 0xae, 0x85, 0x45, 0xa3, 0xe0, 0xc3, 0x14,
];

fn base() -> Vec<u8> {
    let mut bytes = vec![0u8; 384];
    for i in 0..12 {
        bytes[32 * i] = i as u8 + 1;
    }
    bytes
}

#[test]
fn sub_exponentiation_of_a_known_base() {
    let mut store = Store::new();
    store.put("final".to_string(), base());
    let names = vec!["final".to_string(), "y0".to_string()];
    let one = Element::one();
    for j in 0..63 {
        assert_eq!(final_exponentiation_handler(&mut store, &one, 5, j, &[], &names), Ok(()));
    }
    assert_eq!(store.get(&"y0".to_string()), Some(EXPECTED.to_vec()));
    assert_eq!(store.get(&"final".to_string()), Some(base()));
}

#[test]
fn sub_exponentiation_conjugates_at_the_last_digit_alone() {
    let fe = Element::decode(&base()).unwrap();
    let inverse = fe.conjugate();
    let mut res = Element::one();
    let mut stored = Store::new();
    stored.put("final".to_string(), base());
    let names = vec!["final".to_string(), "y0".to_string()];
    let one = Element::one();
    for j in 0..63 {
        res = exp_by_neg_x(&fe, &inverse, res, j);
        assert_eq!(final_exponentiation_handler(&mut stored, &one, 5, j, &[], &names), Ok(()));
        let held = stored.get(&"y0".to_string()).unwrap();
        if j < 62 {
            assert_eq!(held, res.encode());
        } else {
            assert_ne!(held, res.encode());
            assert_eq!(held, res.conjugate().encode());
        }
    }
    assert_eq!(res.conjugate().encode(), EXPECTED.to_vec());
}
