use ark_bn254::Fq12;
use ark_ff::ToBytes;
use ark_std::UniformRand;
use stepwise_pairing::error::StepError;
use stepwise_pairing::field::Element;
use stepwise_pairing::store::{get_account_data, put_account_data, Store};

fn key(name: &str) -> String {
    name.to_string()
}

fn random_element(seed: usize) -> Element {
    let mut rng = ark_std::test_rng();
    let mut x = Fq12::rand(&mut rng);
    for _ in 0..seed {
        x = Fq12::rand(&mut rng);
    }
    let mut out = Vec::new();
    x.write(&mut out).unwrap();
    Element::decode(&out).unwrap()
}

#[test]
fn a_new_store_holds_nothing() {
    let store = Store::new();
    assert_eq!(store.get(&key("final")), None);
    assert_eq!(store.get(&key("")), None);
}

#[test]
fn a_slot_never_written_reads_as_the_identity() {
    let store = Store::new();
    let read = get_account_data(&store, key("gamma"), 1).unwrap();
    assert!(read.equals(&Element::one()));
    assert_eq!(read.encode(), Element::one().encode());
}

#[test]
fn a_slot_reads_as_what_was_written() {
    let mut store = Store::new();
    let x = random_element(0);
    put_account_data(&mut store, key("y3"), &x);
    assert!(get_account_data(&store, key("y3"), 1).unwrap().equals(&x));
    assert_eq!(store.get(&key("y3")), Some(x.encode()));
    assert!(get_account_data(&store, key("y4"), 1).unwrap().equals(&Element::one()));
}

#[test]
fn a_write_replaces_what_was_held() {
    let mut store = Store::new();
    let x = random_element(0);
    let y = random_element(1);
    put_account_data(&mut store, key("final"), &x);
    put_account_data(&mut store, key("delta"), &x);
    put_account_data(&mut store, key("final"), &y);
    assert!(get_account_data(&store, key("final"), 1).unwrap().equals(&y));
    assert!(get_account_data(&store, key("delta"), 1).unwrap().equals(&x));
}

#[test]
fn a_slot_reads_the_same_at_every_digit() {
    let mut store = Store::new();
    let x = random_element(2);
    put_account_data(&mut store, key("y0"), &x);
    for j in [0usize, 1, 5, 62, 63, usize::MAX] {
        assert!(get_account_data(&store, key("y0"), j).unwrap().equals(&x));
        assert!(get_account_data(&store, key("y1"), j).unwrap().equals(&Element::one()));
    }
    store.put(key("y0"), vec![1, 2, 3]);
    for j in [0usize, 1, 62] {
        assert_eq!(get_account_data(&store, key("y0"), j), Err(StepError::Decode));
    }
}

#[test]
fn malformed_bytes_in_a_slot_fail_to_decode() {
    let mut store = Store::new();
    store.put(key("short"), vec![0u8; 383]);
    store.put(key("long"), vec![0u8; 385]);
    store.put(key("large"), vec![0xffu8; 384]);
    store.put(key("empty"), vec![]);
    for name in ["short", "long", "large", "empty"] {
        assert_eq!(get_account_data(&store, key(name), 1), Err(StepError::Decode));
        assert_eq!(get_account_data(&store, key(name), 0), Err(StepError::Decode));
    }
}

#[test]
fn raw_bytes_are_kept_as_put() {
    let mut store = Store::new();
    store.put(key("a"), vec![1, 2, 3]);
    store.put(key("b"), vec![]);
    store.put(key("a"), vec![4]);
    assert_eq!(store.get(&key("a")), Some(vec![4]));
    assert_eq!(store.get(&key("b")), Some(vec![]));
    assert_eq!(store.get(&key("c")), None);
}

#[test]
fn names_are_compared_whole() {
    let mut store = Store::new();
    store.put(key("y1"), vec![1]);
    store.put(key("y11"), vec![11]);
    store.put(key("y"), vec![0]);
    assert_eq!(store.get(&key("y1")), Some(vec![1]));
    assert_eq!(store.get(&key("y11")), Some(vec![11]));
    assert_eq!(store.get(&key("y")), Some(vec![0]));
    assert_eq!(store.get(&key("Y1")), None);
}
