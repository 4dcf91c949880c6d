use ark_bn254::{Bn254, Fq12};
use ark_ec::PairingEngine;
use ark_ff::{ToBytes, Zero};
use ark_std::UniformRand;
use stepwise_pairing::error::StepError;
use stepwise_pairing::field::Element;
use stepwise_pairing::final_exponentiation::final_exponentiation_handler;
use stepwise_pairing::schedule::{final_schedule, phase_keys, run_final_exponentiation};
use stepwise_pairing::store::{put_account_data, Store};

const SLOTS: [&str; 14] = [
    "gamma", "delta", "final", "y0", "y1", "y3", "y4", "y6", "y8", "y9", "y11", "y13", "y14",
    "y15",
];

fn ark_bytes(x: &Fq12) -> Vec<u8> {
    let mut out = Vec::new();
    x.write(&mut out).unwrap();
    out
}

fn element(x: &Fq12) -> Element {
    Element::decode(&ark_bytes(x)).unwrap()
}

fn sample(n: usize) -> Vec<Fq12> {
    let mut rng = ark_std::test_rng();
    (0..n).map(|_| Fq12::rand(&mut rng)).collect()
}

fn snapshot(store: &Store) -> Vec<Option<Vec<u8>>> {
    SLOTS.iter().map(|name| store.get(&name.to_string())).collect()
}

fn step_by_step(store: &mut Store, expected: &Element, input: &[u8]) -> Result<(), StepError> {
    for (t, j) in final_schedule() {
        let bytes: &[u8] = if t == 2 { input } else { &[] };
        final_exponentiation_handler(
            store,
            expected,
            usize::from(t),
            usize::from(j),
            bytes,
            &phase_keys(t),
        )?;
    }
    Ok(())
}

#[test]
fn a_run_is_the_final_exponentiation_of_the_product() {
    let xs = sample(3);
    let expected = Bn254::final_exponentiation(&(xs[1] * xs[2])).unwrap();
    let mut store = Store::new();
    put_account_data(&mut store, "gamma".to_string(), &element(&xs[1]));
    put_account_data(&mut store, "delta".to_string(), &element(&xs[2]));
    let input = ark_bytes(&xs[0]);
    assert_eq!(run_final_exponentiation(&mut store, &element(&expected), &input), Ok(()));
    assert_eq!(
        run_final_exponentiation(&mut store, &element(&xs[0]), &input),
        Err(StepError::VerificationFailed)
    );
    let with_input = Bn254::final_exponentiation(&(xs[0] * xs[1] * xs[2])).unwrap();
    assert_eq!(
        run_final_exponentiation(&mut store, &element(&with_input), &input),
        Err(StepError::VerificationFailed)
    );
}

#[test]
fn a_run_leaves_what_the_steps_leave() {
    let xs = sample(3);
    let expected = element(&Bn254::final_exponentiation(&xs[1]).unwrap());
    for verdict in [&expected, &Element::one()] {
        let mut whole = Store::new();
        let mut stepped = Store::new();
        for store in [&mut whole, &mut stepped] {
            put_account_data(store, "gamma".to_string(), &element(&xs[1]));
            put_account_data(store, "y4".to_string(), &element(&xs[2]));
            put_account_data(store, "y0".to_string(), &element(&xs[0]));
            store.put("other".to_string(), vec![4, 5]);
        }
        let input = ark_bytes(&xs[0]);
        let a = run_final_exponentiation(&mut whole, verdict, &input);
        let b = step_by_step(&mut stepped, verdict, &input);
        assert_eq!(a, b);
        assert_eq!(snapshot(&whole), snapshot(&stepped));
        assert_eq!(whole.get(&"other".to_string()), Some(vec![4, 5]));
        assert_eq!(whole.get(&"delta".to_string()), None);
        assert_eq!(whole.get(&"gamma".to_string()), Some(ark_bytes(&xs[1])));
        assert!(snapshot(&whole)[2..].iter().all(|slot| slot.is_some()));
    }
    let mut store = Store::new();
    put_account_data(&mut store, "gamma".to_string(), &element(&xs[1]));
    assert_eq!(run_final_exponentiation(&mut store, &expected, &ark_bytes(&xs[0])), Ok(()));
}

#[test]
fn a_run_stops_at_a_running_slot_that_fails_to_decode() {
    let x = sample(1)[0];
    let input = Element::one().encode();
    // What was written when the run stopped, for each of the three slots.
    let cases = [("y0", 1usize), ("y4", 4), ("y6", 5)];
    for (name, written) in cases {
        let mut whole = Store::new();
        let mut stepped = Store::new();
        for store in [&mut whole, &mut stepped] {
            put_account_data(store, "gamma".to_string(), &element(&x));
            store.put(name.to_string(), vec![1, 2, 3]);
        }
        assert_eq!(
            run_final_exponentiation(&mut whole, &Element::one(), &input),
            Err(StepError::Decode)
        );
        assert_eq!(step_by_step(&mut stepped, &Element::one(), &input), Err(StepError::Decode));
        assert_eq!(snapshot(&whole), snapshot(&stepped));
        assert_eq!(whole.get(&name.to_string()), Some(vec![1, 2, 3]));
        let held = snapshot(&whole)[2..]
            .iter()
            .filter(|slot| slot.is_some() && **slot != Some(vec![1, 2, 3]))
            .count();
        assert_eq!(held, written);
    }
}

#[test]
fn a_run_on_malformed_input_writes_nothing() {
    let mut store = Store::new();
    store.put("y0".to_string(), vec![9]);
    let before = snapshot(&store);
    for input in [vec![], vec![0u8; 383], vec![0xffu8; 384]] {
        assert_eq!(
            run_final_exponentiation(&mut store, &Element::one(), &input),
            Err(StepError::Decode)
        );
        assert_eq!(snapshot(&store), before);
    }
}

#[test]
fn a_run_on_a_malformed_accumulator_writes_nothing() {
    for name in ["gamma", "delta"] {
        let mut store = Store::new();
        store.put(name.to_string(), vec![0u8; 10]);
        let before = snapshot(&store);
        let input = Element::one().encode();
        assert_eq!(
            run_final_exponentiation(&mut store, &Element::one(), &input),
            Err(StepError::Decode)
        );
        assert_eq!(snapshot(&store), before);
    }
}

#[test]
fn a_run_on_a_product_of_zero_stops_after_the_product() {
    let mut store = Store::new();
    put_account_data(&mut store, "delta".to_string(), &element(&Fq12::zero()));
    let input = ark_bytes(&sample(1)[0]);
    assert_eq!(
        run_final_exponentiation(&mut store, &Element::one(), &input),
        Err(StepError::NotInvertible)
    );
    assert_eq!(store.get(&"final".to_string()), Some(ark_bytes(&Fq12::zero())));
    assert_eq!(store.get(&"y0".to_string()), None);
}

#[test]
fn a_run_on_the_identity_is_accepted_against_the_identity() {
    let mut store = Store::new();
    let one = Element::one();
    assert_eq!(run_final_exponentiation(&mut store, &one, &one.encode()), Ok(()));
    for name in &SLOTS[2..] {
        assert_eq!(store.get(&name.to_string()), Some(one.encode()));
    }
}
