use ark_bn254::{Bn254, Fq12, Fr, G1Affine, G2Affine};
use ark_ec::bn::BnParameters;
use ark_ec::{AffineCurve, PairingEngine, ProjectiveCurve};
use ark_ff::{PrimeField, ToBytes};
use stepwise_pairing::error::StepError;
use stepwise_pairing::field::Element;
use stepwise_pairing::miller_loop::check_miller_step;
use stepwise_pairing::schedule::run_final_exponentiation;
use stepwise_pairing::store::Store;

fn ark_bytes(x: &Fq12) -> Vec<u8> {
    let mut out = Vec::new();
    x.write(&mut out).unwrap();
    out
}

fn g1(scalar: u64) -> G1Affine {
    G1Affine::prime_subgroup_generator().mul(Fr::from(scalar).into_repr()).into_affine()
}

fn g2(scalar: u64) -> G2Affine {
    G2Affine::prime_subgroup_generator().mul(Fr::from(scalar).into_repr()).into_affine()
}

/// Walks one Miller loop as a driver does, one call per position.
fn miller_loop_calls() -> Result<u8, StepError> {
    let digits = ark_bn254::Parameters::ATE_LOOP_COUNT;
    let mut j: u8 = 0;
    for i in (1..digits.len()).rev() {
        check_miller_step(i as u8, j)?;
        j += 1;
        if digits[i - 1] == 1 || digits[i - 1] == -1 {
            j += 1;
        }
    }
    check_miller_step(0, j)?;
    Ok(j)
}

#[test]
fn groth16_verify() {
    // A proof (a, b, c) for the relation e(a, b) = e(alpha, beta) * e(x, gamma) * e(c, delta),
    // with alpha = 2, beta = 3, gamma = 5, delta = 7, x = 11 and c = 13:
    // a * b = 6 + 55 + 91 = 152 = 8 * 19.
    let (proof_a, proof_b) = (g1(8), g2(19));
    let (prepared_input, gamma_neg) = (g1(11), -g2(5));
    let (proof_c, delta_neg) = (g1(13), -g2(7));
    let alpha_beta = Bn254::pairing(g1(2), g2(3));
    println!("run a circuit demo, get input and proof");

    // gamma miller loop
    println!("running gamma miller loop");
    assert_eq!(miller_loop_calls(), Ok(89));
    let gamma = Bn254::miller_loop(core::iter::once(&(prepared_input.into(), gamma_neg.into())));

    // delta miller loop
    println!("running delta miller loop");
    assert_eq!(miller_loop_calls(), Ok(89));
    let delta = Bn254::miller_loop(core::iter::once(&(proof_c.into(), delta_neg.into())));

    // final exponentiation
    let qap = Bn254::miller_loop(core::iter::once(&(proof_a.into(), proof_b.into())));
    let expected = Element::decode(&ark_bytes(&alpha_beta)).unwrap();
    let input = Element::one().encode();
    let mut store = Store::new();
    store.put("gamma".to_string(), ark_bytes(&(gamma * qap)));
    store.put("delta".to_string(), ark_bytes(&delta));
    assert_eq!(run_final_exponentiation(&mut store, &expected, &input), Ok(()));

    // The same proof with another c is rejected.
    let other = Bn254::miller_loop(core::iter::once(&(g1(14).into(), delta_neg.into())));
    let mut store = Store::new();
    store.put("gamma".to_string(), ark_bytes(&(gamma * qap)));
    store.put("delta".to_string(), ark_bytes(&other));
    assert_eq!(
        run_final_exponentiation(&mut store, &expected, &input),
        Err(StepError::VerificationFailed)
    );
}
