//! The final exponentiation, one bounded step per call.
//!
//! The exponentiation is cut into phases. Each phase reads the slots that the
//! caller names, computes one value and writes it to one slot; the terminal
//! phase compares instead of writing. A phase that is rejected leaves the
//! store as it was.

use vstd::prelude::*;
use crate::backend::{
    fq12_conjugate, fq12_cyclotomic_square, fq12_frobenius, fq12_inverse, fq12_mul, fq12_square,
};
use crate::error::StepError;
use crate::field::{decode_spec, identity, valid_coefficients, zero, Element};
use crate::store::{
    all_canonical, get_account_data, put_account_data, read_slot, write_slot, Store,
};

verus! {

/// Number of digits of the signed-digit form of the curve parameter.
pub const NAF_LEN: usize = 63;

const NAF: [i64; 63] = [
    1, 0, 0, 0, 1, 0, 1, 0, 0, -1, 0, 1, 0, 1, 0, -1, 0, 0, 1, 0, 1, 0, -1, 0, -1, 0, -1, 0, 1, 0,
    0, 0, 1, 0, 0, 1, 0, 1, 0, 1, 0, -1, 0, 1, 0, 0, 1, 0, 0, 0, 0, 1, 0, 1, 0, 0, 0, 0, -1, 0, 0,
    0, 1,
];

/// The non-adjacent form of the curve parameter, most significant digit
/// first.
pub open spec fn naf() -> Seq<int> {
    seq![
        1int, 0, 0, 0, 1, 0, 1, 0, 0, -1, 0, 1, 0, 1, 0, -1, 0, 0, 1, 0, 1, 0, -1, 0, -1, 0, -1, 0,
        1, 0, 0, 0, 1, 0, 0, 1, 0, 1, 0, 1, 0, -1, 0, 1, 0, 0, 1, 0, 0, 0, 0, 1, 0, 1, 0, 0, 0, 0,
        -1, 0, 0, 0, 1,
    ]
}

/// Digit `j` of the non-adjacent form.
pub fn naf_digit(j: usize) -> (d: i64)
    requires
        j < 63,
    ensures
        d == naf()[j as int],
{
    NAF[j]
}

/// The names that a list of keys spells.
pub open spec fn names(keys: Seq<String>) -> Seq<Seq<char>> {
    Seq::new(keys.len(), |i: int| keys[i]@)
}

/// One digit of the exponentiation: the running value is squared (not at the
/// first digit), then multiplied by the base for a digit `+1`, by the base's
/// stand-in inverse for `-1`, and left alone for `0`.
pub open spec fn exp_by_neg_x_spec(
    fe: Seq<nat>,
    self_inverse: Seq<nat>,
    res: Seq<nat>,
    j: nat,
) -> Seq<nat> {
    let squared = if j > 0 {
        fq12_square(res)
    } else {
        res
    };
    if naf()[j as int] > 0 {
        fq12_mul(squared, fe)
    } else if naf()[j as int] < 0 {
        fq12_mul(squared, self_inverse)
    } else {
        squared
    }
}

/// The running value that digit `j` of a sub-exponentiation works on: the
/// identity at the first digit, and from then on what the slot of the running
/// value holds.
pub open spec fn running_value(held: Seq<nat>, j: nat) -> Seq<nat> {
    if j == 0 {
        identity()
    } else {
        held
    }
}

/// One digit of a sub-exponentiation seeded from `base`, where the slot of
/// the running value holds `held`: the step on the running value, with the
/// conjugation that closes the run at the last digit.
pub open spec fn sub_exponentiation_value(base: Seq<nat>, held: Seq<nat>, j: nat) -> Seq<nat> {
    let stepped = exp_by_neg_x_spec(base, fq12_conjugate(base), running_value(held, j), j);
    if j == 62 {
        fq12_conjugate(stepped)
    } else {
        stepped
    }
}

/// Two slots read one after the other; the first failure wins.
pub open spec fn read2(store: Map<Seq<char>, Seq<u8>>, a: Seq<char>, b: Seq<char>) -> Result<
    (Seq<nat>, Seq<nat>),
    StepError,
> {
    match read_slot(store, a) {
        Err(e) => Err(e),
        Ok(x) => match read_slot(store, b) {
            Err(e) => Err(e),
            Ok(y) => Ok((x, y)),
        },
    }
}

/// Three slots read one after the other; the first failure wins.
pub open spec fn read3(
    store: Map<Seq<char>, Seq<u8>>,
    a: Seq<char>,
    b: Seq<char>,
    c: Seq<char>,
) -> Result<(Seq<nat>, Seq<nat>, Seq<nat>), StepError> {
    match read2(store, a, b) {
        Err(e) => Err(e),
        Ok((x, y)) => match read_slot(store, c) {
            Err(e) => Err(e),
            Ok(z) => Ok((x, y, z)),
        },
    }
}

/// The number of slot names that phase `t` takes, and `0` for a number that
/// is no phase.
pub open spec fn keys_needed(t: nat) -> nat {
    if t == 10 || t == 12 {
        4
    } else if t == 2 || t == 11 || 13 <= t <= 15 {
        3
    } else if t == 3 || t == 4 {
        1
    } else if 5 <= t <= 9 || t == 16 {
        2
    } else {
        0
    }
}

/// The position, in its list of slot names, of the slot that phase `t`
/// writes. The terminal phase writes none, and nothing reads its position.
pub open spec fn output_index(t: nat) -> int {
    if t == 3 || t == 4 {
        0
    } else if 5 <= t <= 9 {
        1
    } else if t == 10 || t == 12 {
        3
    } else {
        2
    }
}

/// The value that phase `t` computes from the store, or why it is rejected.
///
/// `t` runs from 2 (prepare) to 16 (terminal); any other number is rejected,
/// as is a list of names too short for the phase and, in the three phases
/// that run a sub-exponentiation, a digit index of 63 or more. A phase is
/// rejected as well where its input or one of the slots it takes in fails to
/// decode; the slot of a running value is one of them at every digit.
pub open spec fn phase_value(
    store: Map<Seq<char>, Seq<u8>>,
    t: nat,
    j: nat,
    input: Seq<u8>,
    keys: Seq<Seq<char>>,
) -> Result<Seq<nat>, StepError> {
    if t < 2 || t > 16 || keys.len() < keys_needed(t) {
        Err(StepError::InvalidStep)
    } else if t == 2 {
        match decode_spec(input) {
            Err(e) => Err(e),
            Ok(_) => match read2(store, keys[0], keys[1]) {
                Err(e) => Err(e),
                Ok((gamma, delta)) => Ok(fq12_mul(gamma, delta)),
            },
        }
    } else if t == 3 {
        match read_slot(store, keys[0]) {
            Err(e) => Err(e),
            Ok(f) => match fq12_inverse(f) {
                None => Err(StepError::NotInvertible),
                Some(inverse) => Ok(fq12_mul(fq12_conjugate(f), inverse)),
            },
        }
    } else if t == 4 {
        match read_slot(store, keys[0]) {
            Err(e) => Err(e),
            Ok(f) => Ok(fq12_mul(fq12_frobenius(f, 2), f)),
        }
    } else if t == 5 || t == 8 || t == 9 {
        if j >= 63 {
            Err(StepError::InvalidStep)
        } else {
            match read2(store, keys[0], keys[1]) {
                Err(e) => Err(e),
                Ok((seed, held)) => Ok(
                    sub_exponentiation_value(
                        if t == 9 {
                            fq12_cyclotomic_square(seed)
                        } else {
                            seed
                        },
                        held,
                        j,
                    ),
                ),
            }
        }
    } else if t == 6 {
        match read_slot(store, keys[0]) {
            Err(e) => Err(e),
            Ok(y0) => Ok(fq12_cyclotomic_square(y0)),
        }
    } else if t == 7 {
        match read_slot(store, keys[0]) {
            Err(e) => Err(e),
            Ok(y0) => Ok(
                fq12_mul(
                    fq12_cyclotomic_square(fq12_cyclotomic_square(y0)),
                    fq12_cyclotomic_square(y0),
                ),
            ),
        }
    } else if t == 10 {
        match read3(store, keys[0], keys[1], keys[2]) {
            Err(e) => Err(e),
            Ok((y3, y4, y6)) => Ok(fq12_mul(fq12_mul(fq12_conjugate(y6), y4), fq12_conjugate(y3))),
        }
    } else if t == 11 {
        match read2(store, keys[0], keys[1]) {
            Err(e) => Err(e),
            Ok((y1, y8)) => Ok(fq12_mul(y8, y1)),
        }
    } else if t == 12 {
        match read3(store, keys[0], keys[1], keys[2]) {
            Err(e) => Err(e),
            Ok((y4, y8, r)) => Ok(fq12_mul(fq12_mul(y8, y4), r)),
        }
    } else if t == 13 {
        match read2(store, keys[0], keys[1]) {
            Err(e) => Err(e),
            Ok((y9, y11)) => Ok(fq12_mul(fq12_frobenius(y9, 1), y11)),
        }
    } else if t == 14 {
        match read2(store, keys[0], keys[1]) {
            Err(e) => Err(e),
            Ok((y8, y13)) => Ok(fq12_mul(fq12_frobenius(y8, 2), y13)),
        }
    } else if t == 15 {
        match read2(store, keys[1], keys[0]) {
            Err(e) => Err(e),
            Ok((r, y9)) => Ok(fq12_frobenius(fq12_mul(fq12_conjugate(r), y9), 3)),
        }
    } else {
        match read2(store, keys[0], keys[1]) {
            Err(e) => Err(e),
            Ok((y14, y15)) => Ok(fq12_mul(y15, y14)),
        }
    }
}

/// The store that phase `t` leaves behind, or why the step is rejected.
///
/// Phases 2 to 15 write their value to their output slot. The terminal phase
/// writes nothing: it succeeds where its value equals `expected` and fails
/// verification where it does not.
pub open spec fn step_spec(
    store: Map<Seq<char>, Seq<u8>>,
    expected: Seq<nat>,
    t: nat,
    j: nat,
    input: Seq<u8>,
    keys: Seq<Seq<char>>,
) -> Result<Map<Seq<char>, Seq<u8>>, StepError> {
    match phase_value(store, t, j, input, keys) {
        Err(e) => Err(e),
        Ok(value) => if t == 16 {
            if value == expected {
                Ok(store)
            } else {
                Err(StepError::VerificationFailed)
            }
        } else {
            Ok(write_slot(store, keys[output_index(t)], value))
        },
    }
}

/// What a step that writes does: where `value` is a value, it is an element
/// and `after` is the store with it written under `key`; where it is a
/// rejection, the step reports it and the store is untouched.
pub open spec fn persisted(
    r: Result<(), StepError>,
    before: Map<Seq<char>, Seq<u8>>,
    after: Map<Seq<char>, Seq<u8>>,
    key: Seq<char>,
    value: Result<Seq<nat>, StepError>,
) -> bool {
    match value {
        Ok(c) => r is Ok && valid_coefficients(c) && after == write_slot(before, key, c),
        Err(e) => r == Err::<(), StepError>(e) && after == before,
    }
}

/// What a call of the engine does: the step is accepted and `after` is the
/// store that the model gives, or it is rejected with the model's error and
/// the store is untouched.
pub open spec fn outcome(
    r: Result<(), StepError>,
    before: Map<Seq<char>, Seq<u8>>,
    after: Map<Seq<char>, Seq<u8>>,
    model: Result<Map<Seq<char>, Seq<u8>>, StepError>,
) -> bool {
    match model {
        Ok(store) => r is Ok && after == store,
        Err(e) => r == Err::<(), StepError>(e) && after == before,
    }
}

/// One digit of the exponentiation by the curve parameter.
pub fn exp_by_neg_x(fe: &Element, self_inverse: &Element, res: Element, j: usize) -> (out: Element)
    requires
        j < 63,
    ensures
        out.wf(),
        out@ == exp_by_neg_x_spec(fe@, self_inverse@, res@, j as nat),
{
    let value: i64 = naf_digit(j);
    let squared = if j > 0 {
        res.square()
    } else {
        res
    };
    if value != 0 {
        if value > 0 {
            squared.mul(fe)
        } else {
            squared.mul(self_inverse)
        }
    } else {
        proof {
            use_type_invariant(&squared);
        }
        squared
    }
}

/// Reads the slot that name `i` of `keys` addresses.
fn load(store: &Store, keys: &[String], i: usize) -> (r: Result<Element, StepError>)
    requires
        i < keys@.len(),
    ensures
        crate::field::holds(r, read_slot(store@, names(keys@)[i as int])),
{
    get_account_data(store, keys[i].clone(), 0)
}

/// Writes `value` to the slot that name `i` of `keys` addresses.
fn save(store: &mut Store, keys: &[String], i: usize, value: &Element)
    requires
        i < keys@.len(),
    ensures
        final(store)@ == write_slot(old(store)@, names(keys@)[i as int], value@),
        valid_coefficients(value@),
{
    proof {
        use_type_invariant(value);
        value.lemma_valid();
    }
    put_account_data(store, keys[i].clone(), value);
}

/// Reads the slots that two names of `keys` address, in the order given.
fn load2(store: &Store, keys: &[String], a: usize, b: usize) -> (r: Result<
    (Element, Element),
    StepError,
>)
    requires
        a < keys@.len(),
        b < keys@.len(),
    ensures
        match r {
            Ok((x, y)) => x.wf() && y.wf() && read2(
                store@,
                names(keys@)[a as int],
                names(keys@)[b as int],
            ) == Ok::<(Seq<nat>, Seq<nat>), StepError>((x@, y@)),
            Err(e) => read2(store@, names(keys@)[a as int], names(keys@)[b as int]) == Err::<
                (Seq<nat>, Seq<nat>),
                StepError,
            >(e),
        },
{
    let x = match load(store, keys, a) {
        Ok(x) => x,
        Err(e) => {
            return Err(e);
        },
    };
    let y = match load(store, keys, b) {
        Ok(y) => y,
        Err(e) => {
            return Err(e);
        },
    };
    Ok((x, y))
}

/// Reads the slots that the first three names of `keys` address, in order.
fn load3(store: &Store, keys: &[String]) -> (r: Result<(Element, Element, Element), StepError>)
    requires
        3 <= keys@.len(),
    ensures
        match r {
            Ok((x, y, z)) => x.wf() && y.wf() && z.wf() && read3(
                store@,
                names(keys@)[0],
                names(keys@)[1],
                names(keys@)[2],
            ) == Ok::<(Seq<nat>, Seq<nat>, Seq<nat>), StepError>((x@, y@, z@)),
            Err(e) => read3(store@, names(keys@)[0], names(keys@)[1], names(keys@)[2]) == Err::<
                (Seq<nat>, Seq<nat>, Seq<nat>),
                StepError,
            >(e),
        },
{
    let (x, y) = match load2(store, keys, 0, 1) {
        Ok(pair) => pair,
        Err(e) => {
            return Err(e);
        },
    };
    let z = match load(store, keys, 2) {
        Ok(z) => z,
        Err(e) => {
            return Err(e);
        },
    };
    Ok((x, y, z))
}

/// Phase 2: the product of the two completed Miller-loop accumulators,
/// written to the combined slot.
///
/// `keys` names the gamma accumulator, the delta accumulator and the combined
/// slot. The input must be the encoding of an element; it is held to that and
/// takes no part in the product.
pub fn prepare_final_data(store: &mut Store, keys: &[String], input: &[u8]) -> (r: Result<
    (),
    StepError,
>)
    ensures
        persisted(
            r,
            old(store)@,
            final(store)@,
            names(keys@)[2],
            phase_value(old(store)@, 2, 0, input@, names(keys@)),
        ),
{
    if keys.len() < 3 {
        return Err(StepError::InvalidStep);
    }
    match Element::decode(input) {
        Ok(_) => {},
        Err(e) => {
            return Err(e);
        },
    }
    let (gamma, delta) = match load2(store, keys, 0, 1) {
        Ok(pair) => pair,
        Err(e) => {
            return Err(e);
        },
    };
    let combined = gamma.mul(&delta);
    save(store, keys, 2, &combined);
    Ok(())
}

/// Phase 3, the first half of the easy part: the combined value `f` becomes
/// `conjugate(f) * inverse(f)`.
///
/// `keys` names the combined slot. A combined value of zero has no inverse
/// and is rejected; every other one is accepted.
pub fn easy_part1(store: &mut Store, keys: &[String]) -> (r: Result<(), StepError>)
    ensures
        persisted(
            r,
            old(store)@,
            final(store)@,
            names(keys@)[0],
            phase_value(old(store)@, 3, 0, Seq::empty(), names(keys@)),
        ),
        keys@.len() >= 1 && read_slot(old(store)@, names(keys@)[0]) is Ok ==> (r
            == Err::<(), StepError>(StepError::NotInvertible)) == (read_slot(
            old(store)@,
            names(keys@)[0],
        ) == Ok::<Seq<nat>, StepError>(zero())),
{
    if keys.len() < 1 {
        return Err(StepError::InvalidStep);
    }
    let f = match load(store, keys, 0) {
        Ok(f) => f,
        Err(e) => {
            return Err(e);
        },
    };
    let f1 = f.conjugate();
    let f2 = match f.inverse() {
        Some(f2) => f2,
        None => {
            return Err(StepError::NotInvertible);
        },
    };
    let out = f1.mul(&f2);
    save(store, keys, 0, &out);
    Ok(())
}

/// Phase 4, the second half of the easy part: the combined value `f` becomes
/// `frobenius^2(f) * f`.
///
/// `keys` names the combined slot.
pub fn easy_part2(store: &mut Store, keys: &[String]) -> (r: Result<(), StepError>)
    ensures
        persisted(
            r,
            old(store)@,
            final(store)@,
            names(keys@)[0],
            phase_value(old(store)@, 4, 0, Seq::empty(), names(keys@)),
        ),
{
    if keys.len() < 1 {
        return Err(StepError::InvalidStep);
    }
    let f2 = match load(store, keys, 0) {
        Ok(f) => f,
        Err(e) => {
            return Err(e);
        },
    };
    let out = f2.frobenius_map(2).mul(&f2);
    save(store, keys, 0, &out);
    Ok(())
}

/// One digit of a sub-exponentiation seeded from `seed`, on the running value
/// in the slot that name 1 of `keys` addresses. The slot is read at every
/// digit, and at the first digit the run starts from the identity in place of
/// what the slot holds.
fn sub_exponentiation_step(store: &mut Store, keys: &[String], seed: &Element, j: usize) -> (r:
    Result<(), StepError>)
    requires
        2 <= keys@.len(),
        j < 63,
        seed.wf(),
    ensures
        persisted(
            r,
            old(store)@,
            final(store)@,
            names(keys@)[1],
            match read_slot(old(store)@, names(keys@)[1]) {
                Err(e) => Err(e),
                Ok(held) => Ok(sub_exponentiation_value(seed@, held, j as nat)),
            },
        ),
{
    let held = match get_account_data(store, keys[1].clone(), j) {
        Ok(held) => held,
        Err(e) => {
            return Err(e);
        },
    };
    let acc = if j == 0 {
        Element::one()
    } else {
        held
    };
    let inverse = seed.conjugate();
    let stepped = exp_by_neg_x(seed, &inverse, acc, j);
    let out = if j == 62 {
        stepped.conjugate()
    } else {
        stepped
    };
    save(store, keys, 1, &out);
    Ok(())
}

/// Phase 5: digit `j` of the sub-exponentiation of the combined value, on the
/// running value `y0`.
///
/// `keys` names the combined slot and the slot of `y0`. At `j == 0` the run
/// starts from the identity; what the slot of `y0` holds must decode all the
/// same.
pub fn hard_part_y0(store: &mut Store, keys: &[String], j: usize) -> (r: Result<(), StepError>)
    ensures
        persisted(
            r,
            old(store)@,
            final(store)@,
            names(keys@)[1],
            phase_value(old(store)@, 5, j as nat, Seq::empty(), names(keys@)),
        ),
{
    if keys.len() < 2 || j >= NAF_LEN {
        return Err(StepError::InvalidStep);
    }
    let seed = match load(store, keys, 0) {
        Ok(seed) => seed,
        Err(e) => {
            return Err(e);
        },
    };
    sub_exponentiation_step(store, keys, &seed, j)
}

/// Phase 6: `y1`, the cyclotomic square of `y0`.
///
/// `keys` names the slots of `y0` and `y1`.
pub fn hard_part_y1(store: &mut Store, keys: &[String]) -> (r: Result<(), StepError>)
    ensures
        persisted(
            r,
            old(store)@,
            final(store)@,
            names(keys@)[1],
            phase_value(old(store)@, 6, 0, Seq::empty(), names(keys@)),
        ),
{
    if keys.len() < 2 {
        return Err(StepError::InvalidStep);
    }
    let y0 = match load(store, keys, 0) {
        Ok(y0) => y0,
        Err(e) => {
            return Err(e);
        },
    };
    let y1 = y0.cyclotomic_square();
    save(store, keys, 1, &y1);
    Ok(())
}

/// `square(square(f)) * square(f)` with the cyclotomic square.
pub fn cal_y3(f: &Element) -> (y3: Element)
    ensures
        y3.wf(),
        y3@ == fq12_mul(
            fq12_cyclotomic_square(fq12_cyclotomic_square(f@)),
            fq12_cyclotomic_square(f@),
        ),
{
    let y1 = f.cyclotomic_square();
    let y2 = y1.cyclotomic_square();
    y2.mul(&y1)
}

/// Phase 7: `y3`, computed from `y0` as `square(square(y0)) * square(y0)`.
///
/// `keys` names the slots of `y0` and `y3`.
pub fn hard_part_y3(store: &mut Store, keys: &[String]) -> (r: Result<(), StepError>)
    ensures
        persisted(
            r,
            old(store)@,
            final(store)@,
            names(keys@)[1],
            phase_value(old(store)@, 7, 0, Seq::empty(), names(keys@)),
        ),
{
    if keys.len() < 2 {
        return Err(StepError::InvalidStep);
    }
    let y0 = match load(store, keys, 0) {
        Ok(y0) => y0,
        Err(e) => {
            return Err(e);
        },
    };
    let y3 = cal_y3(&y0);
    save(store, keys, 1, &y3);
    Ok(())
}

/// Phase 8: digit `j` of the sub-exponentiation of `y3`, on the running
/// value `y4`.
///
/// `keys` names the slots of `y3` and `y4`.
pub fn hard_part_y4(store: &mut Store, keys: &[String], j: usize) -> (r: Result<(), StepError>)
    ensures
        persisted(
            r,
            old(store)@,
            final(store)@,
            names(keys@)[1],
            phase_value(old(store)@, 8, j as nat, Seq::empty(), names(keys@)),
        ),
{
    if keys.len() < 2 || j >= NAF_LEN {
        return Err(StepError::InvalidStep);
    }
    let seed = match load(store, keys, 0) {
        Ok(seed) => seed,
        Err(e) => {
            return Err(e);
        },
    };
    sub_exponentiation_step(store, keys, &seed, j)
}

/// Phase 9: digit `j` of the sub-exponentiation of the cyclotomic square of
/// `y4`, on the running value `y6`.
///
/// `keys` names the slots of `y4` and `y6`.
pub fn hard_part_y6(store: &mut Store, keys: &[String], j: usize) -> (r: Result<(), StepError>)
    ensures
        persisted(
            r,
            old(store)@,
            final(store)@,
            names(keys@)[1],
            phase_value(old(store)@, 9, j as nat, Seq::empty(), names(keys@)),
        ),
{
    if keys.len() < 2 || j >= NAF_LEN {
        return Err(StepError::InvalidStep);
    }
    let y4 = match load(store, keys, 0) {
        Ok(y4) => y4,
        Err(e) => {
            return Err(e);
        },
    };
    let y5 = y4.cyclotomic_square();
    sub_exponentiation_step(store, keys, &y5, j)
}

/// Phase 10: `y8 = conjugate(y6) * y4 * conjugate(y3)`.
///
/// `keys` names the slots of `y3`, `y4`, `y6` and `y8`.
pub fn hard_part_y8(store: &mut Store, keys: &[String]) -> (r: Result<(), StepError>)
    ensures
        persisted(
            r,
            old(store)@,
            final(store)@,
            names(keys@)[3],
            phase_value(old(store)@, 10, 0, Seq::empty(), names(keys@)),
        ),
{
    if keys.len() < 4 {
        return Err(StepError::InvalidStep);
    }
    let (y3, y4, y6) = match load3(store, keys) {
        Ok(triple) => triple,
        Err(e) => {
            return Err(e);
        },
    };
    let y7 = y6.conjugate().mul(&y4);
    let y8 = y7.mul(&y3.conjugate());
    save(store, keys, 3, &y8);
    Ok(())
}

/// Phase 11: `y9 = y8 * y1`.
///
/// `keys` names the slots of `y1`, `y8` and `y9`.
pub fn hard_part_y9(store: &mut Store, keys: &[String]) -> (r: Result<(), StepError>)
    ensures
        persisted(
            r,
            old(store)@,
            final(store)@,
            names(keys@)[2],
            phase_value(old(store)@, 11, 0, Seq::empty(), names(keys@)),
        ),
{
    if keys.len() < 3 {
        return Err(StepError::InvalidStep);
    }
    let (y1, y8) = match load2(store, keys, 0, 1) {
        Ok(pair) => pair,
        Err(e) => {
            return Err(e);
        },
    };
    let y9 = y8.mul(&y1);
    save(store, keys, 2, &y9);
    Ok(())
}

/// Phase 12: `y11 = y8 * y4 * combined`.
///
/// `keys` names the slots of `y4` and `y8`, the combined slot and the slot of
/// `y11`.
pub fn hard_part_y11(store: &mut Store, keys: &[String]) -> (r: Result<(), StepError>)
    ensures
        persisted(
            r,
            old(store)@,
            final(store)@,
            names(keys@)[3],
            phase_value(old(store)@, 12, 0, Seq::empty(), names(keys@)),
        ),
{
    if keys.len() < 4 {
        return Err(StepError::InvalidStep);
    }
    let (y4, y8, combined) = match load3(store, keys) {
        Ok(triple) => triple,
        Err(e) => {
            return Err(e);
        },
    };
    let y11 = y8.mul(&y4).mul(&combined);
    save(store, keys, 3, &y11);
    Ok(())
}

/// Phase 13: `y13 = frobenius(y9) * y11`.
///
/// `keys` names the slots of `y9`, `y11` and `y13`.
pub fn hard_part_y13(store: &mut Store, keys: &[String]) -> (r: Result<(), StepError>)
    ensures
        persisted(
            r,
            old(store)@,
            final(store)@,
            names(keys@)[2],
            phase_value(old(store)@, 13, 0, Seq::empty(), names(keys@)),
        ),
{
    if keys.len() < 3 {
        return Err(StepError::InvalidStep);
    }
    let (y9, y11) = match load2(store, keys, 0, 1) {
        Ok(pair) => pair,
        Err(e) => {
            return Err(e);
        },
    };
    let y13 = y9.frobenius_map(1).mul(&y11);
    save(store, keys, 2, &y13);
    Ok(())
}

/// Phase 14: `y14 = frobenius^2(y8) * y13`.
///
/// `keys` names the slots of `y8`, `y13` and `y14`.
pub fn hard_part_y14(store: &mut Store, keys: &[String]) -> (r: Result<(), StepError>)
    ensures
        persisted(
            r,
            old(store)@,
            final(store)@,
            names(keys@)[2],
            phase_value(old(store)@, 14, 0, Seq::empty(), names(keys@)),
        ),
{
    if keys.len() < 3 {
        return Err(StepError::InvalidStep);
    }
    let (y8, y13) = match load2(store, keys, 0, 1) {
        Ok(pair) => pair,
        Err(e) => {
            return Err(e);
        },
    };
    let y14 = y8.frobenius_map(2).mul(&y13);
    save(store, keys, 2, &y14);
    Ok(())
}

/// Phase 15: `y15 = frobenius^3(conjugate(combined) * y9)`.
///
/// `keys` names the slot of `y9`, the combined slot and the slot of `y15`.
pub fn hard_part_y15(store: &mut Store, keys: &[String]) -> (r: Result<(), StepError>)
    ensures
        persisted(
            r,
            old(store)@,
            final(store)@,
            names(keys@)[2],
            phase_value(old(store)@, 15, 0, Seq::empty(), names(keys@)),
        ),
{
    if keys.len() < 3 {
        return Err(StepError::InvalidStep);
    }
    let (combined, y9) = match load2(store, keys, 1, 0) {
        Ok(pair) => pair,
        Err(e) => {
            return Err(e);
        },
    };
    let y15 = combined.conjugate().mul(&y9).frobenius_map(3);
    save(store, keys, 2, &y15);
    Ok(())
}

/// What the terminal phase answers for a value: accepted where it equals
/// `expected`, failed verification where it does not, and a rejection passed
/// on.
pub open spec fn verdict(value: Result<Seq<nat>, StepError>, expected: Seq<nat>) -> Result<
    (),
    StepError,
> {
    match value {
        Err(e) => Err(e),
        Ok(v) => if v == expected {
            Ok(())
        } else {
            Err(StepError::VerificationFailed)
        },
    }
}

/// Phase 16, the terminal phase: `y15 * y14` is compared with the pairing of
/// the verification key. It writes nothing.
///
/// `keys` names the slots of `y14` and `y15`.
pub fn hard_part_y16(store: &Store, expected: &Element, keys: &[String]) -> (r: Result<
    (),
    StepError,
>)
    ensures
        r == verdict(phase_value(store@, 16, 0, Seq::empty(), names(keys@)), expected@),
{
    if keys.len() < 2 {
        return Err(StepError::InvalidStep);
    }
    let (y14, y15) = match load2(store, keys, 0, 1) {
        Ok(pair) => pair,
        Err(e) => {
            return Err(e);
        },
    };
    let y16 = y15.mul(&y14);
    if y16.equals(expected) {
        Ok(())
    } else {
        Err(StepError::VerificationFailed)
    }
}

/// The position, in its list of slot names, of the slot that phase `t`
/// writes; `None` for the terminal phase and for a number that is no phase.
pub fn phase_output(t: usize) -> (position: Option<usize>)
    ensures
        position == (if 2 <= t <= 15 {
            Some(output_index(t as nat) as usize)
        } else {
            None
        }),
{
    match t {
        3 | 4 => Some(0),
        5 | 6 | 7 | 8 | 9 => Some(1),
        10 | 12 => Some(3),
        2 | 11 | 13 | 14 | 15 => Some(2),
        _ => None,
    }
}

/// Runs phase `t` of the final exponentiation.
///
/// `t` selects the phase, from 2 (prepare) to 16 (terminal). `j` is the digit
/// index of the three phases that run a sub-exponentiation and is not looked
/// at by the others, as `input` is looked at by the prepare phase alone, which
/// holds it to be the encoding of an element.
/// `keys` names the slots of the phase, in its order. `expected` is the
/// pairing of the verification key, which the terminal phase compares with.
///
/// A number that is no phase is rejected as an invalid step. After a step
/// that was accepted, the slot it wrote reads as the value it computed.
pub fn final_exponentiation_handler(
    store: &mut Store,
    expected: &Element,
    t: usize,
    j: usize,
    input: &[u8],
    keys: &[String],
) -> (r: Result<(), StepError>)
    ensures
        outcome(
            r,
            old(store)@,
            final(store)@,
            step_spec(old(store)@, expected@, t as nat, j as nat, input@, names(keys@)),
        ),
        r is Ok && t != 16 ==> read_slot(final(store)@, names(keys@)[output_index(t as nat)])
            == phase_value(old(store)@, t as nat, j as nat, input@, names(keys@)),
        all_canonical(old(store)@) ==> all_canonical(final(store)@),
        t == 3 && keys@.len() >= 1 && read_slot(old(store)@, names(keys@)[0]) is Ok ==> (r
            == Err::<(), StepError>(StepError::NotInvertible)) == (read_slot(
            old(store)@,
            names(keys@)[0],
        ) == Ok::<Seq<nat>, StepError>(zero())),
{
    proof {
        if phase_value(old(store)@, t as nat, j as nat, input@, names(keys@)) is Ok && t != 16 {
            let value = phase_value(old(store)@, t as nat, j as nat, input@, names(keys@)).unwrap();
            lemma_write_keeps_slots_canonical(
                old(store)@,
                names(keys@)[output_index(t as nat)],
                value,
            );
            if valid_coefficients(value) {
                crate::field::lemma_decode_encode(value);
            }
        }
    }
    match t {
        2 => prepare_final_data(store, keys, input),
        3 => easy_part1(store, keys),
        4 => easy_part2(store, keys),
        5 => hard_part_y0(store, keys, j),
        6 => hard_part_y1(store, keys),
        7 => hard_part_y3(store, keys),
        8 => hard_part_y4(store, keys, j),
        9 => hard_part_y6(store, keys, j),
        10 => hard_part_y8(store, keys),
        11 => hard_part_y9(store, keys),
        12 => hard_part_y11(store, keys),
        13 => hard_part_y13(store, keys),
        14 => hard_part_y14(store, keys),
        15 => hard_part_y15(store, keys),
        16 => hard_part_y16(store, expected, keys),
        _ => Err(StepError::InvalidStep),
    }
}

/// The slots that phase `t` reads at digit `j`: none where the call is
/// rejected as an invalid step.
pub open spec fn reads(t: nat, j: nat, keys: Seq<Seq<char>>) -> Set<Seq<char>> {
    if t < 2 || t > 16 || keys.len() < keys_needed(t) {
        Set::empty()
    } else if t == 3 || t == 4 || t == 6 || t == 7 {
        set![keys[0]]
    } else if t == 5 || t == 8 || t == 9 {
        if j >= 63 {
            Set::empty()
        } else {
            set![keys[0], keys[1]]
        }
    } else if t == 10 || t == 12 {
        set![keys[0], keys[1], keys[2]]
    } else {
        set![keys[0], keys[1]]
    }
}

/// Two stores hold the same under `key`: both nothing, or both the same
/// bytes.
pub open spec fn same_slot(
    a: Map<Seq<char>, Seq<u8>>,
    b: Map<Seq<char>, Seq<u8>>,
    key: Seq<char>,
) -> bool {
    a.contains_key(key) == b.contains_key(key) && (a.contains_key(key) ==> a[key] == b[key])
}

/// A step is a function of its arguments and of the slots it reads: on
/// stores that agree on those slots it computes the same value or is rejected
/// for the same reason, and where it writes, it writes the same bytes.
pub proof fn lemma_step_depends_on_reads(
    a: Map<Seq<char>, Seq<u8>>,
    b: Map<Seq<char>, Seq<u8>>,
    expected: Seq<nat>,
    t: nat,
    j: nat,
    input: Seq<u8>,
    keys: Seq<Seq<char>>,
)
    requires
        forall|key: Seq<char>| #[trigger] reads(t, j, keys).contains(key) ==> same_slot(a, b, key),
    ensures
        phase_value(a, t, j, input, keys) == phase_value(b, t, j, input, keys),
        step_spec(a, expected, t, j, input, keys) is Ok == step_spec(
            b,
            expected,
            t,
            j,
            input,
            keys,
        ) is Ok,
        step_spec(a, expected, t, j, input, keys) is Err ==> step_spec(
            a,
            expected,
            t,
            j,
            input,
            keys,
        ) == step_spec(b, expected, t, j, input, keys),
        step_spec(a, expected, t, j, input, keys) is Ok && t != 16 ==> step_spec(
            a,
            expected,
            t,
            j,
            input,
            keys,
        ).unwrap()[keys[output_index(t)]] == step_spec(
            b,
            expected,
            t,
            j,
            input,
            keys,
        ).unwrap()[keys[output_index(t)]],
{
    if !(t < 2 || t > 16 || keys.len() < keys_needed(t)) && !((t == 5 || t == 8 || t == 9) && j
        >= 63) {
        assert(reads(t, j, keys).contains(keys[0]));
        assert(same_slot(a, b, keys[0]));
        if !(t == 3 || t == 4 || t == 6 || t == 7) {
            assert(reads(t, j, keys).contains(keys[1]));
            assert(same_slot(a, b, keys[1]));
            if !(t == 5 || t == 8 || t == 9) {
                if t == 10 || t == 12 {
                    assert(reads(t, j, keys).contains(keys[2]));
                    assert(same_slot(a, b, keys[2]));
                }
            }
        }
    }
}

/// Idempotence: a step that was accepted, called again with the same
/// arguments while the slots it reads are as they were, is accepted again and
/// leaves the store as the first call left it. The slots it reads are as they
/// were where the step does not write to one of them.
pub proof fn lemma_step_idempotent(
    store: Map<Seq<char>, Seq<u8>>,
    expected: Seq<nat>,
    t: nat,
    j: nat,
    input: Seq<u8>,
    keys: Seq<Seq<char>>,
)
    requires
        step_spec(store, expected, t, j, input, keys) is Ok,
        t != 16 ==> !reads(t, j, keys).contains(keys[output_index(t)]),
    ensures
        step_spec(step_spec(store, expected, t, j, input, keys).unwrap(), expected, t, j, input, keys)
            == step_spec(store, expected, t, j, input, keys),
{
    let after = step_spec(store, expected, t, j, input, keys).unwrap();
    if t != 16 {
        let value = phase_value(store, t, j, input, keys).unwrap();
        let out = keys[output_index(t)];
        assert(after == write_slot(store, out, value));
        assert forall|key: Seq<char>| #[trigger]
            reads(t, j, keys).contains(key) implies same_slot(store, after, key) by {
            assert(key != out);
        }
        lemma_step_depends_on_reads(store, after, expected, t, j, input, keys);
        assert(write_slot(after, out, value) =~= after);
    }
}

/// Idempotence of the first digit of a sub-exponentiation: it starts from the
/// identity whatever its running slot holds, so a first digit that was
/// accepted and wrote an element, called again with the same arguments, is
/// accepted again and leaves the store as the first call left it.
pub proof fn lemma_first_digit_idempotent(
    store: Map<Seq<char>, Seq<u8>>,
    expected: Seq<nat>,
    t: nat,
    input: Seq<u8>,
    keys: Seq<Seq<char>>,
)
    requires
        t == 5 || t == 8 || t == 9,
        keys[0] != keys[1],
        step_spec(store, expected, t, 0, input, keys) is Ok,
        valid_coefficients(phase_value(store, t, 0, input, keys).unwrap()),
    ensures
        step_spec(step_spec(store, expected, t, 0, input, keys).unwrap(), expected, t, 0, input, keys)
            == step_spec(store, expected, t, 0, input, keys),
{
    let value = phase_value(store, t, 0, input, keys).unwrap();
    let after = step_spec(store, expected, t, 0, input, keys).unwrap();
    assert(after == write_slot(store, keys[1], value));
    crate::store::lemma_read_after_write(store, keys[1], value, keys[0]);
    assert(read_slot(after, keys[0]) == read_slot(store, keys[0]));
    assert(read_slot(after, keys[1]) == Ok::<Seq<nat>, StepError>(value));
    assert(phase_value(after, t, 0, input, keys) == Ok::<Seq<nat>, StepError>(value));
    assert(write_slot(after, keys[1], value) =~= after);
}

/// The digits are a non-adjacent form: of two neighbours one is zero.
pub proof fn lemma_naf_non_adjacent(j: int)
    requires
        0 <= j < 62,
    ensures
        naf().len() == 63,
        naf()[j] == 0 || naf()[j + 1] == 0,
        -1 <= naf()[j] <= 1,
{
}

/// The number that the first `n` digits spell, most significant first.
pub open spec fn naf_value(n: nat) -> int
    decreases n,
{
    if n == 0 {
        0
    } else {
        2 * naf_value((n - 1) as nat) + naf()[n - 1]
    }
}

/// The digits spell the parameter of the curve, 4965661367192848881.
pub proof fn lemma_naf_spells_parameter()
    ensures
        naf_value(63) == 4965661367192848881,
{
    reveal_with_fuel(naf_value, 9);
    assert(naf_value(0) == 0);
    assert(naf_value(8) == 138);
    assert(naf_value(16) == 35283);
    assert(naf_value(24) == 9032486);
    assert(naf_value(32) == 2312316264);
    assert(naf_value(40) == 591952963733);
    assert(naf_value(48) == 151539958715602);
    assert(naf_value(56) == 38794229431194132);
    assert(naf_value(63) == 4965661367192848881);
}

/// Writing an element keeps every slot an encoding.
pub proof fn lemma_write_keeps_slots_canonical(
    store: Map<Seq<char>, Seq<u8>>,
    key: Seq<char>,
    c: Seq<nat>,
)
    ensures
        all_canonical(store) && valid_coefficients(c) ==> all_canonical(write_slot(store, key, c)),
{
    if valid_coefficients(c) {
        crate::field::lemma_coefficients_of_encode(c);
    }
}

/// Every digit of the form is `-1`, `0` or `1`.
pub proof fn lemma_naf_digits(j: int)
    requires
        0 <= j < 63,
    ensures
        -1 <= naf()[j] <= 1,
{
}

/// `base` multiplied with itself `n` times, from the left.
pub open spec fn power(base: Seq<nat>, n: nat) -> Seq<nat>
    decreases n,
{
    if n == 0 {
        identity()
    } else {
        fq12_mul(power(base, (n - 1) as nat), base)
    }
}

/// What the first `n` digits give for `base`, run from the identity with
/// `inverse` in the place of the inverse of `base`.
pub open spec fn digits_chain(base: Seq<nat>, inverse: Seq<nat>, n: nat) -> Seq<nat>
    decreases n,
{
    if n == 0 {
        identity()
    } else {
        exp_by_neg_x_spec(base, inverse, digits_chain(base, inverse, (n - 1) as nat), (n - 1) as nat)
    }
}

/// The laws that an exponentiation needs of the named product and square:
/// the product is associative with the identity as its unit, the square is
/// the product of a value with itself, and `inverse` undoes `base`.
#[verifier::opaque]
pub open spec fn group_laws(base: Seq<nat>, inverse: Seq<nat>) -> bool {
    &&& forall|a: Seq<nat>, b: Seq<nat>, c: Seq<nat>| #[trigger]
        fq12_mul(fq12_mul(a, b), c) == fq12_mul(a, fq12_mul(b, c))
    &&& forall|a: Seq<nat>| #[trigger] fq12_square(a) == fq12_mul(a, a)
    &&& forall|a: Seq<nat>| #[trigger] fq12_mul(identity(), a) == a
    &&& forall|a: Seq<nat>| #[trigger] fq12_mul(a, identity()) == a
    &&& fq12_mul(base, inverse) == identity()
}

/// The laws, each at the values given.
pub proof fn lemma_group_laws(
    base: Seq<nat>,
    inverse: Seq<nat>,
    a: Seq<nat>,
    b: Seq<nat>,
    c: Seq<nat>,
)
    requires
        group_laws(base, inverse),
    ensures
        fq12_mul(fq12_mul(a, b), c) == fq12_mul(a, fq12_mul(b, c)),
        fq12_square(a) == fq12_mul(a, a),
        fq12_mul(identity(), a) == a,
        fq12_mul(a, identity()) == a,
        fq12_mul(base, inverse) == identity(),
{
    reveal(group_laws);
}

/// Under the laws, powers add up: `base^(a + b)` is `base^a * base^b`.
pub proof fn lemma_power_add(base: Seq<nat>, inverse: Seq<nat>, a: nat, b: nat)
    requires
        group_laws(base, inverse),
    ensures
        power(base, a + b) == fq12_mul(power(base, a), power(base, b)),
    decreases b,
{
    if b == 0 {
        lemma_group_laws(base, inverse, power(base, a), base, base);
    } else {
        lemma_power_add(base, inverse, a, (b - 1) as nat);
        assert(power(base, a + b) == fq12_mul(power(base, (a + b - 1) as nat), base));
        lemma_group_laws(base, inverse, power(base, a), power(base, (b - 1) as nat), base);
    }
}

/// Under the laws, the first `n` digits give the power of `base` to the
/// number that they spell, and that number is positive.
pub proof fn lemma_digits_chain(base: Seq<nat>, inverse: Seq<nat>, n: nat)
    requires
        group_laws(base, inverse),
        1 <= n <= 63,
    ensures
        naf_value(n) >= 1,
        digits_chain(base, inverse, n) == power(base, naf_value(n) as nat),
    decreases n,
{
    let j = (n - 1) as nat;
    lemma_naf_digits(j as int);
    if n == 1 {
        assert(naf()[0] == 1);
        assert(naf_value(0) == 0);
        assert(naf_value(1) == 1);
        assert(power(base, 0) == identity());
        assert(power(base, 1) == fq12_mul(identity(), base));
        assert(digits_chain(base, inverse, 0) == identity());
        lemma_group_laws(base, inverse, base, base, base);
    } else {
        lemma_digits_chain(base, inverse, j);
        let v = naf_value(j) as nat;
        let acc = digits_chain(base, inverse, j);
        let squared = fq12_square(acc);
        lemma_power_add(base, inverse, v, v);
        lemma_group_laws(base, inverse, acc, base, base);
        assert(squared == fq12_mul(acc, acc));
        assert(squared == power(base, 2 * v));
        if naf()[j as int] > 0 {
            assert(power(base, 2 * v + 1) == fq12_mul(power(base, 2 * v), base));
        } else if naf()[j as int] < 0 {
            let below = power(base, (2 * v - 1) as nat);
            assert(power(base, 2 * v) == fq12_mul(below, base));
            lemma_group_laws(base, inverse, below, base, inverse);
        }
    }
}

/// The 63 digits, run from the identity through [`exp_by_neg_x`] with
/// `inverse` in the place of the inverse of `base`, give the power of `base`
/// to the parameter of the curve, wherever the named product and square obey
/// the laws of [`group_laws`].
pub proof fn lemma_digits_give_the_power(base: Seq<nat>, inverse: Seq<nat>)
    requires
        group_laws(base, inverse),
    ensures
        digits_chain(base, inverse, 63) == power(base, 4965661367192848881),
{
    lemma_digits_chain(base, inverse, 63);
    lemma_naf_spells_parameter();
}

} // verus!
