//! The schedule of the final exponentiation: the calls that a driver makes,
//! in order, and the slot names that go with each phase.
//!
//! The engine keeps no record of what was called. The order is the driver's
//! to keep, and this table is what it keeps to.

use vstd::prelude::*;
use crate::backend::{
    fq12_conjugate, fq12_cyclotomic_square, fq12_frobenius, fq12_inverse, fq12_mul,
};
use crate::error::StepError;
use crate::field::{canonical, decode_spec, encode_spec, identity, valid_coefficients, Element};
use crate::final_exponentiation::{
    digits_chain, easy_part1, easy_part2, hard_part_y0, hard_part_y1, hard_part_y11, hard_part_y13,
    hard_part_y14, hard_part_y15, hard_part_y16, hard_part_y3, hard_part_y4, hard_part_y6,
    hard_part_y8, hard_part_y9, group_laws, keys_needed, lemma_digits_give_the_power, names,
    output_index, phase_value, power,
    prepare_final_data, read2, read3, reads, same_slot, sub_exponentiation_value,
};
use crate::store::{all_canonical, lemma_read_after_write, read_slot, write_slot, Store};

verus! {

/// Number of calls in the schedule of the final exponentiation.
pub const FINAL_SCHEDULE_LEN: usize = 201;

/// Call `k` of the schedule, as the phase and its digit index: the prepare
/// phase and the two easy phases, the 63 digits of `y0`, `y1` and `y3`, the
/// 63 digits of `y4` and of `y6`, and then `y8` to the terminal phase.
pub open spec fn call_at(k: int) -> (u8, u8) {
    if k < 3 {
        ((k + 2) as u8, 0u8)
    } else if k < 66 {
        (5u8, (k - 3) as u8)
    } else if k < 68 {
        ((k - 60) as u8, 0u8)
    } else if k < 131 {
        (8u8, (k - 68) as u8)
    } else if k < 194 {
        (9u8, (k - 131) as u8)
    } else {
        ((k - 184) as u8, 0u8)
    }
}

/// The calls of the final exponentiation in order.
pub open spec fn final_schedule_spec() -> Seq<(u8, u8)> {
    Seq::new(201, |k: int| call_at(k))
}

/// Appends the 63 digits of the sub-exponentiation of phase `t`.
fn push_digits(calls: &mut Vec<(u8, u8)>, t: u8)
    requires
        old(calls)@.len() + 63 <= 201,
    ensures
        final(calls)@ == old(calls)@ + Seq::new(63, |j: int| (t, j as u8)),
{
    let ghost before = calls@;
    let mut j: u8 = 0;
    while j < 63
        invariant
            j <= 63,
            calls@ == before + Seq::new(j as nat, |d: int| (t, d as u8)),
        decreases 63 - j,
    {
        calls.push((t, j));
        j = j + 1;
        assert(calls@ =~= before + Seq::new(j as nat, |d: int| (t, d as u8)));
    }
}

/// The calls of the final exponentiation, in the order in which a driver
/// makes them.
pub fn final_schedule() -> (calls: Vec<(u8, u8)>)
    ensures
        calls@ == final_schedule_spec(),
{
    let mut calls: Vec<(u8, u8)> = Vec::new();
    calls.push((2, 0));
    calls.push((3, 0));
    calls.push((4, 0));
    push_digits(&mut calls, 5);
    calls.push((6, 0));
    calls.push((7, 0));
    push_digits(&mut calls, 8);
    push_digits(&mut calls, 9);
    let mut t: u8 = 10;
    while t <= 16
        invariant
            10 <= t <= 17,
            calls@.len() == 184 + t,
            forall|k: int| 0 <= k < calls@.len() ==> calls@[k] == call_at(k),
        decreases 17 - t,
    {
        calls.push((t, 0));
        t = t + 1;
    }
    assert(calls@ =~= final_schedule_spec());
    calls
}

/// The schedule names phases only, keeps every digit index inside the form,
/// walks the digits of each sub-exponentiation upwards from 0, never goes
/// back to an earlier phase, and reaches the terminal phase exactly once, with
/// its last call.
pub proof fn lemma_final_schedule(k: int)
    requires
        0 <= k < 201,
    ensures
        final_schedule_spec().len() == 201,
        2 <= final_schedule_spec()[k].0 <= 16,
        final_schedule_spec()[k].1 < 63,
        (final_schedule_spec()[k].0 == 16) == (k == 200),
        k < 200 ==> final_schedule_spec()[k].0 <= final_schedule_spec()[k + 1].0,
        k < 200 && final_schedule_spec()[k].0 == final_schedule_spec()[k + 1].0
            ==> final_schedule_spec()[k + 1].1 == final_schedule_spec()[k].1 + 1,
        k < 200 && final_schedule_spec()[k].0 != final_schedule_spec()[k + 1].0
            ==> final_schedule_spec()[k + 1].1 == 0 && final_schedule_spec()[k + 1].0
            == final_schedule_spec()[k].0 + 1,
        final_schedule_spec()[k].1 > 0 ==> final_schedule_spec()[k].0 == 5
            || final_schedule_spec()[k].0 == 8 || final_schedule_spec()[k].0 == 9,
{
}

/// The slot names of phase `t`, in the order in which the phase takes them;
/// no names for a number that is no phase.
pub open spec fn phase_keys_spec(t: nat) -> Seq<Seq<char>> {
    if t == 2 {
        seq!["gamma"@, "delta"@, "final"@]
    } else if t == 3 || t == 4 {
        seq!["final"@]
    } else if t == 5 {
        seq!["final"@, "y0"@]
    } else if t == 6 {
        seq!["y0"@, "y1"@]
    } else if t == 7 {
        seq!["y0"@, "y3"@]
    } else if t == 8 {
        seq!["y3"@, "y4"@]
    } else if t == 9 {
        seq!["y4"@, "y6"@]
    } else if t == 10 {
        seq!["y3"@, "y4"@, "y6"@, "y8"@]
    } else if t == 11 {
        seq!["y1"@, "y8"@, "y9"@]
    } else if t == 12 {
        seq!["y4"@, "y8"@, "final"@, "y11"@]
    } else if t == 13 {
        seq!["y9"@, "y11"@, "y13"@]
    } else if t == 14 {
        seq!["y8"@, "y13"@, "y14"@]
    } else if t == 15 {
        seq!["y9"@, "final"@, "y15"@]
    } else if t == 16 {
        seq!["y14"@, "y15"@]
    } else {
        Seq::empty()
    }
}

/// The slot names of phase `t`.
pub fn phase_keys(t: u8) -> (keys: Vec<String>)
    ensures
        names(keys@) == phase_keys_spec(t as nat),
        keys@.len() == keys_needed(t as nat),
{
    let keys: Vec<String> = match t {
        2 => vec!["gamma".to_owned(), "delta".to_owned(), "final".to_owned()],
        3 | 4 => vec!["final".to_owned()],
        5 => vec!["final".to_owned(), "y0".to_owned()],
        6 => vec!["y0".to_owned(), "y1".to_owned()],
        7 => vec!["y0".to_owned(), "y3".to_owned()],
        8 => vec!["y3".to_owned(), "y4".to_owned()],
        9 => vec!["y4".to_owned(), "y6".to_owned()],
        10 => vec!["y3".to_owned(), "y4".to_owned(), "y6".to_owned(), "y8".to_owned()],
        11 => vec!["y1".to_owned(), "y8".to_owned(), "y9".to_owned()],
        12 => vec!["y4".to_owned(), "y8".to_owned(), "final".to_owned(), "y11".to_owned()],
        13 => vec!["y9".to_owned(), "y11".to_owned(), "y13".to_owned()],
        14 => vec!["y8".to_owned(), "y13".to_owned(), "y14".to_owned()],
        15 => vec!["y9".to_owned(), "final".to_owned(), "y15".to_owned()],
        16 => vec!["y14".to_owned(), "y15".to_owned()],
        _ => Vec::new(),
    };
    assert(names(keys@) =~= phase_keys_spec(t as nat));
    keys
}

/// Every phase gets as many names as it takes.
pub proof fn lemma_phase_keys_count(t: nat)
    ensures
        phase_keys_spec(t).len() == keys_needed(t),
{
}

/// With the names of the schedule, no phase but the two easy phases and the
/// three sub-exponentiations writes to a slot that it reads: such a call can
/// be made again and changes nothing. A sub-exponentiation reads its seed and
/// its running value from two different slots.
pub proof fn lemma_output_slot_apart(t: nat, j: nat)
    requires
        2 <= t <= 15,
        t != 3,
        t != 4,
    ensures
        t == 5 || t == 8 || t == 9 ==> phase_keys_spec(t)[0] != phase_keys_spec(t)[1],
        !(t == 5 || t == 8 || t == 9) ==> !reads(t, j, phase_keys_spec(t)).contains(
            phase_keys_spec(t)[output_index(t)],
        ),
{
    reveal_strlit("gamma");
    reveal_strlit("delta");
    reveal_strlit("final");
    reveal_strlit("y0");
    reveal_strlit("y1");
    reveal_strlit("y3");
    reveal_strlit("y4");
    reveal_strlit("y6");
    reveal_strlit("y8");
    reveal_strlit("y9");
    reveal_strlit("y11");
    reveal_strlit("y13");
    reveal_strlit("y14");
    reveal_strlit("y15");
    let keys = phase_keys_spec(t);
    let out = keys[output_index(t)];
    assert(out.len() > 0);
    if t == 2 {
        assert(keys[0][0] == 'g' && keys[1][0] == 'd' && out[0] == 'f');
    } else if t == 5 {
        assert(keys[0][0] == 'f' && out[0] == 'y');
    } else if t == 6 {
        assert(keys[0][1] == '0' && out[1] == '1');
    } else if t == 7 {
        assert(keys[0][1] == '0' && out[1] == '3');
    } else if t == 8 {
        assert(keys[0][1] == '3' && out[1] == '4');
    } else if t == 9 {
        assert(keys[0][1] == '4' && out[1] == '6');
    } else if t == 10 {
        assert(keys[0][1] == '3' && keys[1][1] == '4' && keys[2][1] == '6' && out[1] == '8');
    } else if t == 11 {
        assert(keys[0][1] == '1' && keys[1][1] == '8' && out[1] == '9');
        assert(keys[0].len() == 2 && out.len() == 2);
    } else if t == 12 {
        assert(keys[0][1] == '4' && keys[1][1] == '8' && keys[2][0] == 'f' && out[1] == '1');
    } else if t == 13 {
        assert(keys[0].len() == 2 && keys[1][2] == '1' && out[2] == '3');
    } else if t == 14 {
        assert(keys[0].len() == 2 && keys[1][2] == '3' && out[2] == '4');
    } else {
        assert(keys[0].len() == 2 && keys[1][0] == 'f' && out[2] == '5');
    }
}

/// The running value of a sub-exponentiation seeded from `base` after its
/// first `n` digits: the identity before the first, and after the last the
/// conjugate of what the digits gave.
pub open spec fn digits_run(base: Seq<nat>, n: nat) -> Seq<nat>
    decreases n,
{
    if n == 0 {
        identity()
    } else {
        sub_exponentiation_value(base, digits_run(base, (n - 1) as nat), (n - 1) as nat)
    }
}

/// What the 63 digits of a sub-exponentiation seeded from `base` give.
pub open spec fn sub_exponentiation(base: Seq<nat>) -> Seq<nat> {
    digits_run(base, 63)
}

/// Before its last digit the running value of a sub-exponentiation is what
/// the digits give for the seed with its conjugate in the place of the
/// inverse; the last digit conjugates on top.
pub proof fn lemma_digits_run(base: Seq<nat>, n: nat)
    requires
        n <= 63,
    ensures
        n < 63 ==> digits_run(base, n) == digits_chain(base, fq12_conjugate(base), n),
        n == 63 ==> digits_run(base, n) == fq12_conjugate(
            digits_chain(base, fq12_conjugate(base), n),
        ),
    decreases n,
{
    if n > 0 {
        lemma_digits_run(base, (n - 1) as nat);
    }
}

/// A sub-exponentiation gives the conjugate of the power of its seed to the
/// parameter of the curve, wherever the named product and square obey the laws
/// of [`group_laws`] and the conjugate of the seed is its inverse, as it is in
/// the cyclotomic subgroup.
pub proof fn lemma_sub_exponentiation_is_the_power(base: Seq<nat>)
    requires
        group_laws(base, fq12_conjugate(base)),
    ensures
        sub_exponentiation(base) == fq12_conjugate(power(base, 4965661367192848881)),
{
    lemma_digits_run(base, 63);
    lemma_digits_give_the_power(base, fq12_conjugate(base));
}

/// What the easy part gives for `f`: with `g = conjugate(f) * inverse(f)`,
/// the value `frobenius^2(g) * g`; nothing where `f` has no inverse.
pub open spec fn easy_part(f: Seq<nat>) -> Option<Seq<nat>> {
    match fq12_inverse(f) {
        None => None,
        Some(inverse) => {
            let g = fq12_mul(fq12_conjugate(f), inverse);
            Some(fq12_mul(fq12_frobenius(g, 2), g))
        },
    }
}

/// `y0` of the hard part of `r`.
pub open spec fn y0_of(r: Seq<nat>) -> Seq<nat> {
    sub_exponentiation(r)
}

/// `y1` of the hard part of `r`.
pub open spec fn y1_of(r: Seq<nat>) -> Seq<nat> {
    fq12_cyclotomic_square(y0_of(r))
}

/// `y3` of the hard part of `r`.
pub open spec fn y3_of(r: Seq<nat>) -> Seq<nat> {
    fq12_mul(fq12_cyclotomic_square(fq12_cyclotomic_square(y0_of(r))), fq12_cyclotomic_square(y0_of(r)))
}

/// `y4` of the hard part of `r`.
pub open spec fn y4_of(r: Seq<nat>) -> Seq<nat> {
    sub_exponentiation(y3_of(r))
}

/// `y6` of the hard part of `r`.
pub open spec fn y6_of(r: Seq<nat>) -> Seq<nat> {
    sub_exponentiation(fq12_cyclotomic_square(y4_of(r)))
}

/// `y8` of the hard part of `r`.
pub open spec fn y8_of(r: Seq<nat>) -> Seq<nat> {
    fq12_mul(fq12_mul(fq12_conjugate(y6_of(r)), y4_of(r)), fq12_conjugate(y3_of(r)))
}

/// `y9` of the hard part of `r`.
pub open spec fn y9_of(r: Seq<nat>) -> Seq<nat> {
    fq12_mul(y8_of(r), y1_of(r))
}

/// `y11` of the hard part of `r`.
pub open spec fn y11_of(r: Seq<nat>) -> Seq<nat> {
    fq12_mul(fq12_mul(y8_of(r), y4_of(r)), r)
}

/// `y13` of the hard part of `r`.
pub open spec fn y13_of(r: Seq<nat>) -> Seq<nat> {
    fq12_mul(fq12_frobenius(y9_of(r), 1), y11_of(r))
}

/// `y14` of the hard part of `r`.
pub open spec fn y14_of(r: Seq<nat>) -> Seq<nat> {
    fq12_mul(fq12_frobenius(y8_of(r), 2), y13_of(r))
}

/// `y15` of the hard part of `r`.
pub open spec fn y15_of(r: Seq<nat>) -> Seq<nat> {
    fq12_frobenius(fq12_mul(fq12_conjugate(r), y9_of(r)), 3)
}

/// What the hard part gives for `r`: `y15 * y14`.
pub open spec fn hard_part(r: Seq<nat>) -> Seq<nat> {
    fq12_mul(y15_of(r), y14_of(r))
}

/// What the final exponentiation gives for `f`: the hard part of the easy
/// part; nothing where `f` has no inverse.
pub open spec fn final_exponentiation_spec(f: Seq<nat>) -> Option<Seq<nat>> {
    match easy_part(f) {
        None => None,
        Some(r) => Some(hard_part(r)),
    }
}

/// What a run of the whole schedule answers: the two accumulators are
/// multiplied, the product goes through the final exponentiation, and the
/// result is compared with `expected`. Before that the run is rejected where
/// the input, an accumulator or the slot of one of the three running values
/// fails to decode, or where the product has no inverse.
pub open spec fn run_spec(store: Map<Seq<char>, Seq<u8>>, expected: Seq<nat>, input: Seq<u8>) -> Result<
    (),
    StepError,
> {
    match decode_spec(input) {
        Err(e) => Err(e),
        Ok(_) => match read2(store, "gamma"@, "delta"@) {
            Err(e) => Err(e),
            Ok((gamma, delta)) => match easy_part(fq12_mul(gamma, delta)) {
                None => Err(StepError::NotInvertible),
                Some(r) => match read3(store, "y0"@, "y4"@, "y6"@) {
                    Err(e) => Err(e),
                    Ok(_) => if hard_part(r) == expected {
                        Ok(())
                    } else {
                        Err(StepError::VerificationFailed)
                    },
                },
            },
        },
    }
}

/// A store with elements written over it: each slot of `written` holds the
/// encoding of its element, and every other slot is as in `start`.
pub open spec fn overlay(start: Map<Seq<char>, Seq<u8>>, written: Map<Seq<char>, Seq<nat>>) -> Map<
    Seq<char>,
    Seq<u8>,
> {
    Map::new(
        |key: Seq<char>| start.contains_key(key) || written.contains_key(key),
        |key: Seq<char>|
            if written.contains_key(key) {
                encode_spec(written[key])
            } else {
                start[key]
            },
    )
}

/// What holds of a store in the middle of a run that began on `start`: it is
/// `start` with the elements of `written` written over it, and so each slot
/// of `written` reads as its element.
pub open spec fn in_run(
    start: Map<Seq<char>, Seq<u8>>,
    store: Map<Seq<char>, Seq<u8>>,
    written: Map<Seq<char>, Seq<nat>>,
) -> bool {
    &&& store == overlay(start, written)
    &&& forall|key: Seq<char>| #[trigger]
        written.contains_key(key) ==> valid_coefficients(written[key]) && read_slot(store, key)
            == Ok::<Seq<nat>, StepError>(written[key])
}

/// Writing an element in the middle of a run adds it to what was written.
pub proof fn lemma_write_in_run(
    start: Map<Seq<char>, Seq<u8>>,
    store: Map<Seq<char>, Seq<u8>>,
    written: Map<Seq<char>, Seq<nat>>,
    key: Seq<char>,
    c: Seq<nat>,
)
    requires
        in_run(start, store, written),
        valid_coefficients(c),
    ensures
        in_run(start, write_slot(store, key, c), written.insert(key, c)),
{
    let after = write_slot(store, key, c);
    assert forall|k: Seq<char>| #[trigger]
        written.insert(key, c).contains_key(k) implies valid_coefficients(
        written.insert(key, c)[k],
    ) && read_slot(after, k) == Ok::<Seq<nat>, StepError>(written.insert(key, c)[k]) by {
        lemma_read_after_write(store, key, c, k);
        if k != key {
            assert(written.contains_key(k));
        }
    }
    assert(after =~= overlay(start, written.insert(key, c)));
}

/// Elements written over a store leave every other slot as it was, and a
/// store whose slots all held encodings is still one.
pub proof fn lemma_overlay(
    start: Map<Seq<char>, Seq<u8>>,
    written: Map<Seq<char>, Seq<nat>>,
    key: Seq<char>,
)
    requires
        forall|k: Seq<char>| #[trigger] written.contains_key(k) ==> valid_coefficients(written[k]),
    ensures
        !written.contains_key(key) ==> same_slot(start, overlay(start, written), key),
        written.contains_key(key) ==> read_slot(overlay(start, written), key) == Ok::<
            Seq<nat>,
            StepError,
        >(written[key]),
        all_canonical(start) ==> all_canonical(overlay(start, written)),
{
    if written.contains_key(key) {
        crate::field::lemma_decode_encode(written[key]);
    }
    if all_canonical(start) {
        assert forall|k: Seq<char>| overlay(start, written).contains_key(k) implies canonical(
            #[trigger] overlay(start, written)[k],
        ) by {
            if written.contains_key(k) {
                crate::field::lemma_coefficients_of_encode(written[k]);
            } else {
                assert(canonical(start[k]));
            }
        }
    }
}

/// What a run has written when it comes to the digits of `y4`: the easy part
/// `r` under `final`, and `y0`, `y1` and `y3`.
pub open spec fn writes_up_to_y3(r: Seq<nat>) -> Map<Seq<char>, Seq<nat>> {
    Map::empty().insert("final"@, r).insert("y0"@, y0_of(r)).insert("y1"@, y1_of(r)).insert(
        "y3"@,
        y3_of(r),
    )
}

/// What a run that reaches its end has written: the easy part `r` under
/// `final` and every value of the hard part under its name.
pub open spec fn writes_in_full(r: Seq<nat>) -> Map<Seq<char>, Seq<nat>> {
    writes_up_to_y3(r).insert("y4"@, y4_of(r)).insert("y6"@, y6_of(r)).insert(
        "y8"@,
        y8_of(r),
    ).insert("y9"@, y9_of(r)).insert("y11"@, y11_of(r)).insert("y13"@, y13_of(r)).insert(
        "y14"@,
        y14_of(r),
    ).insert("y15"@, y15_of(r))
}

/// The elements that a run of the whole schedule writes: none where the
/// input or an accumulator fails to decode; the product alone, under `final`,
/// where it has no inverse; what was computed before a sub-exponentiation
/// whose running slot fails to decode; and otherwise the easy part under
/// `final` and every value of the hard part under its name.
pub open spec fn run_writes(store: Map<Seq<char>, Seq<u8>>, input: Seq<u8>) -> Map<
    Seq<char>,
    Seq<nat>,
> {
    match decode_spec(input) {
        Err(e) => Map::empty(),
        Ok(_) => match read2(store, "gamma"@, "delta"@) {
            Err(e) => Map::empty(),
            Ok((gamma, delta)) => {
                let f = fq12_mul(gamma, delta);
                match easy_part(f) {
                    None => Map::empty().insert("final"@, f),
                    Some(r) => if read_slot(store, "y0"@) is Err {
                        Map::empty().insert("final"@, r)
                    } else if read_slot(store, "y4"@) is Err {
                        writes_up_to_y3(r)
                    } else if read_slot(store, "y6"@) is Err {
                        writes_up_to_y3(r).insert("y4"@, y4_of(r))
                    } else {
                        writes_in_full(r)
                    },
                }
            },
        },
    }
}

/// A number that tells the slot names of a run apart: the length of the name
/// with its second and third characters.
pub open spec fn name_code(name: Seq<char>) -> int {
    name.len() * 65536 + (name[1] as int) * 256 + (if name.len() > 2 {
        name[2] as int
    } else {
        0
    })
}

/// The slot names of a run are twelve different names.
pub proof fn lemma_slot_names_apart()
    ensures
        name_code("final"@) == 354670,
        name_code("y0"@) == 143360,
        name_code("y1"@) == 143616,
        name_code("y3"@) == 144128,
        name_code("y4"@) == 144384,
        name_code("y6"@) == 144896,
        name_code("y8"@) == 145408,
        name_code("y9"@) == 145664,
        name_code("y11"@) == 209201,
        name_code("y13"@) == 209203,
        name_code("y14"@) == 209204,
        name_code("y15"@) == 209205,
{
    reveal_strlit("final");
    reveal_strlit("y0");
    reveal_strlit("y1");
    reveal_strlit("y3");
    reveal_strlit("y4");
    reveal_strlit("y6");
    reveal_strlit("y8");
    reveal_strlit("y9");
    reveal_strlit("y11");
    reveal_strlit("y13");
    reveal_strlit("y14");
    reveal_strlit("y15");
    assert("final"@.len() == 5 && "final"@[1] == 'i' && "final"@[2] == 'n');
    assert("y0"@.len() == 2 && "y0"@[1] == '0');
    assert("y1"@.len() == 2 && "y1"@[1] == '1');
    assert("y3"@.len() == 2 && "y3"@[1] == '3');
    assert("y4"@.len() == 2 && "y4"@[1] == '4');
    assert("y6"@.len() == 2 && "y6"@[1] == '6');
    assert("y8"@.len() == 2 && "y8"@[1] == '8');
    assert("y9"@.len() == 2 && "y9"@[1] == '9');
    assert("y11"@.len() == 3 && "y11"@[1] == '1' && "y11"@[2] == '1');
    assert("y13"@.len() == 3 && "y13"@[1] == '1' && "y13"@[2] == '3');
    assert("y14"@.len() == 3 && "y14"@[1] == '1' && "y14"@[2] == '4');
    assert("y15"@.len() == 3 && "y15"@[1] == '1' && "y15"@[2] == '5');
}

/// Runs the 63 digits of the sub-exponentiation of phase `t`, in the middle
/// of a run in which the seed of the phase is known and its running slot is
/// as the run found it. Where that slot fails to decode, the first digit is
/// rejected and nothing is written.
fn run_digits(
    store: &mut Store,
    t: u8,
    Ghost(start): Ghost<Map<Seq<char>, Seq<u8>>>,
    Ghost(known): Ghost<Map<Seq<char>, Seq<nat>>>,
) -> (r: Result<(), StepError>)
    requires
        t == 5 || t == 8 || t == 9,
        in_run(start, old(store)@, known),
        known.contains_key(phase_keys_spec(t as nat)[0]),
        !known.contains_key(phase_keys_spec(t as nat)[1]),
    ensures
        match read_slot(start, phase_keys_spec(t as nat)[1]) {
            Err(e) => r == Err::<(), StepError>(e) && final(store)@ == old(store)@,
            Ok(_) => r is Ok && in_run(
                start,
                final(store)@,
                known.insert(
                    phase_keys_spec(t as nat)[1],
                    sub_exponentiation(
                        if t == 9 {
                            fq12_cyclotomic_square(known[phase_keys_spec(t as nat)[0]])
                        } else {
                            known[phase_keys_spec(t as nat)[0]]
                        },
                    ),
                ),
            ),
        },
{
    let keys = phase_keys(t);
    let ghost initial = store@;
    let ghost seed = phase_keys_spec(t as nat)[0];
    let ghost out = phase_keys_spec(t as nat)[1];
    let ghost base = if t == 9 {
        fq12_cyclotomic_square(known[seed])
    } else {
        known[seed]
    };
    proof {
        reveal_strlit("final");
        reveal_strlit("y0");
        reveal_strlit("y3");
        reveal_strlit("y4");
        reveal_strlit("y6");
        assert(seed[1] != out[1] || seed[0] != out[0]);
        assert(seed != out);
        assert(initial.contains_key(out) == start.contains_key(out));
        assert(initial.contains_key(out) ==> initial[out] == start[out]);
        assert(read_slot(initial, out) == read_slot(start, out));
    }
    let mut j: usize = 0;
    while j < 63
        invariant
            j <= 63,
            t == 5 || t == 8 || t == 9,
            names(keys@) == phase_keys_spec(t as nat),
            keys@.len() == 2,
            seed == phase_keys_spec(t as nat)[0],
            out == phase_keys_spec(t as nat)[1],
            seed != out,
            known.contains_key(seed),
            base == (if t == 9 {
                fq12_cyclotomic_square(known[seed])
            } else {
                known[seed]
            }),
            read_slot(initial, out) == read_slot(start, out),
            initial == old(store)@,
            j == 0 ==> store@ == initial,
            j > 0 ==> read_slot(start, out) is Ok,
            in_run(
                start,
                store@,
                if j == 0 {
                    known
                } else {
                    known.insert(out, digits_run(base, j as nat))
                },
            ),
        decreases 63 - j,
    {
        let ghost before = store@;
        let ghost known_before = if j == 0 {
            known
        } else {
            known.insert(out, digits_run(base, j as nat))
        };
        let ghost value = digits_run(base, (j + 1) as nat);
        proof {
            let ks = names(keys@);
            assert(ks.len() == 2);
            assert(ks[0] == seed && ks[1] == out);
            assert(known_before.contains_key(seed));
            assert(read_slot(before, seed) == Ok::<Seq<nat>, StepError>(known[seed]));
            if j > 0 {
                assert(known_before.contains_key(out));
                assert(read_slot(before, out) == Ok::<Seq<nat>, StepError>(
                    digits_run(base, j as nat),
                ));
            }
            if read_slot(before, out) is Ok {
                let held = read_slot(before, out).unwrap();
                assert(value == sub_exponentiation_value(base, held, j as nat));
                assert(phase_value(before, t as nat, j as nat, Seq::empty(), ks) == Ok::<
                    Seq<nat>,
                    StepError,
                >(value));
            } else {
                assert(phase_value(before, t as nat, j as nat, Seq::empty(), ks) == Err::<
                    Seq<nat>,
                    StepError,
                >(read_slot(before, out)->Err_0));
            }
        }
        let r = if t == 5 {
            hard_part_y0(store, keys.as_slice(), j)
        } else if t == 8 {
            hard_part_y4(store, keys.as_slice(), j)
        } else {
            hard_part_y6(store, keys.as_slice(), j)
        };
        match r {
            Ok(()) => {},
            Err(e) => {
                proof {
                    assert(read_slot(before, out) is Err);
                    assert(j == 0);
                    assert(before == initial);
                    assert(store@ == before);
                    assert(read_slot(start, out) == Err::<Seq<nat>, StepError>(e));
                }
                return Err(e);
            },
        }
        proof {
            assert(read_slot(before, out) is Ok);
            assert(read_slot(start, out) is Ok);
            lemma_write_in_run(start, before, known_before, out, value);
            assert(known_before.insert(out, value) =~= known.insert(out, value));
        }
        j = j + 1;
    }
    Ok(())
}

/// Runs the whole schedule of the final exponentiation on a store that holds
/// the two Miller-loop accumulators under `gamma` and `delta`, and answers
/// what the terminal phase answers.
///
/// The answer is that of the final exponentiation in one piece: the product
/// of the two accumulators, raised through the easy and the hard part, is
/// compared with `expected`. The input must be the encoding of an element, and
/// the slots of the three running values must decode where they were written
/// before the run, though what they hold plays no part. The store is left with
/// every value that the run computed under its name, and is otherwise as it
/// was.
#[verifier::rlimit(60)]
pub fn run_final_exponentiation(store: &mut Store, expected: &Element, input: &[u8]) -> (r: Result<
    (),
    StepError,
>)
    ensures
        r == run_spec(old(store)@, expected@, input@),
        final(store)@ == overlay(old(store)@, run_writes(old(store)@, input@)),
{
    let ghost start = store@;
    let ghost none = Seq::<u8>::empty();
    proof {
        reveal_strlit("gamma");
        reveal_strlit("delta");
        lemma_slot_names_apart();
    }
    let ghost known0 = Map::<Seq<char>, Seq<nat>>::empty();
    assert(start =~= overlay(start, known0));

    // Phase 2.
    let keys = phase_keys(2);
    match prepare_final_data(store, keys.as_slice(), input) {
        Ok(()) => {},
        Err(e) => {
            return Err(e);
        },
    }
    let ghost f0 = phase_value(start, 2, 0, input@, names(keys@)).unwrap();
    let ghost known1 = known0.insert("final"@, f0);
    proof {
        lemma_write_in_run(start, start, known0, "final"@, f0);
    }

    // Phase 3.
    let ghost before = store@;
    let keys = phase_keys(3);
    assert(known1.contains_key("final"@));
    match easy_part1(store, keys.as_slice()) {
        Ok(()) => {},
        Err(e) => {
            assert(known1 =~= run_writes(start, input@));
            return Err(e);
        },
    }
    let ghost f1 = phase_value(before, 3, 0, none, names(keys@)).unwrap();
    let ghost known2 = known1.insert("final"@, f1);
    proof {
        lemma_write_in_run(start, before, known1, "final"@, f1);
    }

    // Phase 4.
    let ghost before = store@;
    let keys = phase_keys(4);
    assert(known2.contains_key("final"@));
    match easy_part2(store, keys.as_slice()) {
        Ok(()) => {},
        Err(e) => {
            return Err(e);
        },
    }
    let ghost r = phase_value(before, 4, 0, none, names(keys@)).unwrap();
    let ghost known3 = known2.insert("final"@, r);
    proof {
        lemma_write_in_run(start, before, known2, "final"@, r);
        assert(easy_part(f0) == Some(r));
    }

    // Phase 5.
    assert(known3.contains_key("final"@) && !known3.contains_key("y0"@));
    match run_digits(store, 5, Ghost(start), Ghost(known3)) {
        Ok(()) => {},
        Err(e) => {
            assert(known3 =~= run_writes(start, input@));
            return Err(e);
        },
    }
    let ghost known4 = known3.insert("y0"@, y0_of(r));

    // Phase 6.
    let ghost before = store@;
    let keys = phase_keys(6);
    assert(known4.contains_key("y0"@));
    assert(phase_value(before, 6, 0, none, names(keys@)) == Ok::<Seq<nat>, StepError>(
        y1_of(r),
    ));
    match hard_part_y1(store, keys.as_slice()) {
        Ok(()) => {},
        Err(e) => {
            return Err(e);
        },
    }
    let ghost known5 = known4.insert("y1"@, y1_of(r));
    proof {
        lemma_write_in_run(start, before, known4, "y1"@, y1_of(r));
    }

    // Phase 7.
    let ghost before = store@;
    let keys = phase_keys(7);
    assert(known5.contains_key("y0"@));
    assert(phase_value(before, 7, 0, none, names(keys@)) == Ok::<Seq<nat>, StepError>(
        y3_of(r),
    ));
    match hard_part_y3(store, keys.as_slice()) {
        Ok(()) => {},
        Err(e) => {
            return Err(e);
        },
    }
    let ghost known6 = known5.insert("y3"@, y3_of(r));
    proof {
        lemma_write_in_run(start, before, known5, "y3"@, y3_of(r));
    }

    // Phase 8.
    assert(known6.contains_key("y3"@) && !known6.contains_key("y4"@));
    match run_digits(store, 8, Ghost(start), Ghost(known6)) {
        Ok(()) => {},
        Err(e) => {
            assert(known6 =~= run_writes(start, input@));
            return Err(e);
        },
    }
    let ghost known7 = known6.insert("y4"@, y4_of(r));

    // Phase 9.
    assert(known7.contains_key("y4"@) && !known7.contains_key("y6"@));
    match run_digits(store, 9, Ghost(start), Ghost(known7)) {
        Ok(()) => {},
        Err(e) => {
            assert(known7 =~= run_writes(start, input@));
            return Err(e);
        },
    }
    let ghost known8 = known7.insert("y6"@, y6_of(r));

    // Phase 10.
    let ghost before = store@;
    let keys = phase_keys(10);
    assert(known8.contains_key("y3"@) && known8.contains_key("y4"@) && known8.contains_key(
        "y6"@,
    ));
    assert(phase_value(before, 10, 0, none, names(keys@)) == Ok::<Seq<nat>, StepError>(
        y8_of(r),
    ));
    match hard_part_y8(store, keys.as_slice()) {
        Ok(()) => {},
        Err(e) => {
            return Err(e);
        },
    }
    let ghost known9 = known8.insert("y8"@, y8_of(r));
    proof {
        lemma_write_in_run(start, before, known8, "y8"@, y8_of(r));
    }

    // Phase 11.
    let ghost before = store@;
    let keys = phase_keys(11);
    assert(known9.contains_key("y1"@) && known9.contains_key("y8"@));
    assert(phase_value(before, 11, 0, none, names(keys@)) == Ok::<Seq<nat>, StepError>(
        y9_of(r),
    ));
    match hard_part_y9(store, keys.as_slice()) {
        Ok(()) => {},
        Err(e) => {
            return Err(e);
        },
    }
    let ghost known10 = known9.insert("y9"@, y9_of(r));
    proof {
        lemma_write_in_run(start, before, known9, "y9"@, y9_of(r));
    }

    // Phase 12.
    let ghost before = store@;
    let keys = phase_keys(12);
    assert(known10.contains_key("y4"@) && known10.contains_key("y8"@) && known10.contains_key(
        "final"@,
    ));
    assert(phase_value(before, 12, 0, none, names(keys@)) == Ok::<Seq<nat>, StepError>(
        y11_of(r),
    ));
    match hard_part_y11(store, keys.as_slice()) {
        Ok(()) => {},
        Err(e) => {
            return Err(e);
        },
    }
    let ghost known11 = known10.insert("y11"@, y11_of(r));
    proof {
        lemma_write_in_run(start, before, known10, "y11"@, y11_of(r));
    }

    // Phase 13.
    let ghost before = store@;
    let keys = phase_keys(13);
    assert(known11.contains_key("y9"@) && known11.contains_key("y11"@));
    assert(phase_value(before, 13, 0, none, names(keys@)) == Ok::<Seq<nat>, StepError>(
        y13_of(r),
    ));
    match hard_part_y13(store, keys.as_slice()) {
        Ok(()) => {},
        Err(e) => {
            return Err(e);
        },
    }
    let ghost known12 = known11.insert("y13"@, y13_of(r));
    proof {
        lemma_write_in_run(start, before, known11, "y13"@, y13_of(r));
    }

    // Phase 14.
    let ghost before = store@;
    let keys = phase_keys(14);
    assert(known12.contains_key("y8"@) && known12.contains_key("y13"@));
    assert(phase_value(before, 14, 0, none, names(keys@)) == Ok::<Seq<nat>, StepError>(
        y14_of(r),
    ));
    match hard_part_y14(store, keys.as_slice()) {
        Ok(()) => {},
        Err(e) => {
            return Err(e);
        },
    }
    let ghost known13 = known12.insert("y14"@, y14_of(r));
    proof {
        lemma_write_in_run(start, before, known12, "y14"@, y14_of(r));
    }

    // Phase 15.
    let ghost before = store@;
    let keys = phase_keys(15);
    assert(known13.contains_key("y9"@) && known13.contains_key("final"@));
    assert(phase_value(before, 15, 0, none, names(keys@)) == Ok::<Seq<nat>, StepError>(
        y15_of(r),
    ));
    match hard_part_y15(store, keys.as_slice()) {
        Ok(()) => {},
        Err(e) => {
            return Err(e);
        },
    }
    let ghost known14 = known13.insert("y15"@, y15_of(r));
    proof {
        lemma_write_in_run(start, before, known13, "y15"@, y15_of(r));
    }

    // Phase 16.
    let keys = phase_keys(16);
    assert(known14.contains_key("y14"@) && known14.contains_key("y15"@));
    assert(phase_value(store@, 16, 0, none, names(keys@)) == Ok::<Seq<nat>, StepError>(
        hard_part(r),
    ));
    assert(known14 =~= run_writes(start, input@));
    hard_part_y16(store, expected, keys.as_slice())
}

} // verus!
