use ark_ec::bn::BnParameters;
use stepwise_pairing::error::StepError;
use stepwise_pairing::miller_loop::{
    ate_digit, check_miller_step, miller_schedule, miller_step_index, ATE_LOOP_COUNT_LEN,
};
use stepwise_pairing::schedule::{final_schedule, phase_keys, FINAL_SCHEDULE_LEN};

fn driver_calls() -> Vec<(u8, u8)> {
    let digits = ark_bn254::Parameters::ATE_LOOP_COUNT;
    let mut calls = Vec::new();
    let mut j: u8 = 0;
    for i in (1..digits.len()).rev() {
        calls.push((i as u8, j));
        j += 1;
        if digits[i - 1] == 1 || digits[i - 1] == -1 {
            j += 1;
        }
    }
    calls.push((0, j));
    calls
}

#[test]
fn digits_match_the_curve_library() {
    let digits = ark_bn254::Parameters::ATE_LOOP_COUNT;
    assert_eq!(digits.len(), ATE_LOOP_COUNT_LEN);
    for (i, digit) in digits.iter().enumerate() {
        assert_eq!(ate_digit(i), *digit);
    }
}

#[test]
fn schedule_is_what_a_driver_walks() {
    assert_eq!(miller_schedule(), driver_calls());
}

#[test]
fn schedule_has_one_call_per_digit() {
    let calls = miller_schedule();
    assert_eq!(calls.len(), 65);
    for (k, call) in calls.iter().enumerate() {
        assert_eq!(call.0 as usize, 64 - k);
    }
    assert_eq!(calls[0], (64, 0));
    assert_eq!(calls[1], (63, 2));
    assert_eq!(calls[2], (62, 3));
    assert_eq!(calls[3], (61, 5));
    assert_eq!(calls[4], (60, 6));
    assert_eq!(calls[64], (0, 89));
}

#[test]
fn sub_steps_count_the_digits_and_the_nonzero_ones() {
    let digits = ark_bn254::Parameters::ATE_LOOP_COUNT;
    let nonzero = digits[..64].iter().filter(|d| **d != 0).count();
    assert_eq!(nonzero, 25);
    let calls = miller_schedule();
    assert_eq!(calls[64].1 as usize + 1, digits.len() + nonzero);
    assert_eq!(calls[64].1 as usize + 1, 90);
}

#[test]
fn sub_step_advances_by_two_over_a_nonzero_digit() {
    let calls = miller_schedule();
    for k in 0..64 {
        let (i, j) = calls[k];
        let step = if ate_digit(i as usize - 1) != 0 { 2 } else { 1 };
        assert_eq!(calls[k + 1].1, j + step);
    }
}

#[test]
fn step_index_of_each_position() {
    for (i, j) in miller_schedule() {
        assert_eq!(miller_step_index(i), Some(j));
    }
    assert_eq!(miller_step_index(64), Some(0));
    assert_eq!(miller_step_index(0), Some(89));
    assert_eq!(miller_step_index(65), None);
    assert_eq!(miller_step_index(255), None);
}

#[test]
fn calls_of_the_schedule_are_accepted() {
    for (i, j) in miller_schedule() {
        assert_eq!(check_miller_step(i, j), Ok(()));
    }
}

#[test]
fn calls_outside_the_schedule_are_invalid_steps() {
    assert_eq!(check_miller_step(65, 0), Err(StepError::InvalidStep));
    assert_eq!(check_miller_step(255, 89), Err(StepError::InvalidStep));
    assert_eq!(check_miller_step(64, 1), Err(StepError::InvalidStep));
    assert_eq!(check_miller_step(63, 1), Err(StepError::InvalidStep));
    assert_eq!(check_miller_step(0, 90), Err(StepError::InvalidStep));
    assert_eq!(check_miller_step(0, 88), Err(StepError::InvalidStep));
    for (i, j) in miller_schedule() {
        assert_eq!(check_miller_step(i, j + 1), Err(StepError::InvalidStep));
    }
}

fn keys(names: &[&str]) -> Vec<String> {
    names.iter().map(|name| name.to_string()).collect()
}

#[test]
fn final_schedule_walks_the_phases_in_order() {
    let calls = final_schedule();
    assert_eq!(calls.len(), FINAL_SCHEDULE_LEN);
    assert_eq!(calls.len(), 3 + 63 + 2 + 63 + 63 + 7);
    assert_eq!(calls[..3], [(2, 0), (3, 0), (4, 0)]);
    for j in 0..63u8 {
        assert_eq!(calls[3 + j as usize], (5, j));
        assert_eq!(calls[68 + j as usize], (8, j));
        assert_eq!(calls[131 + j as usize], (9, j));
    }
    assert_eq!(calls[66..68], [(6, 0), (7, 0)]);
    assert_eq!(
        calls[194..],
        [(10, 0), (11, 0), (12, 0), (13, 0), (14, 0), (15, 0), (16, 0)]
    );
}

#[test]
fn final_schedule_reaches_the_terminal_phase_once() {
    let calls = final_schedule();
    assert_eq!(calls.iter().filter(|call| call.0 == 16).count(), 1);
    assert_eq!(calls[calls.len() - 1], (16, 0));
}

#[test]
fn phases_take_their_slots_by_name() {
    assert_eq!(phase_keys(2), keys(&["gamma", "delta", "final"]));
    assert_eq!(phase_keys(3), keys(&["final"]));
    assert_eq!(phase_keys(4), keys(&["final"]));
    assert_eq!(phase_keys(5), keys(&["final", "y0"]));
    assert_eq!(phase_keys(6), keys(&["y0", "y1"]));
    assert_eq!(phase_keys(7), keys(&["y0", "y3"]));
    assert_eq!(phase_keys(8), keys(&["y3", "y4"]));
    assert_eq!(phase_keys(9), keys(&["y4", "y6"]));
    assert_eq!(phase_keys(10), keys(&["y3", "y4", "y6", "y8"]));
    assert_eq!(phase_keys(11), keys(&["y1", "y8", "y9"]));
    assert_eq!(phase_keys(12), keys(&["y4", "y8", "final", "y11"]));
    assert_eq!(phase_keys(13), keys(&["y9", "y11", "y13"]));
    assert_eq!(phase_keys(14), keys(&["y8", "y13", "y14"]));
    assert_eq!(phase_keys(15), keys(&["y9", "final", "y15"]));
    assert_eq!(phase_keys(16), keys(&["y14", "y15"]));
    for t in [0u8, 1, 17, 255] {
        assert_eq!(phase_keys(t), Vec::<String>::new());
    }
}

#[test]
fn every_slot_read_was_written_by_an_earlier_phase() {
    let mut written = keys(&["gamma", "delta"]);
    let mut last_phase = 0;
    for (t, _) in final_schedule() {
        if t == last_phase {
            continue;
        }
        last_phase = t;
        let names = phase_keys(t);
        let output = match t {
            3 | 4 => Some(0),
            5..=9 => Some(1),
            10 | 12 => Some(3),
            16 => None,
            _ => Some(2),
        };
        for (position, name) in names.iter().enumerate() {
            let is_running_value = (t == 5 || t == 8 || t == 9) && position == 1;
            if Some(position) != output || t == 3 || t == 4 {
                assert!(written.contains(name), "phase {} reads {}", t, name);
            } else if !is_running_value {
                assert!(!written.contains(name), "phase {} rewrites {}", t, name);
            }
        }
        if let Some(position) = output {
            written.push(names[position].clone());
        }
    }
}
