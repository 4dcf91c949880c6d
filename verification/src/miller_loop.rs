//! The schedule of the Miller loop: which calls a driver makes, in which
//! order, and which sub-step index belongs to each.
//!
//! The loop walks the signed digits of the curve's loop count from the top
//! down. Each call takes one sub-step, and a second one where the digit below
//! the call's position is not zero, so the sub-step index of a call depends
//! on the digits above it. The last call, at position 0, closes the loop.

use vstd::prelude::*;
use crate::error::StepError;

verus! {

/// Number of digits of the loop count.
pub const ATE_LOOP_COUNT_LEN: usize = 65;

const ATE_LOOP_COUNT: [i8; 65] = [
    0, 0, 0, 1, 0, 1, 0, -1, 0, 0, 1, -1, 0, 0, 1, 0, 0, 1, 1, 0, -1, 0, 0, 1, 0, -1, 0, 0, 0, 0, 1,
    1, 1, 0, 0, -1, 0, 0, 1, 0, 0, 0, 0, 0, -1, 0, 0, 1, 1, 0, 0, -1, 0, 0, 0, 1, 1, 0, -1, 0, 0, 1,
    0, 1, 1,
];

/// The signed digits of the loop count of BN254, least significant first.
pub open spec fn ate_loop_count() -> Seq<int> {
    seq![
        0int, 0, 0, 1, 0, 1, 0, -1, 0, 0, 1, -1, 0, 0, 1, 0, 0, 1, 1, 0, -1, 0, 0, 1, 0, -1, 0, 0,
        0, 0, 1, 1, 1, 0, 0, -1, 0, 0, 1, 0, 0, 0, 0, 0, -1, 0, 0, 1, 1, 0, 0, -1, 0, 0, 0, 1, 1, 0,
        -1, 0, 0, 1, 0, 1, 1,
    ]
}

/// The number of digits that are not zero among positions `lo` up to, but
/// not including, `hi`.
pub open spec fn nonzero_digits(lo: nat, hi: nat) -> nat
    decreases hi - lo,
{
    if lo >= hi {
        0
    } else {
        (if ate_loop_count()[lo as int] != 0 {
            1nat
        } else {
            0nat
        }) + nonzero_digits(lo + 1, hi)
    }
}

/// The sub-step index of the call at position `i`: one sub-step for every
/// call before it, and one more for every digit that is not zero between `i`
/// and the top.
pub open spec fn step_index(i: nat) -> nat {
    (64 - i) as nat + nonzero_digits(i, 64)
}

/// The calls of one Miller loop in order, each with its position and its
/// sub-step index: positions run from the top down to 0.
pub open spec fn schedule_spec() -> Seq<(u8, u8)> {
    Seq::new(65, |k: int| ((64 - k) as u8, step_index((64 - k) as nat) as u8))
}

/// Digit `i` of the loop count.
pub fn ate_digit(i: usize) -> (d: i8)
    requires
        i < 65,
    ensures
        d == ate_loop_count()[i as int],
{
    ATE_LOOP_COUNT[i]
}

/// No position has a sub-step index beyond twice its distance from the top.
pub proof fn lemma_step_index_bound(i: nat)
    requires
        i <= 64,
    ensures
        nonzero_digits(i, 64) <= 64 - i,
        step_index(i) <= 2 * (64 - i),
    decreases 64 - i,
{
    if i < 64 {
        lemma_step_index_bound(i + 1);
    }
}

/// The sub-step index that belongs to position `i`, or `None` where `i` is no
/// position of the loop.
pub fn miller_step_index(i: u8) -> (r: Option<u8>)
    ensures
        r == (if i <= 64 {
            Some(step_index(i as nat) as u8)
        } else {
            None
        }),
        i <= 64 ==> step_index(i as nat) <= 128,
{
    if i > 64 {
        return None;
    }
    let mut p: u8 = 64;
    let mut j: u8 = 0;
    while p > i
        invariant
            i <= p <= 64,
            j == step_index(p as nat),
            j <= 2 * (64 - p),
        decreases p,
    {
        p = p - 1;
        j = j + 1;
        if ate_digit(p as usize) != 0 {
            j = j + 1;
        }
    }
    Some(j)
}

/// The calls of one Miller loop, in the order in which a driver makes them.
pub fn miller_schedule() -> (calls: Vec<(u8, u8)>)
    ensures
        calls@ == schedule_spec(),
{
    let mut calls: Vec<(u8, u8)> = Vec::new();
    let mut i: u8 = 64;
    let mut j: u8 = 0;
    while i >= 1
        invariant
            i <= 64,
            j == step_index(i as nat),
            j <= 2 * (64 - i),
            calls@.len() == 64 - i,
            forall|k: int| 0 <= k < calls@.len() ==> calls@[k] == schedule_spec()[k],
        decreases i,
    {
        calls.push((i, j));
        j = j + 1;
        if ate_digit((i - 1) as usize) != 0 {
            j = j + 1;
        }
        i = i - 1;
    }
    calls.push((0, j));
    assert(calls@ =~= schedule_spec());
    calls
}

/// Whether a call belongs to the schedule: accepted exactly where `i` is a
/// position of the loop and `j` its sub-step index, an invalid step
/// otherwise.
pub fn check_miller_step(i: u8, j: u8) -> (r: Result<(), StepError>)
    ensures
        r == (if i <= 64 && j == step_index(i as nat) {
            Ok::<(), StepError>(())
        } else {
            Err::<(), StepError>(StepError::InvalidStep)
        }),
{
    match miller_step_index(i) {
        Some(expected) => {
            if j == expected {
                Ok(())
            } else {
                Err(StepError::InvalidStep)
            }
        },
        None => Err(StepError::InvalidStep),
    }
}

/// A loop count of `L` digits gives `L` calls, the last of them at position
/// 0, and as many sub-steps as `L` plus the number of digits below the top
/// that are not zero. For BN254 that is 65 calls and 90 sub-steps.
pub proof fn lemma_step_count()
    ensures
        ate_loop_count().len() == 65,
        schedule_spec().len() == ate_loop_count().len(),
        schedule_spec()[0] == (64u8, 0u8),
        schedule_spec()[64].0 == 0,
        schedule_spec()[64].1 + 1 == ate_loop_count().len() + nonzero_digits(0, 64),
        nonzero_digits(0, 64) == 25,
{
    lemma_step_index_bound(0);
    lemma_nonzero_digits();
}

/// From one call to the next the sub-step index advances by one, and by two
/// where the digit below the earlier call's position is not zero.
pub proof fn lemma_step_advance(i: nat)
    requires
        1 <= i <= 64,
    ensures
        step_index((i - 1) as nat) == step_index(i) + (if ate_loop_count()[i - 1] != 0 {
            2nat
        } else {
            1nat
        }),
{
}

/// Twenty-five digits below the top are not zero.
proof fn lemma_nonzero_digits()
    ensures
        nonzero_digits(0, 64) == 25,
{
    reveal_with_fuel(nonzero_digits, 17);
    assert(nonzero_digits(64, 64) == 0);
    assert(nonzero_digits(48, 64) == 7 + nonzero_digits(64, 64));
    assert(nonzero_digits(32, 64) == 5 + nonzero_digits(48, 64));
    assert(nonzero_digits(16, 64) == 7 + nonzero_digits(32, 64));
    assert(nonzero_digits(0, 64) == 6 + nonzero_digits(16, 64));
}

} // verus!
