use stepwise_pairing::error::{Error, StepError, RESERVED_CODES_START};

fn named() -> Vec<Error> {
    vec![
        Error::InvalidContext,
        Error::InsufficientBalance,
        Error::InsufficientAllowance,
        Error::Overflow,
        Error::IdenticalAddresses,
        Error::ZeroAddress,
        Error::InsufficientLiquidity,
        Error::InsufficientInputAmount,
        Error::InsufficientOutputAmount,
        Error::InsufficientAmount,
        Error::InvalidPath,
        Error::Expired,
        Error::InsufficientAAmount,
        Error::InsufficientBAmount,
        Error::ExcessiveInputAmount,
        Error::ExcessiveAmount,
        Error::PairExists,
        Error::Forbidden,
        Error::InsufficientLiquidityMinted,
        Error::InsufficientLiquidityBurned,
        Error::Locked,
        Error::InvalidTo,
        Error::K,
        Error::InvalidSignature,
        Error::CannotMintToZeroHash,
        Error::CannotBurnFromZeroHash,
        Error::BurnAmountExceedsBalance,
        Error::NoReserves,
        Error::PeriodNotElapsed,
        Error::InvalidToken,
        Error::InvalidDepositEntryPointName,
    ]
}

#[test]
fn named_errors_count_down_from_the_top() {
    for (ordinal, error) in named().iter().enumerate() {
        assert_eq!(error.code(), u16::MAX - ordinal as u16);
    }
}

#[test]
fn some_codes_by_number() {
    assert_eq!(Error::InvalidContext.code(), 65535);
    assert_eq!(Error::InsufficientBalance.code(), 65534);
    assert_eq!(Error::Overflow.code(), 65532);
    assert_eq!(Error::Expired.code(), 65524);
    assert_eq!(Error::K.code(), 65513);
    assert_eq!(Error::InvalidDepositEntryPointName.code(), 65505);
}

#[test]
fn named_codes_are_distinct_and_reserved() {
    let codes: Vec<u16> = named().iter().map(|e| e.code()).collect();
    assert_eq!(codes.len(), 31);
    for (i, a) in codes.iter().enumerate() {
        assert!(*a >= RESERVED_CODES_START);
        for b in &codes[i + 1..] {
            assert_ne!(a, b);
        }
    }
    assert_eq!(RESERVED_CODES_START, 65505);
}

#[test]
fn user_errors_carry_their_code() {
    for code in [0u16, 1, 42, 65504, 65505, u16::MAX] {
        assert_eq!(Error::User(code).code(), code);
    }
}

#[test]
fn rejected_steps_become_user_errors() {
    assert_eq!(StepError::Decode.to_error(), Error::User(1));
    assert_eq!(StepError::InvalidStep.to_error(), Error::User(2));
    assert_eq!(StepError::NotInvertible.to_error(), Error::User(3));
    assert_eq!(StepError::VerificationFailed.to_error(), Error::User(4));
    assert_eq!(StepError::VerificationFailed.to_error().code(), 4);
}
