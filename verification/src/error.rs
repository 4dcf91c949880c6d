//! Error types of the contract surface and of the step engine.

use vstd::prelude::*;

verus! {

/// Errors that the contract reports to its host as a 16-bit user code.
///
/// The named variants own the top of the 16-bit range; a contract built on
/// this library reports further errors through [`Error::User`] with a code
/// below that reserved range.
#[derive(Clone, Copy, Debug, PartialEq, Eq, Structural)]
pub enum Error {
    /// The contract was called from within an invalid context.
    InvalidContext,
    /// Spender does not have enough balance.
    InsufficientBalance,
    /// Spender does not have enough allowance approved.
    InsufficientAllowance,
    /// Operation would cause an integer overflow.
    Overflow,
    /// Token addresses are identical.
    IdenticalAddresses,
    /// Token address is null.
    ZeroAddress,
    /// At least one of the pool's reserves is empty.
    InsufficientLiquidity,
    /// Input amount for the swap is null.
    InsufficientInputAmount,
    /// Output amount for the swap is null.
    InsufficientOutputAmount,
    /// Given amount is null.
    InsufficientAmount,
    /// The path between two tokens is shorter than two.
    InvalidPath,
    /// The deadline has passed.
    Expired,
    /// The amount of the first token is below the minimum requested.
    InsufficientAAmount,
    /// The amount of the second token is below the minimum requested.
    InsufficientBAmount,
    /// The input amount required for the swap exceeds the allowed maximum.
    ExcessiveInputAmount,
    /// The caller tries to withdraw more than its balance.
    ExcessiveAmount,
    /// The pair exists already.
    PairExists,
    /// The caller is not authorized to call the function.
    Forbidden,
    /// The liquidity minted equals zero.
    InsufficientLiquidityMinted,
    /// The liquidity to be burned equals zero.
    InsufficientLiquidityBurned,
    /// The contract is locked.
    Locked,
    /// The recipient of a swap is one of the pair's token addresses.
    InvalidTo,
    /// The product of the balances fell below the product of the reserves.
    K,
    /// The signature given for a permit is wrong.
    InvalidSignature,
    /// Tokens cannot be minted to the zero hash address.
    CannotMintToZeroHash,
    /// Tokens cannot be burned from the zero hash address.
    CannotBurnFromZeroHash,
    /// The amount to burn exceeds the owner's balance.
    BurnAmountExceedsBalance,
    /// At least one of the pair's token reserves equals zero.
    NoReserves,
    /// The update period has not elapsed since the last update.
    PeriodNotElapsed,
    /// The token address given is not valid.
    InvalidToken,
    /// The name given for the deposit entry point is not valid.
    InvalidDepositEntryPointName,
    /// An error of the contract's own, with its code.
    User(u16),
}

/// The lowest code that a named variant of [`Error`] owns.
pub const RESERVED_CODES_START: u16 = 65505;

impl Error {
    /// The position of a named variant in the declaration, counted from zero;
    /// `None` for [`Error::User`].
    pub open spec fn ordinal(self) -> Option<nat> {
        match self {
            Error::InvalidContext => Some(0),
            Error::InsufficientBalance => Some(1),
            Error::InsufficientAllowance => Some(2),
            Error::Overflow => Some(3),
            Error::IdenticalAddresses => Some(4),
            Error::ZeroAddress => Some(5),
            Error::InsufficientLiquidity => Some(6),
            Error::InsufficientInputAmount => Some(7),
            Error::InsufficientOutputAmount => Some(8),
            Error::InsufficientAmount => Some(9),
            Error::InvalidPath => Some(10),
            Error::Expired => Some(11),
            Error::InsufficientAAmount => Some(12),
            Error::InsufficientBAmount => Some(13),
            Error::ExcessiveInputAmount => Some(14),
            Error::ExcessiveAmount => Some(15),
            Error::PairExists => Some(16),
            Error::Forbidden => Some(17),
            Error::InsufficientLiquidityMinted => Some(18),
            Error::InsufficientLiquidityBurned => Some(19),
            Error::Locked => Some(20),
            Error::InvalidTo => Some(21),
            Error::K => Some(22),
            Error::InvalidSignature => Some(23),
            Error::CannotMintToZeroHash => Some(24),
            Error::CannotBurnFromZeroHash => Some(25),
            Error::BurnAmountExceedsBalance => Some(26),
            Error::NoReserves => Some(27),
            Error::PeriodNotElapsed => Some(28),
            Error::InvalidToken => Some(29),
            Error::InvalidDepositEntryPointName => Some(30),
            Error::User(_) => None,
        }
    }

    /// The code of an error: a named variant counts down from the largest
    /// 16-bit value by its ordinal, a user error carries its own code.
    pub open spec fn code_spec(self) -> int {
        match self {
            Error::User(code) => code as int,
            _ => 65535 - self.ordinal().unwrap(),
        }
    }

    /// The 16-bit code under which the host sees this error.
    pub fn code(&self) -> (code: u16)
        ensures
            code == self.code_spec(),
    {
        match self {
            Error::InvalidContext => u16::MAX,
            Error::InsufficientBalance => u16::MAX - 1,
            Error::InsufficientAllowance => u16::MAX - 2,
            Error::Overflow => u16::MAX - 3,
            Error::IdenticalAddresses => u16::MAX - 4,
            Error::ZeroAddress => u16::MAX - 5,
            Error::InsufficientLiquidity => u16::MAX - 6,
            Error::InsufficientInputAmount => u16::MAX - 7,
            Error::InsufficientOutputAmount => u16::MAX - 8,
            Error::InsufficientAmount => u16::MAX - 9,
            Error::InvalidPath => u16::MAX - 10,
            Error::Expired => u16::MAX - 11,
            Error::InsufficientAAmount => u16::MAX - 12,
            Error::InsufficientBAmount => u16::MAX - 13,
            Error::ExcessiveInputAmount => u16::MAX - 14,
            Error::ExcessiveAmount => u16::MAX - 15,
            Error::PairExists => u16::MAX - 16,
            Error::Forbidden => u16::MAX - 17,
            Error::InsufficientLiquidityMinted => u16::MAX - 18,
            Error::InsufficientLiquidityBurned => u16::MAX - 19,
            Error::Locked => u16::MAX - 20,
            Error::InvalidTo => u16::MAX - 21,
            Error::K => u16::MAX - 22,
            Error::InvalidSignature => u16::MAX - 23,
            Error::CannotMintToZeroHash => u16::MAX - 24,
            Error::CannotBurnFromZeroHash => u16::MAX - 25,
            Error::BurnAmountExceedsBalance => u16::MAX - 26,
            Error::NoReserves => u16::MAX - 27,
            Error::PeriodNotElapsed => u16::MAX - 28,
            Error::InvalidToken => u16::MAX - 29,
            Error::InvalidDepositEntryPointName => u16::MAX - 30,
            Error::User(code) => *code,
        }
    }
}

/// Named variants keep to the reserved range, and no two of them share a code.
pub proof fn lemma_named_codes_distinct(a: Error, b: Error)
    requires
        a.ordinal() is Some,
        b.ordinal() is Some,
    ensures
        RESERVED_CODES_START <= a.code_spec() <= u16::MAX,
        a.code_spec() == b.code_spec() ==> a == b,
{
}

/// A user error below the reserved range never collides with a named variant.
pub proof fn lemma_user_codes_apart(code: u16, named: Error)
    requires
        code < RESERVED_CODES_START,
        named.ordinal() is Some,
    ensures
        Error::User(code).code_spec() != named.code_spec(),
{
}

/// Why a step of the pairing computation was rejected.
#[derive(Clone, Copy, Debug, PartialEq, Eq, Structural)]
pub enum StepError {
    /// An input or a stored value is not the canonical encoding of a field
    /// element: it has the wrong length or a coefficient out of range.
    Decode,
    /// The phase, an index or the list of slot names lies outside the known
    /// schedule.
    InvalidStep,
    /// A value that must be inverted is zero.
    NotInvertible,
    /// The terminal comparison failed: the proof is not valid.
    VerificationFailed,
}

impl StepError {
    /// The user code under which a rejected step is reported.
    pub open spec fn user_code_spec(self) -> u16 {
        match self {
            StepError::Decode => 1,
            StepError::InvalidStep => 2,
            StepError::NotInvertible => 3,
            StepError::VerificationFailed => 4,
        }
    }

    /// The error that the contract reports for a rejected step: a user error
    /// whose code tells the four causes apart.
    pub fn to_error(&self) -> (e: Error)
        ensures
            e == Error::User(self.user_code_spec()),
    {
        match self {
            StepError::Decode => Error::User(1),
            StepError::InvalidStep => Error::User(2),
            StepError::NotInvertible => Error::User(3),
            StepError::VerificationFailed => Error::User(4),
        }
    }
}

} // verus!
