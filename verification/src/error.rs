use vstd::prelude::*;

verus! {

/// Every way an operation of the ledger or of the market engine can be refused.
#[derive(Clone, Copy, Debug, PartialEq, Eq, Structural)]
pub enum StreamError {
    InvalidAmount,
    InsufficientFunds,
    MathOverflow,
    StreamNotActive,
    StreamStillLocked,
    AlreadyRefunded,
    InvalidDuration,
    InvalidTime,
    DepositNotAllowed,
    StreamNotStarted,
    StreamAlreadyStarted,
    StreamAlreadyEnded,
    Unauthorized,
    DurationNotMet,
    AmountNotMet,
    TimeLocked,
    NameLengthInvalid,
    InvalidMarketSetup,
    InvalidOutcome,
    MarketResolved,
    BettingClosed,
    MarketNotReady,
    InsufficientValidators,
    InvalidMint,
    InvalidFeePercentage,
    SlippageExceeded,
    MarketNotResolved,
    AlreadyClaimed,
    NoWinnings,
    InvalidResolutionState,
    NotValidator,
    InsufficientStakeForValidation,
    AlreadyVoted,
}

impl StreamError {
    /// The text that describes the error.
    pub open spec fn message_text(self) -> Seq<char> {
        match self {
            StreamError::InvalidAmount => "Amount must be greater than 0"@,
            StreamError::InsufficientFunds => "Insufficient funds"@,
            StreamError::MathOverflow => "Math overflow error"@,
            StreamError::StreamNotActive => "Stream is not active"@,
            StreamError::StreamStillLocked => "Stream is still time-locked"@,
            StreamError::AlreadyRefunded => "Donor has already been refunded"@,
            StreamError::InvalidDuration => "Minimum duration must be greater than 0"@,
            StreamError::InvalidTime => "Unlock time must be in the future"@,
            StreamError::DepositNotAllowed => "Deposits not allowed in current stream state"@,
            StreamError::StreamNotStarted => "Stream has not started yet"@,
            StreamError::StreamAlreadyStarted => "Stream has already started"@,
            StreamError::StreamAlreadyEnded => "Stream has already ended"@,
            StreamError::Unauthorized => "Unauthorized action"@,
            StreamError::DurationNotMet => "Duration not met"@,
            StreamError::AmountNotMet => "Minimum amount not met"@,
            StreamError::TimeLocked => "Stream is time-locked"@,
            StreamError::NameLengthInvalid => "Name must be between 4 and 32 characters"@,
            StreamError::InvalidMarketSetup => "Invalid market setup"@,
            StreamError::InvalidOutcome => "Invalid outcome"@,
            StreamError::MarketResolved => "Market already resolved"@,
            StreamError::BettingClosed => "Betting period closed"@,
            StreamError::MarketNotReady => "Market not ready for resolution"@,
            StreamError::InsufficientValidators => "Insufficient validators"@,
            StreamError::InvalidMint => "Invalid mint for betting market"@,
            StreamError::InvalidFeePercentage => "Invalid fee percentage"@,
            StreamError::SlippageExceeded => "Slippage tolerance exceeded"@,
            StreamError::MarketNotResolved => "Market not resolved"@,
            StreamError::AlreadyClaimed => "Already claimed"@,
            StreamError::NoWinnings => "No winnings to claim"@,
            StreamError::InvalidResolutionState => "Invalid resolution state"@,
            StreamError::NotValidator => "Not a validator"@,
            StreamError::InsufficientStakeForValidation => "Insufficient stake for validation"@,
            StreamError::AlreadyVoted => "Already voted"@,
        }
    }

    /// The text that describes the error.
    pub fn message(&self) -> (text: &'static str)
        ensures
            text@ == self.message_text(),
    {
        match self {
            StreamError::InvalidAmount => "Amount must be greater than 0",
            StreamError::InsufficientFunds => "Insufficient funds",
            StreamError::MathOverflow => "Math overflow error",
            StreamError::StreamNotActive => "Stream is not active",
            StreamError::StreamStillLocked => "Stream is still time-locked",
            StreamError::AlreadyRefunded => "Donor has already been refunded",
            StreamError::InvalidDuration => "Minimum duration must be greater than 0",
            StreamError::InvalidTime => "Unlock time must be in the future",
            StreamError::DepositNotAllowed => "Deposits not allowed in current stream state",
            StreamError::StreamNotStarted => "Stream has not started yet",
            StreamError::StreamAlreadyStarted => "Stream has already started",
            StreamError::StreamAlreadyEnded => "Stream has already ended",
            StreamError::Unauthorized => "Unauthorized action",
            StreamError::DurationNotMet => "Duration not met",
            StreamError::AmountNotMet => "Minimum amount not met",
            StreamError::TimeLocked => "Stream is time-locked",
            StreamError::NameLengthInvalid => "Name must be between 4 and 32 characters",
            StreamError::InvalidMarketSetup => "Invalid market setup",
            StreamError::InvalidOutcome => "Invalid outcome",
            StreamError::MarketResolved => "Market already resolved",
            StreamError::BettingClosed => "Betting period closed",
            StreamError::MarketNotReady => "Market not ready for resolution",
            StreamError::InsufficientValidators => "Insufficient validators",
            StreamError::InvalidMint => "Invalid mint for betting market",
            StreamError::InvalidFeePercentage => "Invalid fee percentage",
            StreamError::SlippageExceeded => "Slippage tolerance exceeded",
            StreamError::MarketNotResolved => "Market not resolved",
            StreamError::AlreadyClaimed => "Already claimed",
            StreamError::NoWinnings => "No winnings to claim",
            StreamError::InvalidResolutionState => "Invalid resolution state",
            StreamError::NotValidator => "Not a validator",
            StreamError::InsufficientStakeForValidation => "Insufficient stake for validation",
            StreamError::AlreadyVoted => "Already voted",
        }
    }
}

} // verus!
