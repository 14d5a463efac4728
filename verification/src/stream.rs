use vstd::prelude::*;

use crate::error::StreamError;
use crate::key::AccountKey;

verus! {

/// Shortest name of a stream, in bytes.
pub const MIN_NAME_LENGTH: usize = 4;

/// Longest name of a stream, in bytes.
pub const MAX_NAME_LENGTH: usize = 32;

#[derive(Clone, Copy, Debug, PartialEq, Eq, Structural)]
pub enum StreamStatus {
    Active,
    Ended,
    Cancelled,
}

#[derive(Clone, Copy, Debug, PartialEq, Eq)]
pub enum StreamType {
    Prepaid { min_duration: u64 },
    Live,
    Conditional { min_amount: Option<u64>, unlock_time: Option<i64> },
}

/// A stream that collects pledges and pays them out.
#[derive(Clone, Debug, PartialEq, Eq)]
pub struct StreamState {
    pub host: AccountKey,
    pub stream_name: String,
    pub bump: u8,
    pub mint: AccountKey,
    pub status: StreamStatus,
    pub total_deposited: u64,
    pub total_distributed: u64,
    pub created_at: i64,
    pub start_time: Option<i64>,
    pub end_time: Option<i64>,
    pub stream_type: StreamType,
}

/// What one donor has pledged to one stream.
#[derive(Clone, Copy, Debug, PartialEq, Eq)]
pub struct DonorAccount {
    pub stream: AccountKey,
    pub donor: AccountKey,
    pub amount: u64,
    pub refunded: bool,
    pub bump: u8,
}

/// Notice that a pledge was accepted. `amount` is what the caller has to move
/// from the donor into the stream's custody.
#[derive(Clone, Copy, Debug, PartialEq, Eq)]
pub struct DepositMade {
    pub stream: AccountKey,
    pub donor: AccountKey,
    pub amount: u64,
    pub timestamp: i64,
}

/// Notice that funds were paid out. `amount` is what the caller has to move
/// from the stream's custody to the recipient.
#[derive(Clone, Copy, Debug, PartialEq, Eq)]
pub struct FundsDistributed {
    pub stream: AccountKey,
    pub recipient: AccountKey,
    pub amount: u64,
    pub timestamp: i64,
}

/// Notice that a pledge was returned. `amount` is what the caller has to move
/// from the stream's custody back to the donor.
#[derive(Clone, Copy, Debug, PartialEq, Eq)]
pub struct RefundProcessed {
    pub stream: AccountKey,
    pub donor: AccountKey,
    pub amount: u64,
    pub remaining_balance: u64,
    pub timestamp: i64,
}

/// Length of a name in bytes.
pub open spec fn name_length(name: Seq<char>) -> nat {
    vstd::utf8::encode_utf8(name).len()
}

/// Why a stream is not opened, if it is not. The checks are listed in the
/// order in which they are made.
pub open spec fn opening_rejection(name: Seq<char>, stream_type: StreamType, now: int) -> Option<
    StreamError,
> {
    if name_length(name) < MIN_NAME_LENGTH || name_length(name) > MAX_NAME_LENGTH {
        Some(StreamError::NameLengthInvalid)
    } else {
        match stream_type {
            StreamType::Prepaid { min_duration } => if min_duration == 0 {
                Some(StreamError::InvalidDuration)
            } else {
                None
            },
            StreamType::Conditional { min_amount, unlock_time } => if min_amount == Some(0u64) {
                Some(StreamError::InvalidAmount)
            } else if unlock_time is Some && unlock_time->0 <= now {
                Some(StreamError::InvalidTime)
            } else {
                None
            },
            StreamType::Live => None,
        }
    }
}

/// Why a pledge is refused, if it is.
pub open spec fn deposit_rejection(stream: StreamState, pledged: u64, amount: u64) -> Option<
    StreamError,
> {
    if amount == 0 {
        Some(StreamError::InvalidAmount)
    } else if stream.stream_type is Prepaid && stream.start_time is Some {
        Some(StreamError::StreamAlreadyStarted)
    } else if stream.stream_type is Live && !(stream.status == StreamStatus::Active
        && stream.start_time is Some) {
        Some(StreamError::DepositNotAllowed)
    } else if stream.stream_type is Conditional && stream.status != StreamStatus::Active {
        Some(StreamError::StreamNotActive)
    } else if pledged + amount > u64::MAX || stream.total_deposited + amount > u64::MAX {
        Some(StreamError::MathOverflow)
    } else {
        None
    }
}

/// What a stream holds that was not paid out yet.
pub open spec fn available_balance(stream: StreamState) -> int {
    stream.total_deposited - stream.total_distributed
}

/// Why a refund is refused, if it is.
pub open spec fn refund_rejection(stream: StreamState, donor: DonorAccount, amount: u64) -> Option<
    StreamError,
> {
    if amount == 0 {
        Some(StreamError::InvalidAmount)
    } else if donor.refunded {
        Some(StreamError::AlreadyRefunded)
    } else if amount > donor.amount {
        Some(StreamError::InsufficientFunds)
    } else if stream.status == StreamStatus::Ended {
        Some(StreamError::StreamAlreadyEnded)
    } else if available_balance(stream) < 0 {
        Some(StreamError::MathOverflow)
    } else if available_balance(stream) < amount {
        Some(StreamError::InsufficientFunds)
    } else {
        None
    }
}

/// Why the rules of a stream's type keep it from paying out, if they do.
pub open spec fn type_rejection(stream: StreamState, now: int) -> Option<StreamError> {
    match stream.stream_type {
        StreamType::Prepaid { min_duration } => if stream.start_time is None {
            Some(StreamError::StreamNotStarted)
        } else if now - stream.start_time->0 < i64::MIN || now - stream.start_time->0
            > i64::MAX {
            Some(StreamError::MathOverflow)
        } else if now - stream.start_time->0 < min_duration {
            Some(StreamError::DurationNotMet)
        } else {
            None
        },
        StreamType::Live => None,
        StreamType::Conditional { min_amount, unlock_time } => if min_amount is Some
            && stream.total_deposited < min_amount->0 {
            Some(StreamError::AmountNotMet)
        } else if unlock_time is Some && now < unlock_time->0 {
            Some(StreamError::TimeLocked)
        } else {
            None
        },
    }
}

/// Why a payout is refused, if it is. The checks are listed in the order in
/// which they are made.
pub open spec fn distribution_rejection(
    stream: StreamState,
    host: AccountKey,
    amount: u64,
    now: int,
) -> Option<StreamError> {
    if amount == 0 {
        Some(StreamError::InvalidAmount)
    } else if stream.host != host {
        Some(StreamError::Unauthorized)
    } else if stream.status != StreamStatus::Active {
        Some(StreamError::StreamNotActive)
    } else if type_rejection(stream, now) is Some {
        type_rejection(stream, now)
    } else if stream.end_time is Some && now < stream.end_time->0 {
        Some(StreamError::StreamStillLocked)
    } else if available_balance(stream) < 0 {
        Some(StreamError::MathOverflow)
    } else if available_balance(stream) < amount {
        Some(StreamError::InsufficientFunds)
    } else {
        None
    }
}

/// The records that opening a stream touches.
#[derive(Clone, Debug, PartialEq, Eq)]
pub struct Initialize {
    pub host: AccountKey,
    pub mint: AccountKey,
    pub stream: StreamState,
}

impl Initialize {
    /// Opens a stream, or refuses and changes nothing.
    pub fn initialize(
        &mut self,
        name: String,
        stream_type: StreamType,
        end_time: Option<i64>,
        bump: u8,
        now: i64,
    ) -> (res: Result<(), StreamError>)
        ensures
            final(self).host == old(self).host,
            final(self).mint == old(self).mint,
            match res {
                Ok(()) => {
                    &&& opening_rejection(name@, stream_type, now as int) is None
                    &&& final(self).stream == (StreamState {
                        host: old(self).host,
                        stream_name: name,
                        bump,
                        mint: old(self).mint,
                        status: StreamStatus::Active,
                        total_deposited: 0,
                        total_distributed: 0,
                        created_at: now,
                        start_time: None,
                        end_time,
                        stream_type,
                    })
                },
                Err(e) => {
                    &&& opening_rejection(name@, stream_type, now as int) == Some(e)
                    &&& *final(self) == *old(self)
                },
            },
    {
        let length: usize = name.as_str().as_bytes().len();
        if length < MIN_NAME_LENGTH || length > MAX_NAME_LENGTH {
            return Err(StreamError::NameLengthInvalid);
        }
        match stream_type {
            StreamType::Prepaid { min_duration } => {
                if min_duration == 0 {
                    return Err(StreamError::InvalidDuration);
                }
            },
            StreamType::Conditional { min_amount, unlock_time } => {
                match min_amount {
                    Some(amount) => {
                        if amount == 0 {
                            return Err(StreamError::InvalidAmount);
                        }
                    },
                    None => {},
                }
                match unlock_time {
                    Some(time) => {
                        if time <= now {
                            return Err(StreamError::InvalidTime);
                        }
                    },
                    None => {},
                }
            },
            StreamType::Live => {},
        }
        self.stream = StreamState {
            host: self.host,
            stream_name: name,
            bump,
            mint: self.mint,
            status: StreamStatus::Active,
            total_deposited: 0,
            total_distributed: 0,
            created_at: now,
            start_time: None,
            end_time,
            stream_type,
        };
        Ok(())
    }
}

/// The records that a pledge touches.
#[derive(Clone, Debug, PartialEq, Eq)]
pub struct Deposit {
    pub donor: AccountKey,
    pub stream_key: AccountKey,
    pub stream: StreamState,
    pub donor_account: DonorAccount,
}

impl Deposit {
    /// Accepts a pledge, or refuses it and changes nothing.
    ///
    /// The donor's record is rewritten for this stream and this donor and
    /// counts as not refunded again. The stream's running total grows by the
    /// pledge.
    pub fn deposit(&mut self, amount: u64, bump: u8, now: i64) -> (res: Result<
        DepositMade,
        StreamError,
    >)
        ensures
            final(self).donor == old(self).donor,
            final(self).stream_key == old(self).stream_key,
            old(self).stream.total_distributed <= old(self).stream.total_deposited
                ==> final(self).stream.total_distributed <= final(self).stream.total_deposited,
            match res {
                Ok(notice) => {
                    &&& deposit_rejection(old(self).stream, old(self).donor_account.amount, amount)
                        is None
                    &&& final(self).donor_account == (DonorAccount {
                        stream: old(self).stream_key,
                        donor: old(self).donor,
                        amount: (old(self).donor_account.amount + amount) as u64,
                        refunded: false,
                        bump,
                    })
                    &&& final(self).stream == (StreamState {
                        total_deposited: (old(self).stream.total_deposited + amount) as u64,
                        ..old(self).stream
                    })
                    &&& final(self).stream.total_deposited == old(self).stream.total_deposited
                        + amount
                    &&& notice == (DepositMade {
                        stream: old(self).stream_key,
                        donor: old(self).donor,
                        amount,
                        timestamp: now,
                    })
                },
                Err(e) => {
                    &&& deposit_rejection(old(self).stream, old(self).donor_account.amount, amount)
                        == Some(e)
                    &&& *final(self) == *old(self)
                },
            },
    {
        if amount == 0 {
            return Err(StreamError::InvalidAmount);
        }
        match self.stream.stream_type {
            StreamType::Prepaid { min_duration: _ } => {
                if self.stream.start_time.is_some() {
                    return Err(StreamError::StreamAlreadyStarted);
                }
            },
            StreamType::Live => {
                if !(self.stream.status == StreamStatus::Active && self.stream.start_time.is_some()) {
                    return Err(StreamError::DepositNotAllowed);
                }
            },
            StreamType::Conditional { min_amount: _, unlock_time: _ } => {
                if self.stream.status != StreamStatus::Active {
                    return Err(StreamError::StreamNotActive);
                }
            },
        }
        let pledged: u64 = match self.donor_account.amount.checked_add(amount) {
            Some(v) => v,
            None => {
                return Err(StreamError::MathOverflow);
            },
        };
        let total: u64 = match self.stream.total_deposited.checked_add(amount) {
            Some(v) => v,
            None => {
                return Err(StreamError::MathOverflow);
            },
        };
        self.donor_account = DonorAccount {
            stream: self.stream_key,
            donor: self.donor,
            amount: pledged,
            refunded: false,
            bump,
        };
        self.stream.total_deposited = total;
        Ok(DepositMade { stream: self.stream_key, donor: self.donor, amount, timestamp: now })
    }
}

/// The records that a refund touches.
#[derive(Clone, Debug, PartialEq, Eq)]
pub struct Refund {
    pub donor: AccountKey,
    pub initiator: AccountKey,
    pub stream_key: AccountKey,
    pub stream: StreamState,
    pub donor_account: DonorAccount,
}

impl Refund {
    /// Returns part of a pledge, or refuses and changes nothing. A donor whose
    /// pledge is returned in full counts as refunded.
    pub fn refund(&mut self, amount: u64, now: i64) -> (res: Result<RefundProcessed, StreamError>)
        ensures
            final(self).donor == old(self).donor,
            final(self).initiator == old(self).initiator,
            final(self).stream_key == old(self).stream_key,
            old(self).stream.total_distributed <= old(self).stream.total_deposited
                ==> final(self).stream.total_distributed <= final(self).stream.total_deposited,
            match res {
                Ok(notice) => {
                    &&& refund_rejection(old(self).stream, old(self).donor_account, amount) is None
                    &&& final(self).donor_account == (DonorAccount {
                        amount: (old(self).donor_account.amount - amount) as u64,
                        refunded: old(self).donor_account.amount == amount,
                        ..old(self).donor_account
                    })
                    &&& final(self).stream == (StreamState {
                        total_deposited: (old(self).stream.total_deposited - amount) as u64,
                        ..old(self).stream
                    })
                    &&& notice == (RefundProcessed {
                        stream: old(self).stream_key,
                        donor: old(self).donor,
                        amount,
                        remaining_balance: (old(self).donor_account.amount - amount) as u64,
                        timestamp: now,
                    })
                },
                Err(e) => {
                    &&& refund_rejection(old(self).stream, old(self).donor_account, amount) == Some(
                        e,
                    )
                    &&& *final(self) == *old(self)
                },
            },
    {
        if amount == 0 {
            return Err(StreamError::InvalidAmount);
        }
        if self.donor_account.refunded {
            return Err(StreamError::AlreadyRefunded);
        }
        if amount > self.donor_account.amount {
            return Err(StreamError::InsufficientFunds);
        }
        if self.stream.status == StreamStatus::Ended {
            return Err(StreamError::StreamAlreadyEnded);
        }
        let available: u64 = match self.stream.total_deposited.checked_sub(
            self.stream.total_distributed,
        ) {
            Some(v) => v,
            None => {
                return Err(StreamError::MathOverflow);
            },
        };
        if available < amount {
            return Err(StreamError::InsufficientFunds);
        }
        let remaining: u64 = self.donor_account.amount - amount;
        self.donor_account.amount = remaining;
        if remaining == 0 {
            self.donor_account.refunded = true;
        }
        self.stream.total_deposited = self.stream.total_deposited - amount;
        Ok(
            RefundProcessed {
                stream: self.stream_key,
                donor: self.donor,
                amount,
                remaining_balance: remaining,
                timestamp: now,
            },
        )
    }
}

/// The records that a payout touches.
#[derive(Clone, Debug, PartialEq, Eq)]
pub struct Distribute {
    pub host: AccountKey,
    pub recipient: AccountKey,
    pub stream_key: AccountKey,
    pub stream: StreamState,
}

impl Distribute {
    /// Pays funds of the stream out to a recipient, or refuses and changes
    /// nothing.
    pub fn distribute(&mut self, amount: u64, now: i64) -> (res: Result<
        FundsDistributed,
        StreamError,
    >)
        ensures
            final(self).host == old(self).host,
            final(self).recipient == old(self).recipient,
            final(self).stream_key == old(self).stream_key,
            match res {
                Ok(notice) => {
                    &&& distribution_rejection(old(self).stream, old(self).host, amount, now as int)
                        is None
                    &&& final(self).stream == (StreamState {
                        total_distributed: (old(self).stream.total_distributed + amount) as u64,
                        ..old(self).stream
                    })
                    &&& final(self).stream.total_distributed <= final(self).stream.total_deposited
                    &&& notice == (FundsDistributed {
                        stream: old(self).stream_key,
                        recipient: old(self).recipient,
                        amount,
                        timestamp: now,
                    })
                },
                Err(e) => {
                    &&& distribution_rejection(old(self).stream, old(self).host, amount, now as int)
                        == Some(e)
                    &&& *final(self) == *old(self)
                },
            },
    {
        if amount == 0 {
            return Err(StreamError::InvalidAmount);
        }
        if !self.stream.host.equals(&self.host) {
            return Err(StreamError::Unauthorized);
        }
        if self.stream.status != StreamStatus::Active {
            return Err(StreamError::StreamNotActive);
        }
        match self.stream.stream_type {
            StreamType::Prepaid { min_duration } => {
                let started: i64 = match self.stream.start_time {
                    Some(time) => time,
                    None => {
                        return Err(StreamError::StreamNotStarted);
                    },
                };
                let elapsed: i64 = match now.checked_sub(started) {
                    Some(v) => v,
                    None => {
                        return Err(StreamError::MathOverflow);
                    },
                };
                if (elapsed as i128) < (min_duration as i128) {
                    return Err(StreamError::DurationNotMet);
                }
            },
            StreamType::Live => {},
            StreamType::Conditional { min_amount, unlock_time } => {
                match min_amount {
                    Some(min) => {
                        if self.stream.total_deposited < min {
                            return Err(StreamError::AmountNotMet);
                        }
                    },
                    None => {},
                }
                match unlock_time {
                    Some(time) => {
                        if now < time {
                            return Err(StreamError::TimeLocked);
                        }
                    },
                    None => {},
                }
            },
        }
        match self.stream.end_time {
            Some(end_time) => {
                if now < end_time {
                    return Err(StreamError::StreamStillLocked);
                }
            },
            None => {},
        }
        let available: u64 = match self.stream.total_deposited.checked_sub(
            self.stream.total_distributed,
        ) {
            Some(v) => v,
            None => {
                return Err(StreamError::MathOverflow);
            },
        };
        if available < amount {
            return Err(StreamError::InsufficientFunds);
        }
        self.stream.total_distributed = self.stream.total_distributed + amount;
        Ok(
            FundsDistributed {
                stream: self.stream_key,
                recipient: self.recipient,
                amount,
                timestamp: now,
            },
        )
    }
}

/// The records that starting a stream touches.
#[derive(Clone, Debug, PartialEq, Eq)]
pub struct StartStream {
    pub host: AccountKey,
    pub stream: StreamState,
}

impl StartStream {
    /// Starts an active stream that has not started yet.
    pub fn start_stream(&mut self, now: i64) -> (res: Result<(), StreamError>)
        ensures
            final(self).host == old(self).host,
            match res {
                Ok(()) => {
                    &&& old(self).stream.status == StreamStatus::Active
                    &&& old(self).stream.start_time is None
                    &&& final(self).stream == (StreamState {
                        start_time: Some(now),
                        ..old(self).stream
                    })
                },
                Err(e) => {
                    &&& *final(self) == *old(self)
                    &&& e == (if old(self).stream.status != StreamStatus::Active {
                        StreamError::StreamNotActive
                    } else {
                        StreamError::StreamAlreadyStarted
                    })
                    &&& old(self).stream.status != StreamStatus::Active || old(
                        self,
                    ).stream.start_time is Some
                },
            },
    {
        if self.stream.status != StreamStatus::Active {
            return Err(StreamError::StreamNotActive);
        }
        if self.stream.start_time.is_some() {
            return Err(StreamError::StreamAlreadyStarted);
        }
        self.stream.start_time = Some(now);
        Ok(())
    }
}

/// The records that completing a stream touches.
#[derive(Clone, Debug, PartialEq, Eq)]
pub struct CompleteStream {
    pub host: AccountKey,
    pub stream: StreamState,
}

impl CompleteStream {
    /// Ends an active stream that has started.
    pub fn complete_stream(&mut self, now: i64) -> (res: Result<(), StreamError>)
        ensures
            final(self).host == old(self).host,
            match res {
                Ok(()) => {
                    &&& old(self).stream.status == StreamStatus::Active
                    &&& old(self).stream.start_time is Some
                    &&& final(self).stream == (StreamState {
                        status: StreamStatus::Ended,
                        end_time: Some(now),
                        ..old(self).stream
                    })
                },
                Err(e) => {
                    &&& *final(self) == *old(self)
                    &&& e == (if old(self).stream.status != StreamStatus::Active {
                        StreamError::StreamNotActive
                    } else {
                        StreamError::StreamNotStarted
                    })
                    &&& old(self).stream.status != StreamStatus::Active || old(
                        self,
                    ).stream.start_time is None
                },
            },
    {
        if self.stream.status != StreamStatus::Active {
            return Err(StreamError::StreamNotActive);
        }
        if self.stream.start_time.is_none() {
            return Err(StreamError::StreamNotStarted);
        }
        self.stream.status = StreamStatus::Ended;
        self.stream.end_time = Some(now);
        Ok(())
    }
}

/// The records that updating a stream touches.
#[derive(Clone, Debug, PartialEq, Eq)]
pub struct UpdateStream {
    pub host: AccountKey,
    pub stream: StreamState,
}

impl UpdateStream {
    /// Sets the end time, the status, or both; what is not given stays.
    pub fn update_stream(&mut self, new_end_time: Option<i64>, new_status: Option<StreamStatus>) -> (res:
        Result<(), StreamError>)
        ensures
            res is Ok,
            final(self).host == old(self).host,
            final(self).stream == (StreamState {
                end_time: if new_end_time is Some {
                    new_end_time
                } else {
                    old(self).stream.end_time
                },
                status: if new_status is Some {
                    new_status->0
                } else {
                    old(self).stream.status
                },
                ..old(self).stream
            }),
    {
        match new_end_time {
            Some(end_time) => {
                self.stream.end_time = Some(end_time);
            },
            None => {},
        }
        match new_status {
            Some(status) => {
                self.stream.status = status;
            },
            None => {},
        }
        Ok(())
    }
}

} // verus!
