//! Prediction-market engine on top of a pledge ledger.
//!
//! Participants buy outcome shares priced by a constant-product market maker,
//! a stake-weighted validator committee votes on the true outcome, and the
//! pooled funds are paid out to the holders of the winning outcome, net of a
//! fee. Every operation here is a pure transition on the records it is handed:
//! moving tokens, reading the clock and talking to the randomness oracle are the
//! caller's business.

pub mod error;
pub mod key;
pub mod state;
pub mod amm;
pub mod events;
pub mod market;
pub mod betting;
pub mod payout;
pub mod consensus;
pub mod randomness;
pub mod stream;
