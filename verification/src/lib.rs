//! A reward pool built on self-verifying cryptograms: an authenticated
//! codec that turns structured payloads into tamper-evident, optionally
//! subject-bound, optionally time-boxed tokens, and a claim orchestrator
//! that redeems them — airdrop claims, prize redemption, balance harvests
//! and a probabilistic lucky draw — against shared pool state with
//! exactly-once semantics under reentrancy.
//!
//! The external collaborators (the token ledger, the randomness source, the
//! key vault) act between the orchestrator's phases; their results enter as
//! plain values and every decision over them is made, and proved, here.
use vstd::prelude::*;

pub mod account;
pub mod cbor;
pub mod codec;
pub mod crypto;
pub mod draw;
pub mod ops;
pub mod pool;
pub mod prize;
pub mod types;
pub mod utils;

verus! {

/// Minor units of one whole reward token.
pub const TOKEN_1: u64 = 100_000_000;

/// Minor units of one unit of the settlement currency.
pub const ICP_1: u64 = 100_000_000;

/// Fee the ledger charges for one transfer, in minor units.
pub const TRANS_FEE: u64 = 10_000;

/// Platform time is in nanoseconds; divide by this to get seconds.
pub const SECOND: u64 = 1_000_000_000;

} // verus!
