//! Offline coordinator for jointly authorizing a payment from a pooled
//! multi-signature (P2SH) address.
//!
//! The crate holds the logic that is worth getting right once and for all:
//! greedy selection of unspent outputs, construction of the candidate
//! transaction's outputs (change and accrued-interest bonus included, in
//! integer minor units throughout), the partial-signature state machine that
//! is handed from signer to signer, and the byte-exact codec for the hand-off
//! artifact that carries that state between machines.
//!
//! Everything that talks to the outside world — the wallet/node RPC service,
//! the clock, the file system — stays with the caller, which feeds plain
//! values in and carries plain values out.

use vstd::prelude::*;

pub mod types;
pub mod selector;
pub mod builder;
pub mod digits;
pub mod codec;
pub mod coordinator;
pub mod amount;

verus! {

/// Scale between the user-facing decimal coin amount and integer minor units.
pub const MINOR_UNITS_PER_COIN: u64 = 100_000_000;

/// Change below or at this many minor units is forfeited to the network as
/// extra fee instead of being returned in a change output.
pub const DUST_THRESHOLD: u64 = 100;

/// Flat fee, in minor units, absorbed by a multi-signature transaction as
/// network overhead when the outputs are planned.
pub const MULTISIG_FIXED_FEE: u64 = 456;

} // verus!
