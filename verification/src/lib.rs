//! High-throughput fungible-token transfer service: admission, batching,
//! signing-key pool, and status-store logic, with verified contracts.

pub mod admission;
pub mod codec;
pub mod digits;
pub mod keypool;
pub mod queries;
pub mod record_json;
pub mod store;
pub mod text;
pub mod types;
pub mod worker;

use vstd::prelude::*;

verus! {

/// The gas attached to each `ft_transfer` action (30 Tgas).
pub const FT_TRANSFER_GAS: u64 = 30_000_000_000_000;

/// The deposit attached to each `ft_transfer` action: one yoctoNEAR.
pub const FT_TRANSFER_DEPOSIT_YOCTO: u128 = 1;

} // verus!
