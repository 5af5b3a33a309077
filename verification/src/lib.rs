use vstd::prelude::*;

pub mod blockchain;
pub mod codec;
mod errors;
pub mod store;
pub mod hashing;
pub mod kv;
pub mod merkle;
pub mod node;
pub mod block;
pub mod transaction;
pub mod tx;
pub mod utxoset;

pub use errors::Error;

verus! {

/// Fixed block reward paid by every coinbase transaction.
pub const SUBSIDY: i32 = 100;

} // verus!
