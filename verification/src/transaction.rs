//! The immutable transaction input record and its time-window key.

use vstd::prelude::*;
use crate::numeric::parse_u128_or_zero;

verus! {

/// Width of one clustering window, in seconds.
pub const WINDOW_SECONDS: u64 = 120;

/// How long a bucket is retained, in seconds, measured against the current
/// time supplied to `insert`.
pub const RETENTION_SECONDS: u64 = 600;

/// One blockchain transaction as supplied by the caller.
///
/// `value`, `gas_price` and `gas_limit` are decimal-digit strings of
/// arbitrary width (full precision, no floating point); `data` is an opaque
/// hex/byte string of which only the length is read; `timestamp` is in
/// seconds, externally supplied; `block_number` is absent while pending.
pub struct Transaction {
    pub hash: String,
    pub from: String,
    pub to: String,
    pub value: String,
    pub gas_price: String,
    pub gas_limit: String,
    pub nonce: u64,
    pub data: String,
    pub timestamp: u64,
    pub block_number: Option<u64>,
}

impl Clone for Transaction {
    fn clone(&self) -> (res: Self)
        ensures
            res == *self,
    {
        Transaction {
            hash: self.hash.clone(),
            from: self.from.clone(),
            to: self.to.clone(),
            value: self.value.clone(),
            gas_price: self.gas_price.clone(),
            gas_limit: self.gas_limit.clone(),
            nonce: self.nonce,
            data: self.data.clone(),
            timestamp: self.timestamp,
            block_number: self.block_number,
        }
    }
}

/// The window id a timestamp falls in: `floor(timestamp / WINDOW_SECONDS)`.
pub open spec fn window_of(timestamp: u64) -> u64 {
    timestamp / WINDOW_SECONDS
}

/// The parsed gas price of a transaction (0 when unparsable).
pub open spec fn gas_value(t: Transaction) -> u128 {
    parse_u128_or_zero(t.gas_price@)
}

/// The parsed transferred amount of a transaction, in the smallest native
/// unit (0 when unparsable).
pub open spec fn value_wei(t: Transaction) -> u128 {
    parse_u128_or_zero(t.value@)
}

} // verus!
