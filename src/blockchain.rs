//! Types shared with the blockchain query layer.

use vstd::prelude::*;

verus! {

/// Where a broadcast transaction stands.
#[derive(Clone, Copy, Debug, PartialEq, Eq, Structural)]
pub enum TransactionStatus {
    Pending,
    Confirmed,
    Failed,
}

} // verus!
