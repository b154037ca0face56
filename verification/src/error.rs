//! What can go wrong with a source of market data.

use vstd::prelude::*;

verus! {

/// Why a source of market data gave no event.
#[derive(Debug, PartialEq, Eq)]
pub enum DataError {
    /// The connection failed. Holds the message of its error.
    Socket(String),
    /// What came is of a subscription that nothing is known of. Holds the subscription.
    Unidentifiable(String),
}

} // verus!
