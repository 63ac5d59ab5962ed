//! Errors of the market data client.
use vstd::prelude::*;

verus! {

/// Why a market price could not be had.
#[derive(Debug, PartialEq)]
pub enum MarketClientError {
    /// The client failed; its message.
    Client(String),
    /// The price has no decimal form; the price as text.
    Decimal(String),
}

} // verus!
