//! The venue that prices an instrument, where another one executes it.

use vstd::prelude::*;

verus! {

/// The venue that an instrument's market data comes from, where it differs from the venue that
/// executes it.
///
/// Both roles stay on one instrument, and so on one ledger: a position receives live profit and
/// loss only from events of its own instrument. What is left out falls back to the executing venue.
/// The price of a decision is then not the price of its fill, which the caller must accept.
#[derive(Debug, PartialEq, Eq, Hash)]
pub struct DataVenue<ExchangeKey> {
    /// The venue that the market data comes from.
    pub exchange: ExchangeKey,
    /// The name that it uses for the instrument. `None` where it uses the executing venue's.
    pub name_exchange: Option<String>,
}

impl<ExchangeKey> DataVenue<ExchangeKey> {
    /// The venue, with the name that it uses.
    pub fn new(exchange: ExchangeKey, name_exchange: Option<String>) -> (r: DataVenue<ExchangeKey>)
        ensures
            r == (DataVenue { exchange, name_exchange }),
    {
        DataVenue { exchange, name_exchange }
    }

    /// A venue that uses the executing venue's name.
    pub fn new_same_name(exchange: ExchangeKey) -> (r: DataVenue<ExchangeKey>)
        ensures
            r.exchange == exchange,
            r.name_exchange is None,
    {
        DataVenue { exchange, name_exchange: None }
    }

    /// This venue under the key that `find_exchange` gives for it. The name stays.
    pub fn map_exchange_key<FnFindExchange, NewExchangeKey>(self, find_exchange: FnFindExchange) -> (r: DataVenue<
        NewExchangeKey,
    >) where FnFindExchange: FnOnce(&ExchangeKey) -> NewExchangeKey
        requires
            call_requires(find_exchange, (&self.exchange,)),
        ensures
            call_ensures(find_exchange, (&self.exchange,), r.exchange),
            r.name_exchange == self.name_exchange,
    {
        let exchange = find_exchange(&self.exchange);
        DataVenue { exchange, name_exchange: self.name_exchange }
    }
}

} // verus!
