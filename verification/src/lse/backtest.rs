//! Replaying candles of many instruments as one stream.

use vstd::prelude::*;
use vstd::string::*;
use crate::exchange::ExchangeId;
use crate::market::{Candle, DataKind, InstrumentIndex, MarketEvent, MarketStreamEvent};
use crate::streams::merge::tag_event;

verus! {

/// One instrument's candles: the symbol to fetch, and what to tag them as.
///
/// Index and venue are not derived from the symbol: only the caller knows how the instrument was
/// registered, and both must match that.
#[derive(Debug)]
pub struct LseCandleSource {
    /// The display symbol.
    pub symbol: String,
    pub instrument: InstrumentIndex,
    pub exchange: ExchangeId,
}

impl LseCandleSource {
    /// The candles of one instrument.
    pub fn new(symbol: &str, instrument: InstrumentIndex, exchange: ExchangeId) -> (r: LseCandleSource)
        ensures
            r.symbol@ == symbol@,
            r.instrument == instrument,
            r.exchange == exchange,
    {
        LseCandleSource { symbol: String::from_str(symbol), instrument, exchange }
    }

    /// A candle as an event of the stream.
    ///
    /// A bar enters the timeline when its period ends. At its open, a strategy would act on a bar
    /// that is not complete.
    pub fn replay(&self, candle: Candle) -> (r: MarketStreamEvent<InstrumentIndex, DataKind>)
        ensures
            r == MarketStreamEvent::Item(
                MarketEvent {
                    time_exchange: candle.close_time,
                    time_received: candle.close_time,
                    exchange: self.exchange,
                    instrument: self.instrument,
                    kind: DataKind::Candle(candle),
                },
            ),
    {
        tag_event(self.exchange, self.instrument, candle.close_time, DataKind::Candle(candle))
    }
}

} // verus!
