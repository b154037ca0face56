//! The health of the connections to every venue.

use rustrade::engine::connectivity::{
    generate_empty_indexed_connectivity_states, ConnectivityState, Health, VenueRole,
};
use rustrade::exchange::ExchangeId;
use rustrade::index::builder::IndexedInstrumentsBuilder;
use rustrade::index::{ExchangeIndex, IndexedInstruments};
use rustrade::instrument::data_venue::DataVenue;
use rustrade::instrument::{Asset, Instrument, InstrumentKind, InstrumentQuoteAsset, Underlying};

const DATA: ExchangeId = ExchangeId::BinanceSpot;
const EXECUTION: ExchangeId = ExchangeId::Coinbase;

fn instrument(exchange: ExchangeId, base: &str, quote: &str) -> Instrument<ExchangeId, Asset> {
    Instrument::new(
        exchange,
        &format!("{}-{base}_{quote}", exchange.as_str()),
        &format!("{base}_{quote}"),
        Underlying { base: Asset::new(base, base), quote: Asset::new(quote, quote) },
        InstrumentQuoteAsset::UnderlyingQuote,
        InstrumentKind::Spot,
        None,
    )
}

fn index(instruments: Vec<Instrument<ExchangeId, Asset>>) -> IndexedInstruments {
    let mut builder = IndexedInstrumentsBuilder::new();
    for instrument in instruments {
        builder = builder.add_instrument(instrument);
    }
    builder.try_build().unwrap()
}

fn split_venue_instruments() -> IndexedInstruments {
    index(vec![
        instrument(EXECUTION, "btc", "usdt").with_data_venue(DataVenue::new_same_name(DATA)),
    ])
}

fn find_exchange_index(instruments: &IndexedInstruments, exchange: ExchangeId) -> ExchangeIndex {
    instruments.exchanges().iter().find(|keyed| keyed.value == exchange).unwrap().key
}

#[test]
fn a_split_configuration_gives_each_venue_only_the_dimension_it_provides() {
    let states = generate_empty_indexed_connectivity_states(&split_venue_instruments());

    assert_eq!(states.exchanges.len(), 2);
    assert_eq!(states.connectivity(&DATA).role, VenueRole::DataOnly);
    assert_eq!(states.connectivity(&EXECUTION).role, VenueRole::ExecutionOnly);
}

#[test]
fn a_single_venue_instrument_leaves_its_venue_providing_both_dimensions() {
    let instruments = index(vec![instrument(EXECUTION, "btc", "usdt")]);
    let states = generate_empty_indexed_connectivity_states(&instruments);

    assert_eq!(states.exchanges.len(), 1);
    assert_eq!(states.connectivity(&EXECUTION).role, VenueRole::Both);
}

#[test]
fn a_venue_that_prices_one_instrument_and_executes_another_provides_both_dimensions() {
    let instruments = index(vec![
        instrument(EXECUTION, "btc", "usdt").with_data_venue(DataVenue::new_same_name(DATA)),
        instrument(DATA, "eth", "usdt"),
    ]);
    let states = generate_empty_indexed_connectivity_states(&instruments);

    assert_eq!(states.connectivity(&DATA).role, VenueRole::Both);
    assert_eq!(states.connectivity(&EXECUTION).role, VenueRole::ExecutionOnly);
}

#[test]
fn all_healthy_ignores_the_dimension_a_venue_does_not_provide() {
    assert!(
        ConnectivityState {
            market_data: Health::Healthy,
            account: Health::Reconnecting,
            role: VenueRole::DataOnly,
        }
        .all_healthy()
    );

    assert!(
        ConnectivityState {
            market_data: Health::Reconnecting,
            account: Health::Healthy,
            role: VenueRole::ExecutionOnly,
        }
        .all_healthy()
    );

    assert!(
        !ConnectivityState {
            market_data: Health::Reconnecting,
            account: Health::Healthy,
            role: VenueRole::DataOnly,
        }
        .all_healthy()
    );

    assert!(
        !ConnectivityState {
            market_data: Health::Healthy,
            account: Health::Reconnecting,
            role: VenueRole::Both,
        }
        .all_healthy()
    );
}

#[test]
fn global_health_reaches_healthy_once_each_split_venue_reports_its_own_dimension() {
    for market_data_first in [true, false] {
        let instruments = split_venue_instruments();
        let execution = find_exchange_index(&instruments, EXECUTION);
        let mut states = generate_empty_indexed_connectivity_states(&instruments);

        assert_eq!(states.global, Health::Reconnecting);

        if market_data_first {
            states.update_from_market_event(&DATA);
            assert_eq!(states.global, Health::Reconnecting, "the execution venue has not reported yet");
            states.update_from_account_event(&execution);
        } else {
            states.update_from_account_event(&execution);
            assert_eq!(states.global, Health::Reconnecting, "the data venue has not reported yet");
            states.update_from_market_event(&DATA);
        }

        assert_eq!(states.global, Health::Healthy, "{market_data_first}");
    }
}

#[test]
fn a_lost_connection_makes_everything_reconnect_until_it_reports_again() {
    let instruments = split_venue_instruments();
    let execution = find_exchange_index(&instruments, EXECUTION);
    let mut states = generate_empty_indexed_connectivity_states(&instruments);
    states.update_from_market_event(&DATA);
    states.update_from_account_event(&execution);
    assert_eq!(states.global, Health::Healthy);

    states.update_from_account_reconnecting(&EXECUTION);
    assert_eq!(states.global, Health::Reconnecting);
    assert_eq!(states.connectivity(&EXECUTION).account, Health::Reconnecting);
    assert_eq!(states.connectivity(&DATA).market_data, Health::Healthy);
    states.update_from_market_event(&DATA);
    assert_eq!(states.global, Health::Reconnecting);
    states.update_from_account_event(&execution);
    assert_eq!(states.global, Health::Healthy);

    states.update_from_market_reconnecting(&DATA);
    assert_eq!(states.global, Health::Reconnecting);
    assert_eq!(states.connectivity(&DATA).market_data, Health::Reconnecting);
    states.update_from_market_event(&DATA);
    assert_eq!(states.global, Health::Healthy);
}

#[test]
fn venues_keep_the_order_of_the_collection() {
    let instruments = split_venue_instruments();
    let mut states = generate_empty_indexed_connectivity_states(&instruments);

    assert_eq!(states.exchange_ids(), vec![DATA, EXECUTION]);
    assert_eq!(
        states.exchange_states(),
        vec![ConnectivityState::new(VenueRole::DataOnly), ConnectivityState::new(VenueRole::ExecutionOnly)]
    );
    assert_eq!(states.connectivity_index(&ExchangeIndex(1)).role, VenueRole::ExecutionOnly);

    states.connectivity_mut(&DATA).market_data = Health::Healthy;
    states.connectivity_index_mut(&ExchangeIndex(1)).account = Health::Healthy;
    assert!(states.exchange_states().iter().all(ConnectivityState::all_healthy));
    assert_eq!(states.exchange_ids(), vec![DATA, EXECUTION]);
    assert_eq!(states.global, Health::Reconnecting);
}

#[test]
fn roles_follow_from_the_dimensions() {
    assert_eq!(VenueRole::from_dimensions(true, true), VenueRole::Both);
    assert_eq!(VenueRole::from_dimensions(true, false), VenueRole::DataOnly);
    assert_eq!(VenueRole::from_dimensions(false, true), VenueRole::ExecutionOnly);
    assert_eq!(VenueRole::from_dimensions(false, false), VenueRole::Both);
    assert_eq!(VenueRole::default(), VenueRole::Both);
    assert_eq!(Health::default(), Health::Reconnecting);
    assert!(VenueRole::DataOnly.has_market_data() && !VenueRole::DataOnly.has_account());
    assert!(!VenueRole::ExecutionOnly.has_market_data() && VenueRole::ExecutionOnly.has_account());
}

#[test]
fn an_event_on_a_healthy_connection_still_settles_the_global_health() {
    let instruments = split_venue_instruments();
    let mut states = generate_empty_indexed_connectivity_states(&instruments);
    let execution = find_exchange_index(&instruments, EXECUTION);
    states.update_from_market_event(&DATA);
    states.update_from_account_event(&execution);
    assert_eq!(states.global, Health::Healthy);

    // The execution venue has no market data connection, so losing one leaves it healthy.
    states.update_from_market_reconnecting(&EXECUTION);
    assert_eq!(states.global, Health::Reconnecting);
    states.update_from_account_event(&execution);
    assert_eq!(states.global, Health::Healthy);

    states.update_from_account_reconnecting(&DATA);
    assert_eq!(states.global, Health::Reconnecting);
    states.update_from_market_event(&DATA);
    assert_eq!(states.global, Health::Healthy);

    states.global = Health::Reconnecting;
    states.connectivity_mut(&DATA).market_data = Health::Reconnecting;
    states.update_from_account_event(&execution);
    assert_eq!(states.global, Health::Reconnecting);
}
