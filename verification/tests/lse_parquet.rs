//! Decoding export artifacts.
//!
//! Every number here is made up; only the columns and their types are those of the provider.

use parquet::basic::{LogicalType, TimeUnit, Type as PhysicalType};
use parquet::schema::parser::parse_message_type;
use rustrade::exchange::ExchangeId;
use rustrade::index::builder::IndexedInstrumentsBuilder;
use rustrade::instrument::{Asset, Instrument, InstrumentKind, InstrumentQuoteAsset, Underlying};
use rustrade::lse::dataset::LseDataset;
use rustrade::lse::error::LseError;
use rustrade::lse::export::{LseExport, LseExportRange, LseExportTimeframe};
use rustrade::lse::parquet::{
    check_schema, column_kind, instrument_index_for, read_export, symbols_in_export, ColumnKind, Double, ExportColumn,
    ExportRow, ExportSchema, Logical, LseExportEvents, NextRow, Physical, RowLayout, Unit,
};
use rustrade::market::{Candle, DataKind, Decimal, InstrumentIndex, MarketEvent, OrderBookL1};
use rustrade::time::{CandleInterval, Date, Timestamp};

type Event = MarketEvent<InstrumentIndex, DataKind>;

/// A column of values. `None` stands for a null.
enum Col {
    Ts(Vec<i64>),
    Sym(Vec<&'static str>),
    Dbl(Vec<f64>),
    OptDbl(Vec<Option<f64>>),
}

const T0: i64 = 1_782_864_000_000_000;
const HOUR: i64 = 3_600_000_000;
const DAY: i64 = 86_400_000_000;

const FX_TICK: &str = "
message schema {
  REQUIRED INT64 ts (TIMESTAMP(MICROS,true));
  REQUIRED BYTE_ARRAY symbol (STRING);
  REQUIRED DOUBLE bid;
  REQUIRED DOUBLE ask;
}";

const STOCK_TICK: &str = "
message schema {
  REQUIRED INT64 ts (TIMESTAMP(MICROS,true));
  REQUIRED BYTE_ARRAY symbol (STRING);
  REQUIRED DOUBLE price;
  REQUIRED DOUBLE volume;
}";

const SYNTH_TICK: &str = "
message schema {
  REQUIRED INT64 ts (TIMESTAMP(MICROS,true));
  REQUIRED BYTE_ARRAY symbol (STRING);
  REQUIRED DOUBLE price;
  OPTIONAL DOUBLE volume;
  OPTIONAL DOUBLE ask;
}";

const CANDLE_WITH_VOLUME: &str = "
message schema {
  REQUIRED INT64 ts (TIMESTAMP(MICROS,true));
  REQUIRED BYTE_ARRAY symbol (STRING);
  REQUIRED DOUBLE open;
  REQUIRED DOUBLE high;
  REQUIRED DOUBLE low;
  REQUIRED DOUBLE close;
  REQUIRED DOUBLE volume;
}";

const CANDLE_NO_VOLUME: &str = "
message schema {
  REQUIRED INT64 ts (TIMESTAMP(MICROS,true));
  REQUIRED BYTE_ARRAY symbol (STRING);
  REQUIRED DOUBLE open;
  REQUIRED DOUBLE high;
  REQUIRED DOUBLE low;
  REQUIRED DOUBLE close;
}";

const STOCK_TICK_TS_MILLIS: &str = "
message schema {
  REQUIRED INT64 ts (TIMESTAMP(MILLIS,true));
  REQUIRED BYTE_ARRAY symbol (STRING);
  REQUIRED DOUBLE price;
  REQUIRED DOUBLE volume;
}";

const STOCK_TICK_TS_NOT_UTC: &str = "
message schema {
  REQUIRED INT64 ts (TIMESTAMP(MICROS,false));
  REQUIRED BYTE_ARRAY symbol (STRING);
  REQUIRED DOUBLE price;
  REQUIRED DOUBLE volume;
}";

const STOCK_TICK_INT_PRICE: &str = "
message schema {
  REQUIRED INT64 ts (TIMESTAMP(MICROS,true));
  REQUIRED BYTE_ARRAY symbol (STRING);
  REQUIRED INT64 price;
  REQUIRED DOUBLE volume;
}";

const STOCK_TICK_NULLABLE_PRICE: &str = "
message schema {
  REQUIRED INT64 ts (TIMESTAMP(MICROS,true));
  REQUIRED BYTE_ARRAY symbol (STRING);
  OPTIONAL DOUBLE price;
  REQUIRED DOUBLE volume;
}";

fn physical_of(stored: Option<PhysicalType>) -> Physical {
    match stored {
        Some(PhysicalType::INT64) => Physical::Int64,
        Some(PhysicalType::BYTE_ARRAY) => Physical::ByteArray,
        Some(PhysicalType::DOUBLE) => Physical::Double,
        Some(_) => Physical::Other,
        None => Physical::Group,
    }
}

fn logical_of(stored: Option<&LogicalType>) -> Logical {
    match stored {
        Some(LogicalType::Timestamp(stored)) => Logical::Timestamp {
            utc: stored.is_adjusted_to_u_t_c,
            unit: match stored.unit {
                TimeUnit::MILLIS => Unit::Millis,
                TimeUnit::MICROS => Unit::Micros,
                TimeUnit::NANOS => Unit::Nanos,
            },
        },
        Some(LogicalType::String) => Logical::Text,
        Some(_) => Logical::Other,
        None => Logical::Absent,
    }
}

/// The columns that a schema describes.
fn schema(message: &str) -> ExportSchema {
    let root = parse_message_type(message).unwrap();
    ExportSchema {
        flat: root.get_fields().iter().all(|field| field.is_primitive()),
        columns: root
            .get_fields()
            .iter()
            .map(|field| {
                let physical = field.is_primitive().then(|| field.get_physical_type());
                let logical = field.get_basic_info().logical_type_ref();
                let kind = column_kind(physical_of(physical), logical_of(logical));
                ExportColumn { name: field.name().to_string(), kind, found: format!("{physical:?}") }
            })
            .collect(),
    }
}

fn double(value: f64) -> Double {
    Double {
        text: value.to_string(),
        decimal: match rust_decimal::Decimal::try_from(value) {
            Ok(number) => Ok(Decimal { mantissa: number.mantissa(), scale: number.scale() }),
            Err(error) => Err(error.to_string()),
        },
    }
}

/// The rows of columns, as a layout reads them.
fn rows(schema: &ExportSchema, timeframe: LseExportTimeframe, columns: &[Col]) -> Vec<ExportRow> {
    let layout = check_schema(schema, timeframe).unwrap();
    let at = |name: &str| schema.columns.iter().position(|column| column.name == name).unwrap();
    let Col::Ts(ts) = &columns[at("ts")] else { panic!("no timestamps") };
    let Col::Sym(symbols) = &columns[at("symbol")] else { panic!("no symbols") };
    (0..ts.len())
        .map(|row| ExportRow {
            ts: Some(ts[row]),
            symbol: Some(symbols[row].to_string()),
            values: layout
                .values()
                .into_iter()
                .map(|column| match &columns[column] {
                    Col::Dbl(values) => Some(double(values[row])),
                    Col::OptDbl(values) => values[row].map(double),
                    _ => panic!("no numbers"),
                })
                .collect(),
        })
        .collect()
}

/// An artifact that is being decoded, with the rows that are left.
struct Reader {
    state: Option<LseExportEvents>,
    rows: std::vec::IntoIter<ExportRow>,
}

impl Reader {
    fn next(&mut self) -> Option<Result<Event, LseError>> {
        let row = match self.rows.next() {
            Some(row) => NextRow::Row(row),
            None => NextRow::End,
        };
        let (state, event) = self.state.take().unwrap().next(row);
        self.state = Some(state);
        event
    }

    fn collect(mut self) -> Result<Vec<Event>, LseError> {
        let mut events = Vec::new();
        while let Some(event) = self.next() {
            events.push(event?);
        }
        Ok(events)
    }
}

fn export(dataset: LseDataset, symbol: &str, timeframe: LseExportTimeframe) -> LseExport {
    let range =
        LseExportRange::new(Date::new(2026, 7, 1).unwrap(), Date::new(2026, 7, 3).unwrap()).unwrap();
    LseExport::new("out.parquet", dataset, symbol, timeframe, range)
}

fn read(export: &LseExport, message: &str, groups: Vec<Vec<Col>>) -> Result<Reader, LseError> {
    let schema = schema(message);
    let count: usize =
        groups.iter().map(|columns| if let Col::Ts(ts) = &columns[0] { ts.len() } else { 0 }).sum();
    let state = read_export(export, &schema, count as u64, InstrumentIndex(0))?;
    let mut all = Vec::new();
    for columns in groups {
        all.extend(rows(&schema, export.timeframe(), &columns));
    }
    Ok(Reader { state: Some(state), rows: all.into_iter() })
}

fn stocks(message: &str, columns: Vec<Col>) -> Result<Reader, LseError> {
    read(&export(LseDataset::Stocks, "AAPL", LseExportTimeframe::Tick), message, vec![columns])
}

fn dec(text: &str) -> Decimal {
    let number: rust_decimal::Decimal = text.parse().unwrap();
    Decimal { mantissa: number.mantissa(), scale: number.scale() }
}

fn assert_same(found: Decimal, expected: &str) {
    assert!(found.is_same_number(&dec(expected)), "{found:?} should be {expected}");
}

fn book(event: &Event) -> &OrderBookL1 {
    match &event.kind {
        DataKind::OrderBookL1(book) => book,
        other => panic!("expected OrderBookL1, got {other:?}"),
    }
}

fn candle(event: &Event) -> &Candle {
    match &event.kind {
        DataKind::Candle(candle) => candle,
        other => panic!("expected Candle, got {other:?}"),
    }
}

#[test]
fn an_fx_tick_export_decodes_to_a_two_sided_quote() {
    let export = export(LseDataset::Fx, "EUR/USD", LseExportTimeframe::Tick);
    let events = read(
        &export,
        FX_TICK,
        vec![vec![
            Col::Ts(vec![T0, T0 + HOUR]),
            Col::Sym(vec!["EUR/USD", "EUR/USD"]),
            Col::Dbl(vec![1.1, 1.3]),
            Col::Dbl(vec![1.2, 1.4]),
        ]],
    )
    .unwrap()
    .collect()
    .unwrap();

    assert_eq!(events.len(), 2);
    assert_eq!(events[0].exchange, ExchangeId::LseFx);
    assert_same(book(&events[0]).best_bid.unwrap().price, "1.1");
    assert_same(book(&events[0]).best_ask.unwrap().price, "1.2");
    assert_same(book(&events[0]).best_bid.unwrap().amount, "0");
    assert_eq!(Some(book(&events[0]).last_update_time), Timestamp::from_micros(T0));
}

#[test]
fn a_stocks_tick_export_decodes_to_a_trade() {
    let events = stocks(
        STOCK_TICK,
        vec![Col::Ts(vec![T0]), Col::Sym(vec!["AAPL"]), Col::Dbl(vec![20.5]), Col::Dbl(vec![100.0])],
    )
    .unwrap()
    .collect()
    .unwrap();

    assert_eq!(events[0].exchange, ExchangeId::LseEquities);
    let DataKind::Trade(trade) = &events[0].kind else {
        panic!("expected Trade, got {:?}", events[0].kind);
    };
    assert_same(trade.price, "20.5");
    assert_same(trade.amount, "100");
    assert!(trade.side.is_none());
    assert!(trade.id.is_empty());
}

#[test]
fn a_synth_tick_export_decodes_price_as_the_bid() {
    let export = export(LseDataset::Volatility, "VIX/USD", LseExportTimeframe::Tick);
    let events = read(
        &export,
        SYNTH_TICK,
        vec![vec![
            Col::Ts(vec![T0, T0 + HOUR]),
            Col::Sym(vec!["VIX/USD", "VIX/USD"]),
            Col::Dbl(vec![2.0, 2.5]),
            Col::OptDbl(vec![Some(0.0), None]),
            Col::OptDbl(vec![Some(2.1), None]),
        ]],
    )
    .unwrap()
    .collect()
    .unwrap();

    assert_eq!(events[0].exchange, ExchangeId::LseCfd);
    assert_same(book(&events[0]).best_bid.unwrap().price, "2.0");
    assert_same(book(&events[0]).best_ask.unwrap().price, "2.1");

    assert_same(book(&events[1]).best_bid.unwrap().price, "2.5");
    assert!(book(&events[1]).best_ask.is_none());
}

#[test]
fn a_candle_export_derives_close_time_from_the_bars_open_time() {
    let export = export(LseDataset::Etf, "SPY", LseExportTimeframe::Candle(CandleInterval::Day1));
    let events = read(
        &export,
        CANDLE_WITH_VOLUME,
        vec![vec![
            Col::Ts(vec![T0]),
            Col::Sym(vec!["SPY"]),
            Col::Dbl(vec![100.0]),
            Col::Dbl(vec![110.0]),
            Col::Dbl(vec![90.0]),
            Col::Dbl(vec![105.0]),
            Col::Dbl(vec![1000.0]),
        ]],
    )
    .unwrap()
    .collect()
    .unwrap();

    let candle = candle(&events[0]);
    assert_eq!(candle.close_time.text(), "2026-07-02 00:00:00 UTC");
    assert_same(candle.open, "100");
    assert_same(candle.high, "110");
    assert_same(candle.low, "90");
    assert_same(candle.close, "105");
    assert_same(candle.volume.unwrap(), "1000");
    assert!(candle.trade_count.is_none());
    assert_eq!(events[0].time_exchange, candle.close_time);
    assert_eq!(events[0].time_received, candle.close_time);
}

#[test]
fn an_fx_candle_export_omitting_the_volume_column_yields_none() {
    let export = export(LseDataset::Fx, "EUR/USD", LseExportTimeframe::Candle(CandleInterval::Day1));
    let events = read(
        &export,
        CANDLE_NO_VOLUME,
        vec![vec![
            Col::Ts(vec![T0]),
            Col::Sym(vec!["EUR/USD"]),
            Col::Dbl(vec![1.1]),
            Col::Dbl(vec![1.3]),
            Col::Dbl(vec![0.9]),
            Col::Dbl(vec![1.2]),
        ]],
    )
    .unwrap()
    .collect()
    .unwrap();

    assert_eq!(candle(&events[0]).volume, None);
}

#[test]
fn a_literal_zero_volume_is_passed_through_rather_than_rewritten_to_none() {
    let export = export(LseDataset::Stocks, "AAPL", LseExportTimeframe::Candle(CandleInterval::Min1));
    let events = read(
        &export,
        CANDLE_WITH_VOLUME,
        vec![vec![
            Col::Ts(vec![T0]),
            Col::Sym(vec!["AAPL"]),
            Col::Dbl(vec![100.0]),
            Col::Dbl(vec![110.0]),
            Col::Dbl(vec![90.0]),
            Col::Dbl(vec![105.0]),
            Col::Dbl(vec![0.0]),
        ]],
    )
    .unwrap()
    .collect()
    .unwrap();

    assert_same(candle(&events[0]).volume.unwrap(), "0");
}

#[test]
fn an_artifact_longer_than_one_read_batch_decodes_every_row_in_order() {
    let count: i32 = 8 * 1024 * 2 + 7;
    let export = export(LseDataset::Volatility, "VIX/USD", LseExportTimeframe::Tick);
    let events = read(
        &export,
        SYNTH_TICK,
        vec![vec![
            Col::Ts((0..count).map(|index| T0 + i64::from(index)).collect()),
            Col::Sym(vec!["VIX/USD"; count as usize]),
            Col::Dbl((0..count).map(f64::from).collect()),
            Col::OptDbl(vec![None; count as usize]),
            Col::OptDbl(
                (0..count).map(|index| if index % 2 == 0 { Some(f64::from(index) + 0.5) } else { None }).collect(),
            ),
        ]],
    )
    .unwrap()
    .collect()
    .unwrap();

    assert_eq!(events.len(), count as usize);

    for (index, event) in events.iter().enumerate() {
        assert_eq!(
            Some(event.time_exchange),
            Timestamp::from_micros(T0 + index as i64),
            "row {index} decoded against the wrong timestamp"
        );
        assert_same(book(event).best_bid.unwrap().price, &format!("{index}"));
        match book(event).best_ask {
            Some(level) => {
                assert_eq!(index % 2, 0, "row {index} decoded the wrong ask");
                assert_same(level.price, &format!("{index}.5"));
            }
            None => assert_eq!(index % 2, 1, "row {index} decoded the wrong ask"),
        }
    }
}

#[test]
fn an_artifact_written_as_several_row_groups_decodes_every_row_in_order() {
    let export = export(LseDataset::Fx, "EUR/USD", LseExportTimeframe::Tick);
    let groups = (0..3)
        .map(|group| {
            let base = T0 + i64::from(group) * DAY;
            vec![
                Col::Ts(vec![base, base + HOUR]),
                Col::Sym(vec!["EUR/USD"; 2]),
                Col::Dbl(vec![f64::from(group), f64::from(group) + 0.5]),
                Col::Dbl(vec![f64::from(group) + 0.1, f64::from(group) + 0.6]),
            ]
        })
        .collect();
    let events = read(&export, FX_TICK, groups).unwrap().collect().unwrap();

    assert_eq!(events.len(), 6);
    assert!(
        events.windows(2).all(|pair| pair[0].time_exchange <= pair[1].time_exchange),
        "row groups must be decoded in file order"
    );
    for (event, bid) in events.iter().zip(["0", "0.5", "1", "1.5", "2", "2.5"]) {
        assert_same(book(event).best_bid.unwrap().price, bid);
    }
}

#[test]
fn tied_timestamps_are_accepted_because_they_are_the_common_case() {
    let events = stocks(
        STOCK_TICK,
        vec![
            Col::Ts(vec![T0, T0, T0, T0 + HOUR]),
            Col::Sym(vec!["AAPL"; 4]),
            Col::Dbl(vec![1.0, 2.0, 3.0, 4.0]),
            Col::Dbl(vec![1.0, 1.0, 1.0, 1.0]),
        ],
    )
    .unwrap()
    .collect()
    .unwrap();

    assert_eq!(events.len(), 4);
}

#[test]
fn a_backwards_timestamp_is_rejected_rather_than_replayed_out_of_order() {
    let error = stocks(
        STOCK_TICK,
        vec![
            Col::Ts(vec![T0 + HOUR, T0]),
            Col::Sym(vec!["AAPL", "AAPL"]),
            Col::Dbl(vec![1.0, 2.0]),
            Col::Dbl(vec![1.0, 1.0]),
        ],
    )
    .unwrap()
    .collect()
    .unwrap_err();

    assert!(matches!(error, LseError::NonMonotonicTimestamps { .. }));
}

#[test]
fn the_iterator_ends_at_the_first_error_rather_than_resuming() {
    let mut events = stocks(
        STOCK_TICK,
        vec![
            Col::Ts(vec![T0 + HOUR, T0, T0 + 2 * HOUR]),
            Col::Sym(vec!["AAPL", "AAPL", "AAPL"]),
            Col::Dbl(vec![1.0, 2.0, 3.0]),
            Col::Dbl(vec![1.0, 1.0, 1.0]),
        ],
    )
    .unwrap();

    assert_eq!(events.state.as_ref().unwrap().size_hint(), (0, 3));
    assert!(matches!(events.next(), Some(Ok(_))));
    assert_eq!(events.state.as_ref().unwrap().size_hint(), (0, 2));
    assert!(matches!(events.next(), Some(Err(LseError::NonMonotonicTimestamps { .. }))));
    assert_eq!(events.state.as_ref().unwrap().size_hint(), (0, 0));
    assert!(events.next().is_none(), "must not resume past a proven integrity violation");
    assert!(events.next().is_none());
}

#[test]
fn a_reader_that_fails_ends_the_events() {
    let mut events = stocks(
        STOCK_TICK,
        vec![Col::Ts(vec![T0]), Col::Sym(vec!["AAPL"]), Col::Dbl(vec![1.0]), Col::Dbl(vec![1.0])],
    )
    .unwrap();
    let (state, event) = events.state.take().unwrap().next(NextRow::Broken("bad page".to_string()));
    let Some(Err(LseError::Parquet { message })) = event else { panic!("expected Parquet") };
    assert_eq!(message, "bad page");
    events.state = Some(state);
    assert!(events.next().is_none());
}

#[test]
fn a_row_whose_symbol_contradicts_the_descriptor_is_rejected() {
    let export = export(LseDataset::Stocks, "BP.L", LseExportTimeframe::Tick);
    let mut events = read(
        &export,
        STOCK_TICK,
        vec![vec![
            Col::Ts(vec![T0, T0 + HOUR, T0 + DAY]),
            Col::Sym(vec!["BP.L", "BP.L", "BP"]),
            Col::Dbl(vec![10.0, 11.0, 12.0]),
            Col::Dbl(vec![1.0, 1.0, 1.0]),
        ]],
    )
    .unwrap();

    assert!(events.next().unwrap().is_ok());
    assert!(events.next().unwrap().is_ok());

    let error = events.next().unwrap().unwrap_err();
    let LseError::SymbolMismatch { expected, found } = error else {
        panic!("expected SymbolMismatch");
    };
    assert_eq!(expected, "BP.L");
    assert_eq!(found, "BP");
}

#[test]
fn a_millisecond_timestamp_column_is_rejected_rather_than_read_as_microseconds() {
    let error = check_schema(&schema(STOCK_TICK_TS_MILLIS), LseExportTimeframe::Tick).unwrap_err();

    let LseError::UnsupportedColumnType { column, .. } = &error else {
        panic!("expected UnsupportedColumnType, got {error:?}");
    };
    assert_eq!(column, "ts");
}

#[test]
fn a_timestamp_column_not_adjusted_to_utc_is_rejected() {
    let export = export(LseDataset::Stocks, "AAPL", LseExportTimeframe::Tick);
    let error = read_export(&export, &schema(STOCK_TICK_TS_NOT_UTC), 1, InstrumentIndex(0)).unwrap_err();

    let LseError::UnsupportedColumnType { column, .. } = &error else {
        panic!("expected UnsupportedColumnType, got {error:?}");
    };
    assert_eq!(column, "ts");
}

#[test]
fn a_value_column_of_the_wrong_physical_type_is_rejected() {
    let export = export(LseDataset::Stocks, "AAPL", LseExportTimeframe::Tick);
    let error = read_export(&export, &schema(STOCK_TICK_INT_PRICE), 1, InstrumentIndex(0)).unwrap_err();

    let LseError::UnsupportedColumnType { column, required, .. } = &error else {
        panic!("expected UnsupportedColumnType, got {error:?}");
    };
    assert_eq!(column, "price");
    assert_eq!(*required, "DOUBLE");
}

#[test]
fn a_null_in_a_column_the_layout_has_no_substitute_for_is_an_error() {
    let error = stocks(
        STOCK_TICK_NULLABLE_PRICE,
        vec![Col::Ts(vec![T0]), Col::Sym(vec!["AAPL"]), Col::OptDbl(vec![None]), Col::Dbl(vec![1.0])],
    )
    .unwrap()
    .collect()
    .unwrap_err();

    let LseError::NullValue { column } = error else {
        panic!("expected NullValue, got {error:?}");
    };
    assert_eq!(column, "price");
}

#[test]
fn a_price_with_no_decimal_representation_is_surfaced_not_zeroed() {
    let error = stocks(
        STOCK_TICK,
        vec![Col::Ts(vec![T0]), Col::Sym(vec!["AAPL"]), Col::Dbl(vec![f64::NAN]), Col::Dbl(vec![1.0])],
    )
    .unwrap()
    .collect()
    .unwrap_err();

    let LseError::PriceNotRepresentable { value, .. } = error else {
        panic!("expected PriceNotRepresentable, got {error:?}");
    };
    let value: f64 = value.parse().unwrap();
    assert!(value.is_nan());
}

#[test]
fn an_infinite_price_is_surfaced_too() {
    let error = stocks(
        STOCK_TICK,
        vec![Col::Ts(vec![T0]), Col::Sym(vec!["AAPL"]), Col::Dbl(vec![f64::INFINITY]), Col::Dbl(vec![1.0])],
    )
    .unwrap()
    .collect()
    .unwrap_err();

    assert!(matches!(error, LseError::PriceNotRepresentable { .. }));
}

#[test]
fn a_timestamp_outside_the_representable_range_is_an_error_not_a_wrapped_instant() {
    let error = stocks(
        STOCK_TICK,
        vec![Col::Ts(vec![i64::MAX]), Col::Sym(vec!["AAPL"]), Col::Dbl(vec![1.0]), Col::Dbl(vec![1.0])],
    )
    .unwrap()
    .collect()
    .unwrap_err();

    let LseError::TimestampNotRepresentable { micros } = error else {
        panic!("expected TimestampNotRepresentable, got {error:?}");
    };
    assert_eq!(micros, i64::MAX);
}

#[test]
fn a_bar_that_never_ends_is_an_error() {
    let export = export(LseDataset::Stocks, "AAPL", LseExportTimeframe::Candle(CandleInterval::Day1));
    let open = 8_210_266_876_799_000_000;
    let error = read(
        &export,
        CANDLE_NO_VOLUME,
        vec![vec![
            Col::Ts(vec![open]),
            Col::Sym(vec!["AAPL"]),
            Col::Dbl(vec![1.0]),
            Col::Dbl(vec![1.0]),
            Col::Dbl(vec![1.0]),
            Col::Dbl(vec![1.0]),
        ]],
    )
    .unwrap()
    .collect()
    .unwrap_err();
    let LseError::TimestampOverflow { open: found, interval } = error else { panic!("expected TimestampOverflow") };
    assert_eq!(Some(found), Timestamp::from_micros(open));
    assert_eq!(interval, CandleInterval::Day1);
}

#[test]
fn an_unrecognised_schema_is_a_typed_error_not_a_mis_decode() {
    let odd = "
        message schema {
          REQUIRED INT64 ts (TIMESTAMP(MICROS,true));
          REQUIRED BYTE_ARRAY symbol (STRING);
          REQUIRED DOUBLE something_else;
        }";
    let export = export(LseDataset::Stocks, "AAPL", LseExportTimeframe::Tick);
    let error = read_export(&export, &schema(odd), 1, InstrumentIndex(0)).unwrap_err();

    assert!(matches!(error, LseError::UnsupportedSchema { .. }));
    assert!(error.message().contains("something_else"));
}

#[test]
fn a_nested_schema_is_not_decoded() {
    let nested = ExportSchema { flat: false, ..schema(FX_TICK) };
    let LseError::UnsupportedSchema { columns } = check_schema(&nested, LseExportTimeframe::Tick).unwrap_err() else {
        panic!("expected UnsupportedSchema")
    };
    assert_eq!(columns, "ts, symbol, bid, ask");
}

#[test]
fn a_layout_follows_the_columns_and_the_timeframe() {
    let names = |list: &str| list.split(' ').map(str::to_string).collect::<Vec<String>>();
    let tick = |list: &str| RowLayout::resolve(&names(list), LseExportTimeframe::Tick).ok();
    let bars = |list: &str| {
        RowLayout::resolve(&names(list), LseExportTimeframe::Candle(CandleInterval::Min1)).ok()
    };
    assert_eq!(tick("ts symbol ask bid price"), Some(RowLayout::Quote { bid: 3, ask: 2 }));
    assert_eq!(tick("ts symbol price volume ask"), Some(RowLayout::QuoteFromPrice { price: 2, ask: 4 }));
    assert_eq!(tick("volume price symbol ts"), Some(RowLayout::Trade { price: 1, volume: 0 }));
    assert_eq!(tick("ts symbol bid price volume"), None);
    assert_eq!(tick("ts symbol price"), None);
    assert_eq!(tick("ts bid ask"), None);
    assert_eq!(tick("symbol bid ask"), None);
    assert_eq!(tick("ts symbol open high low close"), None);
    assert_eq!(
        bars("ts symbol open high low close"),
        Some(RowLayout::Candle { open: 2, high: 3, low: 4, close: 5, volume: None })
    );
    assert_eq!(bars("ts symbol bid ask"), None);
}

#[test]
fn a_zero_row_artifact_decodes_to_no_events_without_erroring() {
    let export = export(LseDataset::Fx, "EUR/USD", LseExportTimeframe::Tick);
    let events = read(
        &export,
        FX_TICK,
        vec![vec![Col::Ts(vec![]), Col::Sym(vec![]), Col::Dbl(vec![]), Col::Dbl(vec![])]],
    )
    .unwrap()
    .collect()
    .unwrap();

    assert!(events.is_empty());
}

fn names(message: &str) -> Vec<String> {
    schema(message).columns.into_iter().map(|column| column.name).collect()
}

fn cells(symbols: &[&str]) -> Vec<Option<String>> {
    symbols.iter().map(|symbol| Some(symbol.to_string())).collect()
}

#[test]
fn symbols_in_export_lists_the_files_symbols_without_decoding_it() {
    assert_eq!(
        symbols_in_export(&names(STOCK_TICK), &cells(&["AAPL", "AAPL", "MSFT"])).unwrap(),
        vec!["AAPL".to_owned(), "MSFT".to_owned()]
    );
}

#[test]
fn symbols_in_export_walks_every_row_group_not_just_the_first() {
    let mut all = cells(&["AAPL"]);
    all.extend(cells(&["MSFT"]));
    assert_eq!(
        symbols_in_export(&names(STOCK_TICK), &all).unwrap(),
        vec!["AAPL".to_owned(), "MSFT".to_owned()]
    );
}

#[test]
fn symbols_in_export_needs_a_symbol_in_every_row() {
    assert!(matches!(
        symbols_in_export(&vec!["ts".to_string()], &Vec::new()),
        Err(LseError::UnsupportedSchema { .. })
    ));
    assert!(matches!(
        symbols_in_export(&names(STOCK_TICK), &vec![Some("AAPL".to_string()), None]),
        Err(LseError::NullValue { column: "symbol" })
    ));
}

#[test]
fn instrument_index_is_derived_from_the_registry_so_a_typo_cannot_be_silent() {
    let asset = |symbol: &str| Asset::new(symbol, symbol);
    let instruments = IndexedInstrumentsBuilder::default()
        .add_instrument(Instrument::new(
            ExchangeId::LseEquities,
            "lse_equities-bp.l",
            "BP.L",
            Underlying { base: asset("bp.l"), quote: asset("gbx") },
            InstrumentQuoteAsset::UnderlyingQuote,
            InstrumentKind::Spot,
            None,
        ))
        .build();

    assert_eq!(
        instrument_index_for(&instruments, ExchangeId::LseEquities, "BP.L").unwrap(),
        InstrumentIndex(0)
    );

    let error = instrument_index_for(&instruments, ExchangeId::LseEquities, "BP").unwrap_err();
    assert!(matches!(error, LseError::UnknownInstrument { .. }));
    assert!(error.message().contains("BP.L"));

    // The name alone is not enough: the venue counts too.
    assert!(instrument_index_for(&instruments, ExchangeId::LseFx, "BP.L").is_err());
}

#[test]
fn a_column_is_of_a_kind_only_where_it_is_stored_as_required() {
    let timestamp = |utc, unit| Logical::Timestamp { utc, unit };
    let kinds = [
        (Physical::Int64, timestamp(true, Unit::Micros), ColumnKind::TimestampMicrosUtc),
        (Physical::Int64, timestamp(false, Unit::Micros), ColumnKind::Other),
        (Physical::Int64, timestamp(true, Unit::Millis), ColumnKind::Other),
        (Physical::Int64, timestamp(true, Unit::Nanos), ColumnKind::Other),
        (Physical::Double, timestamp(true, Unit::Micros), ColumnKind::Other),
        (Physical::Int64, Logical::Absent, ColumnKind::Other),
        (Physical::ByteArray, Logical::Text, ColumnKind::Text),
        (Physical::ByteArray, Logical::Absent, ColumnKind::Other),
        (Physical::Double, Logical::Absent, ColumnKind::Double),
        (Physical::Double, Logical::Other, ColumnKind::Other),
        (Physical::Other, Logical::Absent, ColumnKind::Other),
        (Physical::Group, Logical::Absent, ColumnKind::Other),
    ];
    for (physical, logical, kind) in kinds {
        assert_eq!(column_kind(physical, logical), kind, "{physical:?} {logical:?}");
    }
}
