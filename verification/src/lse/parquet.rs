//! Decoding an export artifact into market events.
//!
//! The columns of an artifact decide what its rows are:
//!
//! ```text
//! bid,   ask                       a quote
//! price, ask    (and volume)       a quote, whose bid is the price
//! price, volume                    a trade
//! open, high, low, close (volume)  a candle
//! ```
//!
//! The price of a row without an ask is likely a bid too, so a decoded trade need not be one. Every
//! artifact is of one symbol. Whoever reads the file hands over its columns and its rows; a double
//! comes with the decimal that it converts to.

use vstd::prelude::*;
use vstd::string::*;
use crate::collection;
use crate::collection::add_text;
use crate::exchange::ExchangeId;
use crate::index::{IndexedInstrument, IndexedInstruments, Keyed};
use crate::lse::error::LseError;
use crate::lse::export::{LseExport, LseExportTimeframe};
use crate::market::{Candle, DataKind, Decimal, InstrumentIndex, Level, MarketEvent, OrderBookL1, PublicTrade};
use crate::text;
use crate::text::{join, same_text};
use crate::time;
use crate::time::{close_time_from_open, Timestamp};

verus! {

/// How a column is stored.
#[derive(Clone, Copy, PartialEq, Eq, Structural, Debug, Hash)]
pub enum ColumnKind {
    /// Microseconds since 1970, in UTC.
    TimestampMicrosUtc,
    Text,
    Double,
    Other,
}

/// The type that the values of a column have in the file.
#[derive(Clone, Copy, PartialEq, Eq, Structural, Debug, Hash)]
pub enum Physical {
    Int64,
    ByteArray,
    Double,
    Other,
    /// The column is a group of others and has no values of its own.
    Group,
}

/// The unit of the timestamps of a column.
#[derive(Clone, Copy, PartialEq, Eq, Structural, Debug, Hash)]
pub enum Unit {
    Millis,
    Micros,
    Nanos,
}

/// What the values of a column stand for.
#[derive(Clone, Copy, PartialEq, Eq, Structural, Debug, Hash)]
pub enum Logical {
    /// Instants since 1970: of UTC, or of the local time of somewhere.
    Timestamp { utc: bool, unit: Unit },
    Text,
    Other,
    /// Nothing is said, so they are what they are.
    Absent,
}

/// The kind of a column, by how it is stored.
pub open spec fn stored_kind(physical: Physical, logical: Logical) -> ColumnKind {
    match (physical, logical) {
        (Physical::Int64, Logical::Timestamp { utc: true, unit: Unit::Micros }) => ColumnKind::TimestampMicrosUtc,
        (Physical::ByteArray, Logical::Text) => ColumnKind::Text,
        (Physical::Double, Logical::Absent) => ColumnKind::Double,
        _ => ColumnKind::Other,
    }
}

/// The kind of a column, by how it is stored.
///
/// Timestamps of a local time are stored as those of UTC are, and only what is said of them tells the
/// two apart: taken for UTC, they would move every event by the offset.
pub fn column_kind(physical: Physical, logical: Logical) -> (r: ColumnKind)
    ensures
        r == stored_kind(physical, logical),
{
    match (physical, logical) {
        (Physical::Int64, Logical::Timestamp { utc: true, unit: Unit::Micros }) => ColumnKind::TimestampMicrosUtc,
        (Physical::ByteArray, Logical::Text) => ColumnKind::Text,
        (Physical::Double, Logical::Absent) => ColumnKind::Double,
        _ => ColumnKind::Other,
    }
}

/// A column of an artifact.
#[derive(Debug)]
pub struct ExportColumn {
    pub name: String,
    pub kind: ColumnKind,
    /// The type as the file describes it.
    pub found: String,
}

/// The columns of an artifact.
#[derive(Debug)]
pub struct ExportSchema {
    /// Whether no column is nested in another.
    pub flat: bool,
    pub columns: Vec<ExportColumn>,
}

/// The positions of the columns that a row is decoded from.
#[derive(Clone, Copy, PartialEq, Eq, Structural, Debug, Hash)]
#[allow(inconsistent_fields)]
pub enum RowLayout {
    /// An explicit two-sided quote.
    Quote { bid: usize, ask: usize },
    /// A quote whose bid is named `price`.
    QuoteFromPrice { price: usize, ask: usize },
    /// A price and a volume, without an ask.
    Trade { price: usize, volume: usize },
    /// A bar. Only some datasets have a volume.
    Candle { open: usize, high: usize, low: usize, close: usize, volume: Option<usize> },
}

/// The position of the first name that is `name`.
pub open spec fn position(names: Seq<Seq<char>>, name: Seq<char>) -> Option<int>
    decreases names.len(),
{
    if names.len() == 0 {
        None
    } else {
        match position(names.drop_last(), name) {
            Some(i) => Some(i),
            None => if names.last() == name {
                Some(names.len() - 1)
            } else {
                None
            },
        }
    }
}

/// The position of a column, as a machine number.
pub open spec fn column(names: Seq<Seq<char>>, name: Seq<char>) -> Option<usize> {
    match position(names, name) {
        Some(i) => Some(i as usize),
        None => None,
    }
}

/// The layout of a file with these columns, where it is one that is decoded.
pub open spec fn layout_of(names: Seq<Seq<char>>, timeframe: LseExportTimeframe) -> Option<RowLayout> {
    if column(names, "ts"@) is None || column(names, "symbol"@) is None {
        None
    } else {
        match timeframe {
            LseExportTimeframe::Candle(_) => match (
                column(names, "open"@),
                column(names, "high"@),
                column(names, "low"@),
                column(names, "close"@),
            ) {
                (Some(open), Some(high), Some(low), Some(close)) => Some(
                    RowLayout::Candle { open, high, low, close, volume: column(names, "volume"@) },
                ),
                _ => None,
            },
            LseExportTimeframe::Tick => match (
                column(names, "bid"@),
                column(names, "ask"@),
                column(names, "price"@),
            ) {
                (Some(bid), Some(ask), _) => Some(RowLayout::Quote { bid, ask }),
                (None, Some(ask), Some(price)) => Some(RowLayout::QuoteFromPrice { price, ask }),
                (None, None, Some(price)) => match column(names, "volume"@) {
                    Some(volume) => Some(RowLayout::Trade { price, volume }),
                    None => None,
                },
                _ => None,
            },
        }
    }
}

fn find(columns: &Vec<String>, name: &str) -> (r: Option<usize>)
    ensures
        r == column(text::texts(columns@), name@),
        r matches Some(i) ==> i < columns.len(),
{
    let mut found: Option<usize> = None;
    let mut i: usize = 0;
    assert(text::texts(columns@.take(0)) =~= Seq::<Seq<char>>::empty());
    while i < columns.len()
        invariant
            i <= columns.len(),
            match found {
                Some(k) => position(text::texts(columns@.take(i as int)), name@) == Some(k as int) && k < i,
                None => position(text::texts(columns@.take(i as int)), name@) is None,
            },
        decreases columns.len() - i,
    {
        proof {
            let longer = text::texts(columns@.take(i + 1));
            assert(longer.drop_last() =~= text::texts(columns@.take(i as int)));
            assert(longer.last() == columns@[i as int]@);
        }
        if found.is_none() && same_text(columns[i].as_str(), name) {
            found = Some(i);
        }
        i = i + 1;
    }
    assert(columns@.take(i as int) =~= columns@);
    found
}

/// Whether `e` reports that the columns are of no known layout.
pub open spec fn unsupported_schema(e: LseError, names: Seq<Seq<char>>) -> bool {
    e matches LseError::UnsupportedSchema { columns } && columns@ == text::joined(names, ", "@)
}

impl RowLayout {
    /// Resolves the layout from the names of the columns.
    ///
    /// A wrong guess would put plausible numbers into the wrong field, so columns of no known layout
    /// are an error.
    pub fn resolve(columns: &Vec<String>, timeframe: LseExportTimeframe) -> (r: Result<RowLayout, LseError>)
        ensures
            match r {
                Ok(layout) => layout_of(text::texts(columns@), timeframe) == Some(layout),
                Err(e) => {
                    &&& layout_of(text::texts(columns@), timeframe) is None
                    &&& unsupported_schema(e, text::texts(columns@))
                },
            },
    {
        if find(columns, "ts").is_some() && find(columns, "symbol").is_some() {
            match timeframe {
                LseExportTimeframe::Candle(_) => {
                    if let (Some(open), Some(high), Some(low), Some(close)) = (
                        find(columns, "open"),
                        find(columns, "high"),
                        find(columns, "low"),
                        find(columns, "close"),
                    ) {
                        let volume = find(columns, "volume");
                        return Ok(RowLayout::Candle { open, high, low, close, volume });
                    }
                },
                LseExportTimeframe::Tick => {
                    match (find(columns, "bid"), find(columns, "ask"), find(columns, "price")) {
                        (Some(bid), Some(ask), _) => {
                            return Ok(RowLayout::Quote { bid, ask });
                        },
                        (None, Some(ask), Some(price)) => {
                            return Ok(RowLayout::QuoteFromPrice { price, ask });
                        },
                        (None, None, Some(price)) => {
                            if let Some(volume) = find(columns, "volume") {
                                return Ok(RowLayout::Trade { price, volume });
                            }
                        },
                        _ => {},
                    }
                },
            }
        }
        Err(LseError::UnsupportedSchema { columns: join(columns, ", ") })
    }

    /// The positions of the columns with numbers, in the order in which a row carries them.
    pub open spec fn value_columns(self) -> Seq<usize> {
        match self {
            RowLayout::Quote { bid, ask } => seq![bid, ask],
            RowLayout::QuoteFromPrice { price, ask } => seq![price, ask],
            RowLayout::Trade { price, volume } => seq![price, volume],
            RowLayout::Candle { open, high, low, close, volume } => match volume {
                Some(volume) => seq![open, high, low, close, volume],
                None => seq![open, high, low, close],
            },
        }
    }

    /// The positions of the columns with numbers, in the order in which a row carries them.
    pub fn values(&self) -> (r: Vec<usize>)
        ensures
            r@ == self.value_columns(),
    {
        match *self {
            RowLayout::Quote { bid, ask } => vec![bid, ask],
            RowLayout::QuoteFromPrice { price, ask } => vec![price, ask],
            RowLayout::Trade { price, volume } => vec![price, volume],
            RowLayout::Candle { open, high, low, close, volume } => match volume {
                Some(volume) => vec![open, high, low, close, volume],
                None => vec![open, high, low, close],
            },
        }
    }
}

/// How a timestamp column must be stored.
pub const REQUIRED_TIMESTAMP: &'static str = "INT64 (TIMESTAMP(MICROS, UTC-adjusted))";

/// How a symbol column must be stored.
pub const REQUIRED_TEXT: &'static str = "BYTE_ARRAY (STRING)";

/// How a column of numbers must be stored.
pub const REQUIRED_DOUBLE: &'static str = "DOUBLE";

/// The names of the columns.
pub open spec fn column_names(schema: ExportSchema) -> Seq<Seq<char>> {
    schema.columns@.map_values(|c: ExportColumn| c.name@)
}

/// Whether `e` reports that a column is not stored as required.
pub open spec fn unsupported_column(e: LseError, c: ExportColumn, kind: ColumnKind) -> bool {
    &&& e matches LseError::UnsupportedColumnType { column, required, found }
    &&& column@ == c.name@
    &&& found@ == c.found@
    &&& required@ == required_name(kind)
}

/// How a column of a kind must be stored.
pub open spec fn required_name(kind: ColumnKind) -> Seq<char> {
    match kind {
        ColumnKind::TimestampMicrosUtc => "INT64 (TIMESTAMP(MICROS, UTC-adjusted))"@,
        ColumnKind::Text => "BYTE_ARRAY (STRING)"@,
        _ => "DOUBLE"@,
    }
}

/// The columns that are checked, in order, each with the kind that it must be of.
pub open spec fn checked_columns(names: Seq<Seq<char>>, layout: RowLayout) -> Seq<(usize, ColumnKind)> {
    seq![
        (column(names, "ts"@)->0, ColumnKind::TimestampMicrosUtc),
        (column(names, "symbol"@)->0, ColumnKind::Text),
    ] + layout.value_columns().map_values(|i: usize| (i, ColumnKind::Double))
}

/// The first of the checked columns that is not of its kind.
pub open spec fn first_wrong(schema: ExportSchema, checks: Seq<(usize, ColumnKind)>) -> Option<(usize, ColumnKind)>
    decreases checks.len(),
{
    if checks.len() == 0 {
        None
    } else {
        match first_wrong(schema, checks.drop_last()) {
            Some(wrong) => Some(wrong),
            None => if schema.columns@[checks.last().0 as int].kind != checks.last().1 {
                Some(checks.last())
            } else {
                None
            },
        }
    }
}

/// Whether `e` reports what is wrong with a schema: that it is nested, that its columns are of no
/// known layout, or the first column that is not stored as required.
pub open spec fn schema_fault(e: LseError, schema: ExportSchema, timeframe: LseExportTimeframe) -> bool {
    let names = column_names(schema);
    if !schema.flat || layout_of(names, timeframe) is None {
        unsupported_schema(e, names)
    } else {
        match first_wrong(schema, checked_columns(names, layout_of(names, timeframe)->0)) {
            Some((i, kind)) => unsupported_column(e, schema.columns@[i as int], kind),
            None => false,
        }
    }
}

/// Whether a file with this schema is decoded: flat, of a known layout, and each column stored as
/// required.
pub open spec fn decodable(schema: ExportSchema, timeframe: LseExportTimeframe) -> bool {
    let names = column_names(schema);
    &&& schema.flat
    &&& layout_of(names, timeframe) is Some
    &&& first_wrong(schema, checked_columns(names, layout_of(names, timeframe)->0)) is None
}

fn same_kind(a: ColumnKind, b: ColumnKind) -> (r: bool)
    ensures
        r == (a == b),
{
    a == b
}

fn required_text(kind: ColumnKind) -> (r: &'static str)
    ensures
        r@ == required_name(kind),
{
    match kind {
        ColumnKind::TimestampMicrosUtc => REQUIRED_TIMESTAMP,
        ColumnKind::Text => REQUIRED_TEXT,
        _ => REQUIRED_DOUBLE,
    }
}

proof fn lemma_position(names: Seq<Seq<char>>, name: Seq<char>)
    ensures
        position(names, name) matches Some(i) ==> 0 <= i < names.len(),
    decreases names.len(),
{
    if names.len() > 0 {
        lemma_position(names.drop_last(), name);
    }
}

proof fn lemma_layout_columns(names: Seq<Seq<char>>, timeframe: LseExportTimeframe, layout: RowLayout)
    requires
        layout_of(names, timeframe) == Some(layout),
        names.len() <= usize::MAX,
    ensures
        forall|k: int|
            0 <= k < layout.value_columns().len() ==> (#[trigger] layout.value_columns()[k]) < names.len(),
        column(names, "ts"@)->0 < names.len(),
        column(names, "symbol"@)->0 < names.len(),
{
    lemma_position(names, "ts"@);
    lemma_position(names, "symbol"@);
    lemma_position(names, "open"@);
    lemma_position(names, "high"@);
    lemma_position(names, "low"@);
    lemma_position(names, "close"@);
    lemma_position(names, "volume"@);
    lemma_position(names, "bid"@);
    lemma_position(names, "ask"@);
    lemma_position(names, "price"@);
}

fn names_of(schema: &ExportSchema) -> (r: Vec<String>)
    ensures
        text::texts(r@) == column_names(*schema),
        r.len() == schema.columns.len(),
{
    let mut names: Vec<String> = Vec::new();
    let mut i: usize = 0;
    while i < schema.columns.len()
        invariant
            i <= schema.columns.len(),
            names.len() == i,
            forall|k: int| 0 <= k < i ==> (#[trigger] names@[k])@ == schema.columns@[k].name@,
        decreases schema.columns.len() - i,
    {
        names.push(schema.columns[i].name.clone());
        i = i + 1;
    }
    assert(text::texts(names@) =~= column_names(*schema));
    names
}

/// Checks the columns of an artifact before any row is read: gives the layout of its rows.
pub fn check_schema(schema: &ExportSchema, timeframe: LseExportTimeframe) -> (r: Result<RowLayout, LseError>)
    ensures
        match r {
            Ok(layout) => decodable(*schema, timeframe) && layout_of(column_names(*schema), timeframe) == Some(
                layout,
            ),
            Err(e) => !decodable(*schema, timeframe) && schema_fault(e, *schema, timeframe),
        },
{
    let names = names_of(schema);
    if !schema.flat {
        return Err(LseError::UnsupportedSchema { columns: join(&names, ", ") });
    }
    let layout = match RowLayout::resolve(&names, timeframe) {
        Ok(layout) => layout,
        Err(e) => {
            return Err(e);
        },
    };
    let ghost spec_names = column_names(*schema);
    proof {
        lemma_layout_columns(spec_names, timeframe, layout);
    }
    let mut checks: Vec<(usize, ColumnKind)> = Vec::new();
    if let Some(ts) = find(&names, "ts") {
        checks.push((ts, ColumnKind::TimestampMicrosUtc));
    }
    if let Some(symbol) = find(&names, "symbol") {
        checks.push((symbol, ColumnKind::Text));
    }
    let values = layout.values();
    let mut k: usize = 0;
    let ghost head = checks@;
    assert(head =~= checked_columns(spec_names, layout).take(2));
    while k < values.len()
        invariant
            k <= values.len(),
            values@ == layout.value_columns(),
            head.len() == 2,
            head == checked_columns(spec_names, layout).take(2),
            checks@ == checked_columns(spec_names, layout).take(2 + k),
        decreases values.len() - k,
    {
        checks.push((values[k], ColumnKind::Double));
        k = k + 1;
        assert(checks@ =~= checked_columns(spec_names, layout).take(2 + k));
    }
    assert(checks@ =~= checked_columns(spec_names, layout));
    let mut i: usize = 0;
    assert(checks@.take(0) =~= Seq::<(usize, ColumnKind)>::empty());
    while i < checks.len()
        invariant
            i <= checks.len(),
            checks@ == checked_columns(spec_names, layout),
            spec_names == column_names(*schema),
            schema.flat,
            layout_of(spec_names, timeframe) == Some(layout),
            forall|j: int| 0 <= j < layout.value_columns().len() ==> (#[trigger] layout.value_columns()[j]) < spec_names.len(),
            column(spec_names, "ts"@)->0 < spec_names.len(),
            column(spec_names, "symbol"@)->0 < spec_names.len(),
            first_wrong(*schema, checks@.take(i as int)) is None,
        decreases checks.len() - i,
    {
        let (at, kind) = checks[i];
        proof {
            assert(checks@.take(i + 1).drop_last() =~= checks@.take(i as int));
            assert(checks@.take(i + 1).last() == checks@[i as int]);
            if i >= 2 {
                assert(layout.value_columns()[i - 2] < spec_names.len());
            }
            assert(at < schema.columns.len());
        }
        let found = &schema.columns[at];
        if !same_kind(found.kind, kind) {
            proof {
                lemma_first_wrong_stays(*schema, checks@, i + 1);
            }
            return Err(
                LseError::UnsupportedColumnType {
                    column: found.name.clone(),
                    required: required_text(kind),
                    found: found.found.clone(),
                },
            );
        }
        i = i + 1;
    }
    assert(checks@.take(i as int) =~= checks@);
    Ok(layout)
}

proof fn lemma_first_wrong_stays(schema: ExportSchema, checks: Seq<(usize, ColumnKind)>, n: int)
    requires
        0 <= n <= checks.len(),
        first_wrong(schema, checks.take(n)) is Some,
    ensures
        first_wrong(schema, checks) == first_wrong(schema, checks.take(n)),
    decreases checks.len(),
{
    if n < checks.len() {
        assert(checks.drop_last().take(n) =~= checks.take(n));
        lemma_first_wrong_stays(schema, checks.drop_last(), n);
    } else {
        assert(checks.take(n) =~= checks);
    }
}

/// A double of the file: as text, and as the decimal that it converts to or the reason that it does
/// not.
#[derive(Debug)]
pub struct Double {
    pub text: String,
    pub decimal: Result<Decimal, String>,
}

/// The cells of a row that a layout reads. `None` stands for a null.
#[derive(Debug)]
pub struct ExportRow {
    /// Microseconds since 1970.
    pub ts: Option<i64>,
    pub symbol: Option<String>,
    /// The numbers, in the order of the layout's columns.
    pub values: Vec<Option<Double>>,
}

impl ExportRow {
    /// The number at a place of the layout, where the row has one.
    pub open spec fn value(self, at: int) -> Option<Double> {
        if 0 <= at < self.values@.len() {
            self.values@[at]
        } else {
            None
        }
    }
}

/// What reading a number gives: the decimal, or why there is none.
pub enum Reading {
    Number(Decimal),
    Missing,
    Unrepresentable,
}

/// What reading the number at a place gives.
pub open spec fn reading(row: ExportRow, at: int) -> Reading {
    match row.value(at) {
        None => Reading::Missing,
        Some(double) => match double.decimal {
            Ok(number) => Reading::Number(number),
            Err(_) => Reading::Unrepresentable,
        },
    }
}

/// Whether `e` reports why there is no number at a place that must have one.
pub open spec fn number_fault(e: LseError, row: ExportRow, at: int, name: Seq<char>) -> bool {
    match reading(row, at) {
        Reading::Missing => e matches LseError::NullValue { column } && column@ == name,
        Reading::Unrepresentable => {
            &&& e matches LseError::PriceNotRepresentable { value, message }
            &&& value@ == row.value(at)->0.text@
            &&& message@ == (row.value(at)->0.decimal->Err_0)@
        },
        Reading::Number(_) => false,
    }
}

/// Reads a number that must be there.
fn decimal(row: &ExportRow, at: usize, name: &'static str) -> (r: Result<Decimal, LseError>)
    ensures
        match r {
            Ok(number) => reading(*row, at as int) == Reading::Number(number),
            Err(e) => number_fault(e, *row, at as int, name@),
        },
{
    if at >= row.values.len() {
        return Err(LseError::NullValue { column: name });
    }
    match &row.values[at] {
        None => Err(LseError::NullValue { column: name }),
        Some(double) => match &double.decimal {
            Ok(number) => Ok(*number),
            Err(reason) => Err(
                LseError::PriceNotRepresentable { value: double.text.clone(), message: reason.clone() },
            ),
        },
    }
}

/// Reads a number that may be null.
fn optional_decimal(row: &ExportRow, at: usize) -> (r: Result<Option<Decimal>, LseError>)
    ensures
        match r {
            Ok(Some(number)) => reading(*row, at as int) == Reading::Number(number),
            Ok(None) => reading(*row, at as int) is Missing,
            Err(e) => reading(*row, at as int) is Unrepresentable && number_fault(
                e,
                *row,
                at as int,
                Seq::empty(),
            ),
        },
{
    if at >= row.values.len() {
        return Ok(None);
    }
    match &row.values[at] {
        None => Ok(None),
        Some(_) => match decimal(row, at, "") {
            Ok(number) => Ok(Some(number)),
            Err(e) => Err(e),
        },
    }
}

/// A two-sided book without sizes, of which the export publishes none.
pub open spec fn quote_of(time: Timestamp, bid: Decimal, ask: Option<Decimal>) -> OrderBookL1 {
    OrderBookL1 {
        last_update_time: time,
        best_bid: Some(Level { price: bid, amount: Decimal::spec_zero() }),
        best_ask: match ask {
            Some(ask) => Some(Level { price: ask, amount: Decimal::spec_zero() }),
            None => None,
        },
    }
}

fn quote(time: Timestamp, bid: Decimal, ask: Option<Decimal>) -> (r: DataKind)
    ensures
        r == DataKind::OrderBookL1(quote_of(time, bid, ask)),
{
    let best_ask = match ask {
        Some(ask) => Some(Level { price: ask, amount: Decimal::zero() }),
        None => None,
    };
    DataKind::OrderBookL1(
        OrderBookL1 {
            last_update_time: time,
            best_bid: Some(Level { price: bid, amount: Decimal::zero() }),
            best_ask,
        },
    )
}

/// What a place of a layout is called.
pub open spec fn place_name(layout: RowLayout, at: int) -> Seq<char> {
    match layout {
        RowLayout::Quote { .. } => if at == 0 { "bid"@ } else { "ask"@ },
        RowLayout::QuoteFromPrice { .. } => if at == 0 { "price"@ } else { "ask"@ },
        RowLayout::Trade { .. } => if at == 0 { "price"@ } else { "volume"@ },
        RowLayout::Candle { .. } => if at == 0 {
            "open"@
        } else if at == 1 {
            "high"@
        } else if at == 2 {
            "low"@
        } else if at == 3 {
            "close"@
        } else {
            "volume"@
        },
    }
}

/// Whether a null at a place of a layout stands for an absent number instead of being an error: the
/// ask beside a price, and the volume of a bar.
pub open spec fn may_be_null(layout: RowLayout, at: int) -> bool {
    match layout {
        RowLayout::QuoteFromPrice { .. } => at == 1,
        RowLayout::Candle { .. } => at == 4,
        _ => false,
    }
}

/// Whether the cell at a place cannot be used.
pub open spec fn bad_cell(layout: RowLayout, row: ExportRow, at: int) -> bool {
    reading(row, at) is Unrepresentable || (reading(row, at) is Missing && !may_be_null(layout, at))
}

/// Whether none of the first `n` cells is bad.
pub open spec fn cells_fit(layout: RowLayout, row: ExportRow, n: int) -> bool {
    forall|at: int| 0 <= at < n ==> !#[trigger] bad_cell(layout, row, at)
}

/// Whether `e` reports the first bad cell.
pub open spec fn cell_fault(e: LseError, layout: RowLayout, row: ExportRow) -> bool {
    exists|at: int|
        {
            &&& 0 <= at < layout.value_columns().len()
            &&& cells_fit(layout, row, at)
            &&& #[trigger] bad_cell(layout, row, at)
            &&& number_fault(e, row, at, place_name(layout, at))
        }
}

/// The number at a place, where the cell holds one.
pub open spec fn number(row: ExportRow, at: int) -> Option<Decimal> {
    match reading(row, at) {
        Reading::Number(n) => Some(n),
        _ => None,
    }
}

/// When an observation at `time` enters the timeline: a tick at once, a bar when it is complete.
pub open spec fn event_time(timeframe: LseExportTimeframe, layout: RowLayout, time: Timestamp) -> Option<Timestamp> {
    match layout {
        RowLayout::Candle { .. } => time::close_of(time, timeframe->Candle_0.step()),
        _ => Some(time),
    }
}

/// Whether `kind` is what the cells of a row tell, for an event at `time`.
pub open spec fn tells(kind: DataKind, layout: RowLayout, row: ExportRow, time: Timestamp) -> bool {
    match layout {
        RowLayout::Quote { .. } => kind == DataKind::OrderBookL1(
            quote_of(time, number(row, 0)->0, number(row, 1)),
        ),
        RowLayout::QuoteFromPrice { .. } => kind == DataKind::OrderBookL1(
            quote_of(time, number(row, 0)->0, number(row, 1)),
        ),
        RowLayout::Trade { .. } => {
            &&& kind matches DataKind::Trade(trade)
            &&& trade.id@ == Seq::<char>::empty()
            &&& trade.price == number(row, 0)->0
            &&& trade.amount == number(row, 1)->0
            &&& trade.side is None
        },
        RowLayout::Candle { volume, .. } => kind == DataKind::Candle(
            Candle {
                close_time: time,
                open: number(row, 0)->0,
                high: number(row, 1)->0,
                low: number(row, 2)->0,
                close: number(row, 3)->0,
                volume: if volume is Some { number(row, 4) } else { None },
                trade_count: None,
            },
        ),
    }
}

/// The state of decoding one artifact.
///
/// It ends at the first error: the symbol and the order of the rows are properties of the whole
/// file, and no later row can restore them.
#[derive(Debug)]
pub struct LseExportEvents {
    layout: RowLayout,
    expected_symbol: String,
    exchange: ExchangeId,
    timeframe: LseExportTimeframe,
    instrument: InstrumentIndex,
    previous: Option<Timestamp>,
    failed: bool,
    remaining: u64,
}

/// What the reader of the file has next.
#[derive(Debug)]
pub enum NextRow {
    End,
    /// The reader failed, for this reason.
    Broken(String),
    Row(ExportRow),
}

/// An event of an artifact, or why there is none.
pub type Decoded = Result<MarketEvent<InstrumentIndex, DataKind>, LseError>;

/// How decoding goes on with what the reader of the file has next, and what it gives: nothing at the end or
/// after an error; the event of a row that decodes; and an error, once, for a row that does not or a reader
/// that failed.
pub open spec fn steps(
    before: LseExportEvents,
    row: NextRow,
    after: LseExportEvents,
    given: Option<Decoded>,
) -> bool {
    &&& after.same_artifact(before)
    &&& if before.has_failed() || row is End {
        after == before && given is None
    } else {
        match row {
            NextRow::Row(cells) => {
                &&& after.rows_left() == (if before.rows_left() > 0 {
                    before.rows_left() - 1
                } else {
                    0
                })
                &&& if before.decodes(cells) {
                    &&& given matches Some(Ok(event))
                    &&& before.is_event_of(cells, event)
                    &&& after.spec_previous() == Some(event.time_exchange)
                    &&& !after.has_failed()
                } else {
                    &&& given matches Some(Err(e))
                    &&& before.row_fault(cells, e)
                    &&& after.spec_previous() == before.spec_previous()
                    &&& after.has_failed()
                }
            },
            NextRow::Broken(reason) => {
                &&& given matches Some(Err(LseError::Parquet { message }))
                &&& message@ == reason@
                &&& after.has_failed()
                &&& after.spec_previous() == before.spec_previous()
                &&& after.rows_left() == before.rows_left()
            },
            NextRow::End => true,
        }
    }
}

/// Whether decoding of an artifact is started as it should be, or refused for what is wrong with its
/// columns.
pub open spec fn begins(
    r: Result<LseExportEvents, LseError>,
    export: LseExport,
    schema: ExportSchema,
    rows: u64,
    instrument: InstrumentIndex,
) -> bool {
    match r {
        Ok(events) => {
            &&& decodable(schema, export.spec_timeframe())
            &&& layout_of(column_names(schema), export.spec_timeframe()) == Some(events.spec_layout())
            &&& events.spec_symbol() == export.spec_symbol()
            &&& events.spec_exchange() == export.spec_dataset().exchange()
            &&& events.spec_timeframe() == export.spec_timeframe()
            &&& events.spec_instrument() == instrument
            &&& events.spec_previous() is None
            &&& !events.has_failed()
            &&& events.rows_left() == rows
        },
        Err(e) => !decodable(schema, export.spec_timeframe()) && schema_fault(e, schema, export.spec_timeframe()),
    }
}

impl LseExportEvents {
    #[verifier::type_invariant]
    spec fn layout_fits_timeframe(self) -> bool {
        &&& self.layout is Candle ==> self.timeframe is Candle
        &&& self.previous matches Some(t) ==> t.wf()
    }

    pub closed spec fn spec_layout(self) -> RowLayout {
        self.layout
    }

    pub closed spec fn spec_symbol(self) -> Seq<char> {
        self.expected_symbol@
    }

    pub closed spec fn spec_exchange(self) -> ExchangeId {
        self.exchange
    }

    pub closed spec fn spec_timeframe(self) -> LseExportTimeframe {
        self.timeframe
    }

    pub closed spec fn spec_instrument(self) -> InstrumentIndex {
        self.instrument
    }

    /// The time of the last event.
    pub closed spec fn spec_previous(self) -> Option<Timestamp> {
        self.previous
    }

    /// Whether an error has been given.
    pub closed spec fn has_failed(self) -> bool {
        self.failed
    }

    /// How many rows are left, by the file's own count.
    pub closed spec fn rows_left(self) -> u64 {
        self.remaining
    }

    /// Whether nothing but the position in the file differs.
    pub open spec fn same_artifact(self, other: LseExportEvents) -> bool {
        &&& self.spec_layout() == other.spec_layout()
        &&& self.spec_symbol() == other.spec_symbol()
        &&& self.spec_exchange() == other.spec_exchange()
        &&& self.spec_timeframe() == other.spec_timeframe()
        &&& self.spec_instrument() == other.spec_instrument()
    }

    /// When the row enters the timeline, where that can be told.
    pub open spec fn row_time(self, row: ExportRow) -> Option<Timestamp> {
        match row.ts {
            Some(micros) => match time::instant_of_micros(micros as int) {
                Some(time) => event_time(self.spec_timeframe(), self.spec_layout(), time),
                None => None,
            },
            None => None,
        }
    }

    /// Whether the row decodes: its symbol is the artifact's, its time can be told and is not before
    /// that of the last event, and every cell that is needed holds a number.
    pub open spec fn decodes(self, row: ExportRow) -> bool {
        &&& row.symbol matches Some(symbol)
        &&& symbol@ == self.spec_symbol()
        &&& self.row_time(row) matches Some(time)
        &&& cells_fit(self.spec_layout(), row, self.spec_layout().value_columns().len() as int)
        &&& self.spec_previous() matches Some(previous) ==> !time.before(previous)
    }

    /// Whether `e` reports why the row does not decode: the first of these that applies.
    pub open spec fn row_fault(self, row: ExportRow, e: LseError) -> bool {
        if row.symbol is None {
            e matches LseError::NullValue { column } && column@ == "symbol"@
        } else if row.symbol->0@ != self.spec_symbol() {
            &&& e matches LseError::SymbolMismatch { expected, found }
            &&& expected@ == self.spec_symbol()
            &&& found@ == row.symbol->0@
        } else if row.ts is None {
            e matches LseError::NullValue { column } && column@ == "ts"@
        } else if time::instant_of_micros(row.ts->0 as int) is None {
            e == (LseError::TimestampNotRepresentable { micros: row.ts->0 })
        } else if self.row_time(row) is None {
            e == (LseError::TimestampOverflow {
                open: time::instant_of_micros(row.ts->0 as int)->0,
                interval: self.spec_timeframe()->Candle_0,
            })
        } else if !cells_fit(self.spec_layout(), row, self.spec_layout().value_columns().len() as int) {
            cell_fault(e, self.spec_layout(), row)
        } else {
            e == (LseError::NonMonotonicTimestamps {
                previous: self.spec_previous()->0,
                found: self.row_time(row)->0,
            })
        }
    }

    /// The event of a row that decodes.
    pub open spec fn is_event_of(self, row: ExportRow, event: MarketEvent<InstrumentIndex, DataKind>) -> bool {
        &&& event.time_exchange == self.row_time(row)->0
        &&& event.time_received == event.time_exchange
        &&& event.exchange == self.spec_exchange()
        &&& event.instrument == self.spec_instrument()
        &&& tells(event.kind, self.spec_layout(), row, event.time_exchange)
    }

    /// Builds what the cells of a row tell, by the layout, with the time at which it enters the
    /// timeline: that of a tick is `time`, that of a bar is its end.
    fn decode_kind(&self, row: &ExportRow, time: Timestamp) -> (r: Result<(Timestamp, DataKind), LseError>)
        requires
            time.wf(),
        ensures
            match r {
                Ok((at, kind)) => {
                    &&& event_time(self.spec_timeframe(), self.spec_layout(), time) == Some(at)
                    &&& at.wf()
                    &&& cells_fit(self.spec_layout(), *row, self.spec_layout().value_columns().len() as int)
                    &&& tells(kind, self.spec_layout(), *row, at)
                },
                Err(e) => if event_time(self.spec_timeframe(), self.spec_layout(), time) is None {
                    e == (LseError::TimestampOverflow { open: time, interval: self.spec_timeframe()->Candle_0 })
                } else {
                    &&& !cells_fit(self.spec_layout(), *row, self.spec_layout().value_columns().len() as int)
                    &&& cell_fault(e, self.spec_layout(), *row)
                },
            },
    {
        proof {
            use_type_invariant(self);
        }
        let ghost layout = self.layout;
        match self.layout {
            RowLayout::Quote { .. } => {
                let bid = match decimal(row, 0, "bid") {
                    Ok(bid) => bid,
                    Err(e) => {
                        assert(bad_cell(layout, *row, 0));
                        return Err(e);
                    },
                };
                let ask = match decimal(row, 1, "ask") {
                    Ok(ask) => ask,
                    Err(e) => {
                        assert(bad_cell(layout, *row, 1));
                        return Err(e);
                    },
                };
                Ok((time, quote(time, bid, Some(ask))))
            },
            RowLayout::QuoteFromPrice { .. } => {
                let bid = match decimal(row, 0, "price") {
                    Ok(bid) => bid,
                    Err(e) => {
                        assert(bad_cell(layout, *row, 0));
                        return Err(e);
                    },
                };
                let ask = match optional_decimal(row, 1) {
                    Ok(ask) => ask,
                    Err(e) => {
                        assert(bad_cell(layout, *row, 1));
                        return Err(e);
                    },
                };
                Ok((time, quote(time, bid, ask)))
            },
            RowLayout::Trade { .. } => {
                let price = match decimal(row, 0, "price") {
                    Ok(price) => price,
                    Err(e) => {
                        assert(bad_cell(layout, *row, 0));
                        return Err(e);
                    },
                };
                let amount = match decimal(row, 1, "volume") {
                    Ok(amount) => amount,
                    Err(e) => {
                        assert(bad_cell(layout, *row, 1));
                        return Err(e);
                    },
                };
                Ok((time, DataKind::Trade(PublicTrade { id: String::new(), price, amount, side: None })))
            },
            RowLayout::Candle { volume, .. } => {
                let interval = match self.timeframe {
                    LseExportTimeframe::Candle(interval) => interval,
                    LseExportTimeframe::Tick => {
                        // A layout of bars is only ever resolved for a timeframe of bars.
                        assert(false);
                        return Err(LseError::UnsupportedSchema { columns: String::new() });
                    },
                };
                let close_time = match close_time_from_open(time, interval.to_step()) {
                    Some(close_time) => close_time,
                    None => {
                        return Err(LseError::TimestampOverflow { open: time, interval });
                    },
                };
                let open = match decimal(row, 0, "open") {
                    Ok(open) => open,
                    Err(e) => {
                        assert(bad_cell(layout, *row, 0));
                        return Err(e);
                    },
                };
                let high = match decimal(row, 1, "high") {
                    Ok(high) => high,
                    Err(e) => {
                        assert(bad_cell(layout, *row, 1));
                        return Err(e);
                    },
                };
                let low = match decimal(row, 2, "low") {
                    Ok(low) => low,
                    Err(e) => {
                        assert(bad_cell(layout, *row, 2));
                        return Err(e);
                    },
                };
                let close = match decimal(row, 3, "close") {
                    Ok(close) => close,
                    Err(e) => {
                        assert(bad_cell(layout, *row, 3));
                        return Err(e);
                    },
                };
                let volume = match volume {
                    Some(_) => match optional_decimal(row, 4) {
                        Ok(volume) => volume,
                        Err(e) => {
                            assert(bad_cell(layout, *row, 4));
                            return Err(e);
                        },
                    },
                    None => None,
                };
                Ok(
                    (
                        close_time,
                        DataKind::Candle(Candle { close_time, open, high, low, close, volume, trade_count: None }),
                    ),
                )
            },
        }
    }

    /// Decodes one row, and holds it to the artifact's symbol and to the order of time.
    ///
    /// Ties in time are common and permitted; only a step back is an error. For a file there is no
    /// instant of receipt, so it is that of the event.
    fn decode(&self, row: &ExportRow) -> (r: Decoded)
        ensures
            match r {
                Ok(event) => self.decodes(*row) && self.is_event_of(*row, event) && event.time_exchange.wf(),
                Err(e) => !self.decodes(*row) && self.row_fault(*row, e),
            },
    {
        let symbol = match &row.symbol {
            Some(symbol) => symbol,
            None => {
                return Err(LseError::NullValue { column: "symbol" });
            },
        };
        if !same_text(symbol.as_str(), self.expected_symbol.as_str()) {
            return Err(
                LseError::SymbolMismatch { expected: self.expected_symbol.clone(), found: symbol.clone() },
            );
        }
        let micros = match row.ts {
            Some(micros) => micros,
            None => {
                return Err(LseError::NullValue { column: "ts" });
            },
        };
        let observed = match Timestamp::from_micros(micros) {
            Some(observed) => observed,
            None => {
                return Err(LseError::TimestampNotRepresentable { micros });
            },
        };
        let (time_exchange, kind) = match self.decode_kind(row, observed) {
            Ok(decoded) => decoded,
            Err(e) => {
                return Err(e);
            },
        };
        if let Some(previous) = self.previous {
            if time_exchange.is_before(&previous) {
                return Err(LseError::NonMonotonicTimestamps { previous, found: time_exchange });
            }
        }
        Ok(
            MarketEvent {
                time_exchange,
                time_received: time_exchange,
                exchange: self.exchange,
                instrument: self.instrument,
                kind,
            },
        )
    }

    /// Takes in what the reader of the file has next, and gives the event of it.
    ///
    /// After an error there is nothing more, whatever the reader has.
    pub fn next(self, row: NextRow) -> (r: (LseExportEvents, Option<Decoded>))
        ensures
            steps(self, row, r.0, r.1),
    {
        proof {
            use_type_invariant(&self);
        }
        if self.failed {
            return (self, None);
        }
        match row {
            NextRow::End => (self, None),
            NextRow::Broken(message) => {
                let LseExportEvents {
                    layout,
                    expected_symbol,
                    exchange,
                    timeframe,
                    instrument,
                    previous,
                    remaining,
                    failed: _,
                } = self;
                (
                    LseExportEvents {
                        layout,
                        expected_symbol,
                        exchange,
                        timeframe,
                        instrument,
                        previous,
                        failed: true,
                        remaining,
                    },
                    Some(Err(LseError::Parquet { message })),
                )
            },
            NextRow::Row(cells) => {
                let decoded = self.decode(&cells);
                let LseExportEvents {
                    layout,
                    expected_symbol,
                    exchange,
                    timeframe,
                    instrument,
                    previous,
                    remaining,
                    failed: _,
                } = self;
                let remaining: u64 = if remaining > 0 { remaining - 1 } else { 0 };
                let (previous, failed) = match &decoded {
                    Ok(event) => (Some(event.time_exchange), false),
                    Err(_) => (previous, true),
                };
                (
                    LseExportEvents {
                        layout,
                        expected_symbol,
                        exchange,
                        timeframe,
                        instrument,
                        previous,
                        failed,
                        remaining,
                    },
                    Some(decoded),
                )
            },
        }
    }

    /// The least and the most number of events that can still come.
    pub fn size_hint(&self) -> (r: (u64, u64))
        ensures
            r.0 == 0,
            r.1 == if self.has_failed() {
                0
            } else {
                self.rows_left()
            },
    {
        if self.failed {
            (0, 0)
        } else {
            (0, self.remaining)
        }
    }
}

/// Starts decoding an artifact of `rows` rows for one instrument, once its columns have passed.
///
/// The time of a bar is its end, not the open that the file holds: an open would let a strategy act
/// on a bar before it is complete.
pub fn read_export(
    export: &LseExport,
    schema: &ExportSchema,
    rows: u64,
    instrument: InstrumentIndex,
) -> (r: Result<LseExportEvents, LseError>)
    ensures
        begins(r, *export, *schema, rows, instrument),
{
    match check_schema(schema, export.timeframe()) {
        Ok(layout) => Ok(
            LseExportEvents {
                layout,
                expected_symbol: String::from_str(export.symbol()),
                exchange: export.exchange_id(),
                timeframe: export.timeframe(),
                instrument,
                previous: None,
                failed: false,
                remaining: rows,
            },
        ),
        Err(e) => Err(e),
    }
}

/// The events of an artifact are in the order of time, ties permitted: over any run of rows that
/// decode one behind the other, no event is earlier than one before it.
pub proof fn law_events_ascend(
    states: Seq<LseExportEvents>,
    rows: Seq<ExportRow>,
    events: Seq<MarketEvent<InstrumentIndex, DataKind>>,
    i: int,
    j: int,
)
    requires
        states.len() == rows.len() + 1,
        events.len() == rows.len(),
        forall|k: int|
            0 <= k < rows.len() ==> {
                &&& states[k].decodes(#[trigger] rows[k])
                &&& states[k].is_event_of(rows[k], events[k])
                &&& states[k + 1].spec_previous() == Some(events[k].time_exchange)
            },
        0 <= i < j < rows.len(),
    ensures
        !events[j].time_exchange.before(events[i].time_exchange),
    decreases j - i,
{
    assert(states[j].decodes(rows[j]));
    assert(states[j - 1].decodes(rows[j - 1]));
    assert(states[j].spec_previous() == Some(events[j - 1].time_exchange));
    if i < j - 1 {
        law_events_ascend(states, rows, events, i, j - 1);
    }
}

/// Every event of an artifact carries the venue of its dataset and the instrument that it was read
/// for, and comes from a row with the artifact's own symbol.
pub proof fn law_events_are_attributed(
    events: LseExportEvents,
    row: ExportRow,
    event: MarketEvent<InstrumentIndex, DataKind>,
)
    requires
        events.decodes(row),
        events.is_event_of(row, event),
    ensures
        event.exchange == events.spec_exchange(),
        event.instrument == events.spec_instrument(),
        row.symbol->0@ == events.spec_symbol(),
{
}

/// Whether an instrument is executed on the venue under the name.
pub open spec fn is_listed_as(
    instrument: Keyed<InstrumentIndex, IndexedInstrument>,
    exchange: ExchangeId,
    symbol: Seq<char>,
) -> bool {
    instrument.value.exchange.value == exchange && instrument.value.name_exchange@ == symbol
}

/// The names of the instruments that are executed on the venue.
pub open spec fn names_on(
    instruments: Seq<Keyed<InstrumentIndex, IndexedInstrument>>,
    exchange: ExchangeId,
) -> Seq<Seq<char>>
    decreases instruments.len(),
{
    if instruments.len() == 0 {
        Seq::empty()
    } else {
        let before = names_on(instruments.drop_last(), exchange);
        if instruments.last().value.exchange.value == exchange {
            before.push(instruments.last().value.name_exchange@)
        } else {
            before
        }
    }
}

/// Whether `r` is the index of the first instrument that is executed on the venue under the name, or the
/// error for a name that none has there.
pub open spec fn is_registration(
    r: Result<InstrumentIndex, LseError>,
    instruments: Seq<Keyed<InstrumentIndex, IndexedInstrument>>,
    exchange: ExchangeId,
    symbol: Seq<char>,
) -> bool {
    match r {
        Ok(index) => {
            &&& index.0 < instruments.len()
            &&& is_listed_as(instruments[index.0 as int], exchange, symbol)
            &&& forall|k: int| 0 <= k < index.0 ==> !is_listed_as(#[trigger] instruments[k], exchange, symbol)
        },
        Err(e) => {
            &&& forall|k: int|
                0 <= k < instruments.len() ==> !is_listed_as(#[trigger] instruments[k], exchange, symbol)
            &&& e matches LseError::UnknownInstrument { symbol: named, exchange: venue, registered }
            &&& named@ == symbol
            &&& venue == exchange
            &&& registered@ == text::joined(names_on(instruments, exchange), ", "@)
        },
    }
}

/// The index under which a symbol is registered on a venue: that of the first instrument with it.
///
/// An index that is derived from the registry cannot be of another instrument, and a mistyped symbol
/// is an error that lists what is registered on the venue.
pub fn instrument_index_for(instruments: &IndexedInstruments, exchange: ExchangeId, symbol: &str) -> (r: Result<
    InstrumentIndex,
    LseError,
>)
    ensures
        is_registration(r, instruments.spec_instruments(), exchange, symbol@),
{
    let list = instruments.instruments();
    let mut names: Vec<String> = Vec::new();
    let mut i: usize = 0;
    assert(list@.take(0) =~= Seq::<Keyed<InstrumentIndex, IndexedInstrument>>::empty());
    assert(text::texts(names@) =~= names_on(list@.take(0), exchange));
    while i < list.len()
        invariant
            i <= list.len(),
            list@ == instruments.spec_instruments(),
            forall|k: int| 0 <= k < list@.len() ==> (#[trigger] list@[k]).key.0 == k,
            forall|k: int| 0 <= k < i ==> !is_listed_as(#[trigger] list@[k], exchange, symbol@),
            text::texts(names@) == names_on(list@.take(i as int), exchange),
        decreases list.len() - i,
    {
        let keyed = &list[i];
        proof {
            assert(list@.take(i + 1).drop_last() =~= list@.take(i as int));
            assert(list@.take(i + 1).last() == list@[i as int]);
        }
        if keyed.value.exchange.value == exchange {
            if same_text(keyed.value.name_exchange.as_str(), symbol) {
                return Ok(keyed.key);
            }
            let ghost before = names@;
            names.push(keyed.value.name_exchange.clone());
            assert(text::texts(names@) =~= text::texts(before).push(keyed.value.name_exchange@));
        }
        i = i + 1;
    }
    assert(list@.take(i as int) =~= list@);
    Err(
        LseError::UnknownInstrument { symbol: String::from_str(symbol), exchange, registered: join(&names, ", ") },
    )
}

/// The texts of cells that hold one.
pub open spec fn cell_texts(cells: Seq<Option<String>>) -> Seq<Seq<char>> {
    cells.map_values(|cell: Option<String>| cell->0@)
}

/// Whether no cell is null.
pub open spec fn no_null(cells: Seq<Option<String>>) -> bool {
    forall|i: int| 0 <= i < cells.len() ==> (#[trigger] cells[i]) is Some
}

/// The distinct symbols of an artifact, in the order in which each is first seen, from the names of
/// its columns and the cells of its symbol column.
///
/// Lets a caller hold a file against a registry before it is decoded.
pub fn symbols_in_export(columns: &Vec<String>, cells: &Vec<Option<String>>) -> (r: Result<Vec<String>, LseError>)
    ensures
        match r {
            Ok(symbols) => {
                &&& text::texts(columns@).contains("symbol"@)
                &&& no_null(cells@)
                &&& text::texts(symbols@) == collection::first_seen(cell_texts(cells@))
            },
            Err(e) => if !text::texts(columns@).contains("symbol"@) {
                unsupported_schema(e, text::texts(columns@))
            } else {
                &&& !no_null(cells@)
                &&& e matches LseError::NullValue { column }
                &&& column@ == "symbol"@
            },
        },
{
    if !collection::has_text(columns, "symbol") {
        return Err(LseError::UnsupportedSchema { columns: join(columns, ", ") });
    }
    let mut symbols: Vec<String> = Vec::new();
    let mut i: usize = 0;
    assert(text::texts(symbols@) =~= collection::first_seen(cell_texts(cells@.take(0))));
    while i < cells.len()
        invariant
            i <= cells.len(),
            text::texts(columns@).contains("symbol"@),
            forall|k: int| 0 <= k < i ==> (#[trigger] cells@[k]) is Some,
            text::texts(symbols@) == collection::first_seen(cell_texts(cells@.take(i as int))),
        decreases cells.len() - i,
    {
        proof {
            let longer = cell_texts(cells@.take(i + 1));
            assert(longer.drop_last() =~= cell_texts(cells@.take(i as int)));
            assert(longer.last() == cells@[i as int]->0@);
        }
        match &cells[i] {
            Some(symbol) => {
                add_text(&mut symbols, symbol);
            },
            None => {
                assert(!(cells@[i as int] is Some));
                return Err(LseError::NullValue { column: "symbol" });
            },
        }
        i = i + 1;
    }
    assert(cells@.take(i as int) =~= cells@);
    Ok(symbols)
}

} // verus!
