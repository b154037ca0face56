//! What the cells of an artifact become: which column reaches which field, and when.

use vstd::prelude::*;
use vstd::string::*;
use crate::exchange::ExchangeId;
use crate::index::{IndexedInstrument, Keyed};
use crate::lse::error::LseError;
use crate::lse::export::{LseExport, LseExportTimeframe};
use crate::lse::parquet;
use crate::lse::parquet::{
    ColumnKind,
    Decoded,
    ExportRow,
    ExportSchema,
    Logical,
    LseExportEvents,
    NextRow,
    Physical,
    RowLayout,
};
use crate::market::{DataKind, Decimal, InstrumentIndex, MarketEvent};
use crate::text;
use crate::time;
use crate::time::{CandleInterval, CandleStep};

verus! {

/// The position of a name is the first at which it stands, and there is none exactly where it does not.
pub proof fn law_position_is_the_first(names: Seq<Seq<char>>, name: Seq<char>)
    ensures
        match parquet::position(names, name) {
            Some(i) => {
                &&& 0 <= i < names.len()
                &&& names[i] == name
                &&& forall|k: int| 0 <= k < i ==> #[trigger] names[k] != name
            },
            None => !names.contains(name),
        },
    decreases names.len(),
{
    if names.len() > 0 {
        let shorter = names.drop_last();
        law_position_is_the_first(shorter, name);
        assert(forall|k: int| 0 <= k < shorter.len() ==> #[trigger] names[k] == shorter[k]);
        if parquet::position(names, name) is None {
            assert forall|k: int| 0 <= k < names.len() implies names[k] != name by {
                if k < shorter.len() {
                    assert(shorter[k] != name);
                }
            }
        }
    }
}

/// Whether a position is that of a column with a name.
pub open spec fn holds(names: Seq<Seq<char>>, at: usize, name: Seq<char>) -> bool {
    at < names.len() && names[at as int] == name
}

/// A layout points to the columns that it is named after, and to no others, in the order in which a row
/// carries their cells.
pub proof fn law_layout_points_to_its_columns(names: Seq<Seq<char>>, timeframe: LseExportTimeframe, layout: RowLayout)
    requires
        parquet::layout_of(names, timeframe) == Some(layout),
        names.len() <= usize::MAX,
    ensures
        names.contains("ts"@),
        names.contains("symbol"@),
        layout is Candle <==> timeframe is Candle,
        layout matches RowLayout::Quote { bid, ask } ==> {
            &&& holds(names, bid, "bid"@)
            &&& holds(names, ask, "ask"@)
            &&& layout.value_columns() == seq![bid, ask]
        },
        layout matches RowLayout::QuoteFromPrice { price, ask } ==> {
            &&& !names.contains("bid"@)
            &&& holds(names, price, "price"@)
            &&& holds(names, ask, "ask"@)
            &&& layout.value_columns() == seq![price, ask]
        },
        layout matches RowLayout::Trade { price, volume } ==> {
            &&& !names.contains("bid"@) && !names.contains("ask"@)
            &&& holds(names, price, "price"@)
            &&& holds(names, volume, "volume"@)
            &&& layout.value_columns() == seq![price, volume]
        },
        layout matches RowLayout::Candle { open, high, low, close, volume } ==> {
            &&& holds(names, open, "open"@)
            &&& holds(names, high, "high"@)
            &&& holds(names, low, "low"@)
            &&& holds(names, close, "close"@)
            &&& volume is Some <==> names.contains("volume"@)
            &&& volume is None ==> layout.value_columns() == seq![open, high, low, close]
            &&& volume is Some ==> holds(names, volume->0, "volume"@) && layout.value_columns() == seq![
                open,
                high,
                low,
                close,
                volume->0,
            ]
        },
{
    lemma_columns(names);
}

proof fn lemma_contained(names: Seq<Seq<char>>, name: Seq<char>)
    requires
        names.len() <= usize::MAX,
    ensures
        parquet::column(names, name) is Some <==> names.contains(name),
        parquet::column(names, name) matches Some(at) ==> holds(names, at, name),
{
    law_position_is_the_first(names, name);
}

proof fn lemma_columns(names: Seq<Seq<char>>)
    requires
        names.len() <= usize::MAX,
    ensures
        forall|name: Seq<char>|
            #![trigger parquet::column(names, name)]
            {
                &&& parquet::column(names, name) is Some <==> names.contains(name)
                &&& parquet::column(names, name) matches Some(at) ==> holds(names, at, name)
            },
{
    assert forall|name: Seq<char>|
        #![trigger parquet::column(names, name)]
        {
            &&& parquet::column(names, name) is Some <==> names.contains(name)
            &&& parquet::column(names, name) matches Some(at) ==> holds(names, at, name)
        } by {
        lemma_contained(names, name);
    }
}

/// Which columns make an artifact one that is decoded: a timestamp and a symbol always; for bars the four
/// prices; for ticks a bid and an ask, or a price with an ask, or a price with a volume.
pub proof fn law_layouts_are_told_by_their_columns(names: Seq<Seq<char>>, timeframe: LseExportTimeframe)
    requires
        names.len() <= usize::MAX,
    ensures
        parquet::layout_of(names, timeframe) is Some <==> {
            &&& names.contains("ts"@) && names.contains("symbol"@)
            &&& timeframe is Candle ==> names.contains("open"@) && names.contains("high"@) && names.contains("low"@)
                && names.contains("close"@)
            &&& timeframe is Tick ==> {
                ||| names.contains("bid"@) && names.contains("ask"@)
                ||| !names.contains("bid"@) && names.contains("ask"@) && names.contains("price"@)
                ||| !names.contains("bid"@) && !names.contains("ask"@) && names.contains("price"@) && names.contains(
                    "volume"@,
                )
            }
        },
        timeframe is Tick && parquet::layout_of(names, timeframe) is Some ==> {
            let layout = parquet::layout_of(names, timeframe)->0;
            &&& layout is Quote <==> names.contains("bid"@)
            &&& layout is Trade <==> !names.contains("ask"@)
        },
{
    lemma_columns(names);
}

/// Each kind of column has one way of being stored: instants as 64-bit microseconds that are said to be UTC,
/// texts as bytes that are said to be text, and numbers as doubles of which nothing more is said.
pub proof fn law_each_kind_is_stored_one_way(physical: Physical, logical: Logical)
    ensures
        parquet::stored_kind(physical, logical) is TimestampMicrosUtc <==> physical is Int64 && (logical
            matches Logical::Timestamp { utc, unit } && utc && unit is Micros),
        parquet::stored_kind(physical, logical) is Text <==> physical is ByteArray && logical is Text,
        parquet::stored_kind(physical, logical) is Double <==> physical is Double && logical is Absent,
{
}

proof fn lemma_none_wrong(schema: ExportSchema, checks: Seq<(usize, ColumnKind)>)
    ensures
        parquet::first_wrong(schema, checks) is None <==> forall|k: int|
            0 <= k < checks.len() ==> schema.columns@[(#[trigger] checks[k]).0 as int].kind == checks[k].1,
    decreases checks.len(),
{
    if checks.len() > 0 {
        let shorter = checks.drop_last();
        let last = checks.len() - 1;
        lemma_none_wrong(schema, shorter);
        assert(forall|k: int| 0 <= k < last ==> #[trigger] checks[k] == shorter[k]);
        if parquet::first_wrong(schema, checks) is None {
            assert forall|k: int| 0 <= k < checks.len() implies schema.columns@[(#[trigger] checks[k]).0 as int].kind
                == checks[k].1 by {
                if k < last {
                    assert(schema.columns@[shorter[k].0 as int].kind == shorter[k].1);
                }
            }
        } else if parquet::first_wrong(schema, shorter) is None {
            assert(schema.columns@[checks[last].0 as int].kind != checks[last].1);
        } else {
            let k = choose|k: int|
                0 <= k < shorter.len() && schema.columns@[(#[trigger] shorter[k]).0 as int].kind != shorter[k].1;
            assert(schema.columns@[checks[k].0 as int].kind != checks[k].1);
        }
    }
}

/// An artifact is decoded only where its columns are flat and each is stored as what it is read as: the
/// timestamp as microseconds of UTC, the symbol as text, and every number as a double.
pub proof fn law_decoded_columns_are_stored_as_read(schema: ExportSchema, timeframe: LseExportTimeframe, k: int)
    requires
        parquet::decodable(schema, timeframe),
        schema.columns@.len() <= usize::MAX,
    ensures
        schema.flat,
        parquet::layout_of(parquet::column_names(schema), timeframe) is Some,
        ({
            let names = parquet::column_names(schema);
            let layout = parquet::layout_of(names, timeframe)->0;
            let ts = parquet::column(names, "ts"@)->0;
            let symbol = parquet::column(names, "symbol"@)->0;
            &&& schema.columns@[ts as int].name@ == "ts"@ && schema.columns@[ts as int].kind is TimestampMicrosUtc
            &&& schema.columns@[symbol as int].name@ == "symbol"@ && schema.columns@[symbol as int].kind is Text
            &&& 0 <= k < layout.value_columns().len() ==> schema.columns@[layout.value_columns()[k] as int].kind is Double
        }),
{
    let names = parquet::column_names(schema);
    let layout = parquet::layout_of(names, timeframe)->0;
    let checks = parquet::checked_columns(names, layout);
    lemma_columns(names);
    lemma_none_wrong(schema, checks);
    assert(names.len() == schema.columns@.len());
    assert(schema.columns@[checks[0].0 as int].kind == checks[0].1);
    assert(schema.columns@[checks[1].0 as int].kind == checks[1].1);
    assert(names.contains("ts"@) && names.contains("symbol"@));
    if 0 <= k < layout.value_columns().len() {
        assert(checks[k + 2] == (layout.value_columns()[k], ColumnKind::Double));
        assert(schema.columns@[checks[k + 2].0 as int].kind == checks[k + 2].1);
    }
}

/// Whether the cell at a place of a row holds a number, and it is this one.
pub open spec fn holds_number(row: ExportRow, at: int, number: Decimal) -> bool {
    &&& 0 <= at < row.values@.len()
    &&& row.values@[at] matches Some(double)
    &&& double.decimal == Ok::<Decimal, String>(number)
}

/// Whether the cell at a place of a row is absent or null.
pub open spec fn is_null(row: ExportRow, at: int) -> bool {
    0 <= at < row.values@.len() ==> row.values@[at] is None
}

/// Each cell reaches the field of its own column. A bid, or a price beside an ask, is the best bid, and the ask
/// the best ask; a price beside a volume is the price of a trade of that amount; and the open, high, low,
/// close and volume of a bar are those of the candle. No sizes, sides, ids or counts are made up.
pub proof fn law_cells_reach_their_fields(
    events: LseExportEvents,
    row: ExportRow,
    event: MarketEvent<InstrumentIndex, DataKind>,
)
    requires
        events.decodes(row),
        events.is_event_of(row, event),
    ensures
        event.kind is OrderBookL1 <==> events.spec_layout() is Quote || events.spec_layout() is QuoteFromPrice,
        event.kind is Trade <==> events.spec_layout() is Trade,
        event.kind is Candle <==> events.spec_layout() is Candle,
        event.kind matches DataKind::OrderBookL1(book) ==> {
            &&& book.last_update_time == event.time_exchange
            &&& book.best_bid matches Some(bid) && holds_number(row, 0, bid.price) && bid.amount.mantissa == 0
            &&& book.best_ask matches Some(ask) ==> holds_number(row, 1, ask.price) && ask.amount.mantissa == 0
            &&& book.best_ask is None ==> events.spec_layout() is QuoteFromPrice && is_null(row, 1)
        },
        event.kind matches DataKind::Trade(trade) ==> {
            &&& holds_number(row, 0, trade.price)
            &&& holds_number(row, 1, trade.amount)
            &&& trade.id@.len() == 0
            &&& trade.side is None
        },
        event.kind matches DataKind::Candle(candle) ==> {
            &&& candle.close_time == event.time_exchange
            &&& holds_number(row, 0, candle.open)
            &&& holds_number(row, 1, candle.high)
            &&& holds_number(row, 2, candle.low)
            &&& holds_number(row, 3, candle.close)
            &&& candle.volume matches Some(volume) ==> holds_number(row, 4, volume)
            &&& candle.volume is None ==> events.spec_layout()->Candle_volume is None || is_null(row, 4)
            &&& candle.trade_count is None
        },
{
    let layout = events.spec_layout();
    let n = layout.value_columns().len() as int;
    assert forall|at: int| 0 <= at < n implies !#[trigger] parquet::bad_cell(layout, row, at) by {}
    assert(!parquet::bad_cell(layout, row, 0));
    assert(!parquet::bad_cell(layout, row, 1));
    if layout is Candle {
        assert(!parquet::bad_cell(layout, row, 2));
        assert(!parquet::bad_cell(layout, row, 3));
        if layout->Candle_volume is Some {
            assert(!parquet::bad_cell(layout, row, 4));
        }
    }
}

/// A tick enters the timeline at the instant that its row is of, and a bar when it is complete: the length of
/// the resolution after the instant at which it opened. It is received at the same instant, as that of no
/// other venue and for no other instrument than the artifact's.
pub proof fn law_events_enter_when_they_are_known(
    events: LseExportEvents,
    row: ExportRow,
    event: MarketEvent<InstrumentIndex, DataKind>,
)
    requires
        events.decodes(row),
        events.is_event_of(row, event),
    ensures
        event.time_received == event.time_exchange,
        event.exchange == events.spec_exchange(),
        event.instrument == events.spec_instrument(),
        row.ts is Some,
        row.symbol is Some && row.symbol->0@ == events.spec_symbol(),
        !(events.spec_layout() is Candle) ==> event.time_exchange.secs * 1_000_000_000 + event.time_exchange.nanos
            == row.ts->0 * 1_000,
        events.spec_layout() is Candle ==> {
            let interval = events.spec_timeframe()->Candle_0;
            let opened = time::instant_of_micros(row.ts->0 as int)->0;
            &&& opened.secs * 1_000_000_000 + opened.nanos == row.ts->0 * 1_000
            &&& time::close_of(opened, interval.step()) == Some(event.time_exchange)
            &&& interval.step() matches CandleStep::Seconds(n) ==> event.time_exchange.secs * 1_000_000_000
                + event.time_exchange.nanos == row.ts->0 * 1_000 + n * 1_000_000_000
            &&& interval == CandleInterval::Min1 ==> event.time_exchange.secs == opened.secs + 60
            &&& interval == CandleInterval::Hour1 ==> event.time_exchange.secs == opened.secs + 3_600
            &&& interval == CandleInterval::Day1 ==> event.time_exchange.secs == opened.secs + 86_400
        },
        events.spec_previous() matches Some(previous) ==> !event.time_exchange.before(previous),
{
    time::law_microseconds_are_kept(row.ts->0);
}

/// A row decodes exactly where it has the artifact's symbol and an instant that is representable and not
/// before the last event, and where every cell that must hold a number does: a null is no error only for the
/// ask beside a price and for the volume of a bar.
pub proof fn law_rows_decode_unless_something_is_wrong(events: LseExportEvents, row: ExportRow)
    ensures
        events.decodes(row) <==> {
            &&& row.symbol is Some && row.symbol->0@ == events.spec_symbol()
            &&& row.ts is Some && time::instant_of_micros(row.ts->0 as int) is Some
            &&& events.row_time(row) is Some
            &&& events.spec_previous() is Some ==> !events.row_time(row)->0.before(events.spec_previous()->0)
            &&& forall|at: int|
                0 <= at < events.spec_layout().value_columns().len() ==> {
                    ||| (#[trigger] is_null(row, at) && at == 1 && events.spec_layout() is QuoteFromPrice)
                    ||| (is_null(row, at) && at == 4 && events.spec_layout() is Candle)
                    ||| (exists|number: Decimal| #[trigger] holds_number(row, at, number))
                }
        },
{
    let layout = events.spec_layout();
    let n = layout.value_columns().len() as int;
    assert forall|at: int| 0 <= at < n implies (!#[trigger] parquet::bad_cell(layout, row, at) <==> {
        ||| (is_null(row, at) && at == 1 && layout is QuoteFromPrice)
        ||| (is_null(row, at) && at == 4 && layout is Candle)
        ||| (exists|number: Decimal| #[trigger] holds_number(row, at, number))
    }) by {
        if parquet::reading(row, at) is Number {
            assert(holds_number(row, at, parquet::reading(row, at)->Number_0));
        }
    }
    let usable = forall|at: int|
        0 <= at < n ==> {
            ||| (#[trigger] is_null(row, at) && at == 1 && layout is QuoteFromPrice)
            ||| (is_null(row, at) && at == 4 && layout is Candle)
            ||| (exists|number: Decimal| #[trigger] holds_number(row, at, number))
        };
    if usable {
        assert forall|at: int| 0 <= at < n implies !#[trigger] parquet::bad_cell(layout, row, at) by {
            assert(is_null(row, at) || !is_null(row, at));
        }
        assert(parquet::cells_fit(layout, row, n));
    }
    if parquet::cells_fit(layout, row, n) {
        assert forall|at: int| 0 <= at < n implies {
            ||| (#[trigger] is_null(row, at) && at == 1 && layout is QuoteFromPrice)
            ||| (is_null(row, at) && at == 4 && layout is Candle)
            ||| (exists|number: Decimal| #[trigger] holds_number(row, at, number))
        } by {
            assert(!parquet::bad_cell(layout, row, at));
        }
    }
    assert(usable == parquet::cells_fit(layout, row, n));
}

/// All rows of an artifact are decoded alike: no row changes what the events are of, or which columns they are read from.
pub proof fn law_rows_are_decoded_alike(
    before: LseExportEvents,
    row: NextRow,
    after: LseExportEvents,
    given: Option<Decoded>,
)
    requires
        parquet::steps(before, row, after, given),
    ensures
        after.spec_layout() == before.spec_layout(),
        after.spec_symbol() == before.spec_symbol(),
        after.spec_exchange() == before.spec_exchange(),
        after.spec_timeframe() == before.spec_timeframe(),
        after.spec_instrument() == before.spec_instrument(),
{
}

/// Every row gives one event or one error until the first error, behind which nothing more is given.
pub proof fn law_nothing_follows_an_error(
    before: LseExportEvents,
    row: NextRow,
    after: LseExportEvents,
    given: Option<Decoded>,
)
    requires
        parquet::steps(before, row, after, given),
    ensures
        before.has_failed() ==> given is None && after.has_failed(),
        !before.has_failed() ==> (given is None <==> row is End),
        given is Some && given->0 is Err <==> !before.has_failed() && after.has_failed(),
        given is Some && given->0 is Ok ==> row is Row && before.decodes(row->Row_0) && before.is_event_of(
            row->Row_0,
            given->0->Ok_0,
        ) && after.spec_previous() == Some(given->0->Ok_0.time_exchange),
        row is Row && !before.has_failed() && before.decodes(row->Row_0) ==> given is Some && given->0 is Ok,
        row is Row && !before.has_failed() && before.rows_left() > 0 ==> after.rows_left() == before.rows_left() - 1,
{
}

/// The instrument that a symbol is registered as is executed on the venue under that name, and there is one as
/// soon as some instrument is.
pub proof fn law_registered_symbols_are_found(
    r: Result<InstrumentIndex, LseError>,
    instruments: Seq<Keyed<InstrumentIndex, IndexedInstrument>>,
    exchange: ExchangeId,
    symbol: Seq<char>,
    k: int,
)
    requires
        parquet::is_registration(r, instruments, exchange, symbol),
        0 <= k < instruments.len(),
    ensures
        r matches Ok(index) ==> {
            &&& index.0 < instruments.len()
            &&& instruments[index.0 as int].value.exchange.value == exchange
            &&& instruments[index.0 as int].value.name_exchange@ == symbol
        },
        instruments[k].value.exchange.value == exchange && instruments[k].value.name_exchange@ == symbol ==> r is Ok
            && r->Ok_0.0 <= k,
        r is Err && instruments[k].value.exchange.value == exchange ==> parquet::names_on(
            instruments,
            exchange,
        ).contains(instruments[k].value.name_exchange@),
{
    if r is Err {
        assert(!parquet::is_listed_as(instruments[k], exchange, symbol));
        lemma_names_on(instruments, exchange, k);
    } else if parquet::is_listed_as(instruments[k], exchange, symbol) {
        assert(!(k < r->Ok_0.0));
    }
}

proof fn lemma_names_on(
    instruments: Seq<Keyed<InstrumentIndex, IndexedInstrument>>,
    exchange: ExchangeId,
    k: int,
)
    requires
        0 <= k < instruments.len(),
    ensures
        instruments[k].value.exchange.value == exchange ==> parquet::names_on(instruments, exchange).contains(
            instruments[k].value.name_exchange@,
        ),
    decreases instruments.len(),
{
    let shorter = instruments.drop_last();
    let all = parquet::names_on(instruments, exchange);
    let before = parquet::names_on(shorter, exchange);
    let name = instruments[k].value.name_exchange@;
    if instruments[k].value.exchange.value == exchange {
        if k < shorter.len() {
            lemma_names_on(shorter, exchange, k);
            let at = choose|at: int| 0 <= at < before.len() && before[at] == name;
            assert(all[at] == name);
        } else {
            assert(all[before.len() as int] == name);
        }
    }
}

/// What a place of a layout is called in an error is the name of the column that it is read from.
pub proof fn law_places_are_named_after_their_columns(
    names: Seq<Seq<char>>,
    timeframe: LseExportTimeframe,
    layout: RowLayout,
    k: int,
)
    requires
        parquet::layout_of(names, timeframe) == Some(layout),
        names.len() <= usize::MAX,
        0 <= k < layout.value_columns().len(),
    ensures
        layout.value_columns()[k] < names.len(),
        names[layout.value_columns()[k] as int] == parquet::place_name(layout, k),
{
    law_layout_points_to_its_columns(names, timeframe, layout);
}

/// A row that does not decode is reported for what is wrong with it: the error holds what was expected and what was found,
/// and names the column.
pub proof fn law_row_faults_say_what_is_wrong(events: LseExportEvents, row: ExportRow, e: LseError)
    requires
        !events.decodes(row),
        events.row_fault(row, e),
    ensures
        row.symbol is None ==> (e matches LseError::NullValue { column } && column@ == "symbol"@),
        e is SymbolMismatch <==> row.symbol is Some && row.symbol->0@ != events.spec_symbol(),
        e matches LseError::SymbolMismatch { expected, found } ==> expected@ == events.spec_symbol() && found@
            == row.symbol->0@,
        e matches LseError::TimestampNotRepresentable { micros } ==> row.ts == Some(micros) && time::instant_of_micros(
            micros as int,
        ) is None,
        e matches LseError::TimestampOverflow { open, interval } ==> {
            &&& events.spec_layout() is Candle
            &&& row.ts is Some && time::instant_of_micros(row.ts->0 as int) == Some(open)
            &&& interval == events.spec_timeframe()->Candle_0
            &&& time::close_of(open, interval.step()) is None
        },
        e matches LseError::NonMonotonicTimestamps { previous, found } ==> {
            &&& events.spec_previous() == Some(previous)
            &&& events.row_time(row) == Some(found)
            &&& found.before(previous)
        },
        e matches LseError::PriceNotRepresentable { value, message } ==> exists|at: int|
            {
                &&& 0 <= at < events.spec_layout().value_columns().len()
                &&& 0 <= at < row.values@.len()
                &&& (#[trigger] row.values@[at]) matches Some(double)
                &&& double.text@ == value@
                &&& double.decimal matches Err(reason)
                &&& reason@ == message@
            },
        e is NullValue && row.symbol is Some && row.ts is Some ==> exists|at: int|
            {
                &&& 0 <= at < events.spec_layout().value_columns().len()
                &&& #[trigger] is_null(row, at)
                &&& e->NullValue_column@ == parquet::place_name(events.spec_layout(), at)
            },
        e is NullValue || e is SymbolMismatch || e is TimestampNotRepresentable || e is TimestampOverflow || e
            is PriceNotRepresentable || e is NonMonotonicTimestamps,
{
    let layout = events.spec_layout();
    let n = layout.value_columns().len() as int;
    if row.symbol is Some && row.symbol->0@ == events.spec_symbol() && row.ts is Some && events.row_time(row) is Some
        && !parquet::cells_fit(layout, row, n) {
        let at = choose|at: int|
            {
                &&& 0 <= at < n
                &&& parquet::cells_fit(layout, row, at)
                &&& #[trigger] parquet::bad_cell(layout, row, at)
                &&& parquet::number_fault(e, row, at, parquet::place_name(layout, at))
            };
        assert(parquet::bad_cell(layout, row, at));
        if parquet::reading(row, at) is Unrepresentable {
            assert(row.values@[at] is Some);
        } else {
            assert(is_null(row, at));
        }
    }
}

proof fn lemma_first_wrong(schema: ExportSchema, checks: Seq<(usize, ColumnKind)>) -> (k: int)
    requires
        parquet::first_wrong(schema, checks) is Some,
    ensures
        0 <= k < checks.len(),
        checks[k] == parquet::first_wrong(schema, checks)->0,
        schema.columns@[checks[k].0 as int].kind != checks[k].1,
        forall|j: int| 0 <= j < k ==> schema.columns@[(#[trigger] checks[j]).0 as int].kind == checks[j].1,
    decreases checks.len(),
{
    let shorter = checks.drop_last();
    let last = checks.len() - 1;
    assert(forall|j: int| 0 <= j < last ==> #[trigger] checks[j] == shorter[j]);
    if parquet::first_wrong(schema, shorter) is Some {
        let k = lemma_first_wrong(schema, shorter);
        assert forall|j: int| 0 <= j < k implies schema.columns@[(#[trigger] checks[j]).0 as int].kind == checks[j].1 by {
            assert(schema.columns@[shorter[j].0 as int].kind == shorter[j].1);
        }
        k
    } else {
        lemma_none_wrong(schema, shorter);
        assert forall|j: int| 0 <= j < last implies schema.columns@[(#[trigger] checks[j]).0 as int].kind == checks[j].1 by {
            assert(schema.columns@[shorter[j].0 as int].kind == shorter[j].1);
        }
        last
    }
}

/// An artifact that is not decoded is refused for its layout, with the names of all its columns, or else for a column that is
/// not stored as what it is read as: the error names that column, and says how it is stored and how it would have to be.
pub proof fn law_schema_faults_say_what_is_wrong(
    schema: ExportSchema,
    timeframe: LseExportTimeframe,
    e: LseError,
) -> (at: int)
    requires
        !parquet::decodable(schema, timeframe),
        parquet::schema_fault(e, schema, timeframe),
        schema.columns@.len() <= usize::MAX,
    ensures
        e is UnsupportedSchema <==> !schema.flat || parquet::layout_of(parquet::column_names(schema), timeframe) is None,
        e matches LseError::UnsupportedSchema { columns } ==> columns@ == text::joined(
            parquet::column_names(schema),
            ", "@,
        ),
        !(e is UnsupportedSchema) ==> {
            &&& 0 <= at < schema.columns@.len()
            &&& e matches LseError::UnsupportedColumnType { column, required, found }
            &&& column@ == schema.columns@[at].name@
            &&& found@ == schema.columns@[at].found@
            &&& {
                ||| column@ == "ts"@ && required@ == parquet::REQUIRED_TIMESTAMP@ && !(schema.columns@[at].kind
                    is TimestampMicrosUtc)
                ||| column@ == "symbol"@ && required@ == parquet::REQUIRED_TEXT@ && !(schema.columns@[at].kind is Text)
                ||| required@ == parquet::REQUIRED_DOUBLE@ && !(schema.columns@[at].kind is Double)
            }
        },
{
    let names = parquet::column_names(schema);
    if !schema.flat || parquet::layout_of(names, timeframe) is None {
        0
    } else {
        let layout = parquet::layout_of(names, timeframe)->0;
        let checks = parquet::checked_columns(names, layout);
        let k = lemma_first_wrong(schema, checks);
        lemma_columns(names);
        law_layout_points_to_its_columns(names, timeframe, layout);
        let at = checks[k].0 as int;
        if k >= 2 {
            assert(checks[k] == (layout.value_columns()[k - 2], ColumnKind::Double));
            law_places_are_named_after_their_columns(names, timeframe, layout, k - 2);
        }
        assert(names[at] == schema.columns@[at].name@);
        at
    }
}

/// Decoding of an artifact begins exactly where its columns allow it: for the symbol, the timeframe and the venue of the
/// artifact, for the instrument that was given, before its first row.
pub proof fn law_decoding_begins_for_the_artifact(
    r: Result<LseExportEvents, LseError>,
    export: LseExport,
    schema: ExportSchema,
    rows: u64,
    instrument: InstrumentIndex,
)
    requires
        parquet::begins(r, export, schema, rows, instrument),
    ensures
        r is Ok <==> parquet::decodable(schema, export.spec_timeframe()),
        r matches Ok(events) ==> {
            &&& events.spec_symbol() == export.spec_symbol()
            &&& events.spec_timeframe() == export.spec_timeframe()
            &&& events.spec_exchange() == export.spec_dataset().exchange()
            &&& events.spec_instrument() == instrument
            &&& parquet::layout_of(parquet::column_names(schema), export.spec_timeframe()) == Some(events.spec_layout())
            &&& events.spec_previous() is None && !events.has_failed() && events.rows_left() == rows
        },
{
}

/// The symbols of an artifact are read only where it has such a column and no cell of it is null.
pub proof fn law_null_cells_are_found(cells: Seq<Option<String>>, i: int)
    requires
        0 <= i < cells.len(),
    ensures
        parquet::no_null(cells) ==> cells[i] is Some && parquet::cell_texts(cells)[i] == cells[i]->0@,
        cells[i] is None ==> !parquet::no_null(cells),
        parquet::cell_texts(cells).len() == cells.len(),
{
}

} // verus!
