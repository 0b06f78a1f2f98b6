//! The rows of a provider's reply, and how they are recorded by day.

use crate::fetch::bounds::Native;
use crate::lineage::days::{DayFamily, DayInventoryEntry};
use crate::market::{Bar, Tick};
use crate::text::{refusal, text_of};
use vstd::prelude::*;
use vstd::string::*;

verus! {

/// The rows of a provider's reply.
#[derive(Debug)]
pub enum HistoryRows {
    Ticks(Vec<Tick>),
    Bars(Vec<Bar>),
}

/// The ticks of a reply to a tick request.
pub fn ticks_of(rows: HistoryRows) -> (ticks: Result<Vec<Tick>, String>)
    ensures
        match rows {
            HistoryRows::Ticks(found) => ticks == Ok::<Vec<Tick>, String>(found),
            HistoryRows::Bars(_) => refusal(ticks) == Some(
                "fetch: the adapter returned bars for a tick request"@,
            ),
        },
{
    match rows {
        HistoryRows::Ticks(found) => Ok(found),
        HistoryRows::Bars(_) => Err(
            "fetch: the adapter returned bars for a tick request".to_owned(),
        ),
    }
}

/// The bars of a reply to a bar request.
pub fn bars_of(rows: HistoryRows) -> (bars: Result<Vec<Bar>, String>)
    ensures
        match rows {
            HistoryRows::Bars(found) => bars == Ok::<Vec<Bar>, String>(found),
            HistoryRows::Ticks(_) => refusal(bars) == Some(
                "fetch: the adapter returned ticks for a bar request"@,
            ),
        },
{
    match rows {
        HistoryRows::Bars(found) => Ok(found),
        HistoryRows::Ticks(_) => Err(
            "fetch: the adapter returned ticks for a bar request".to_owned(),
        ),
    }
}

/// A row of a retained generation.
#[derive(Debug, Clone, Copy)]
pub enum MarketRow {
    Tick(Tick),
    Bar(Bar),
}

/// The tick that a retained row is.
pub fn retained_tick(row: MarketRow) -> (tick: Result<Tick, String>)
    ensures
        match row {
            MarketRow::Tick(found) => tick == Ok::<Tick, String>(found),
            MarketRow::Bar(_) => refusal(tick) == Some("baseline row granularity mismatch"@),
        },
{
    match row {
        MarketRow::Tick(found) => Ok(found),
        MarketRow::Bar(_) => Err("baseline row granularity mismatch".to_owned()),
    }
}

/// The bar that a retained row is.
pub fn retained_bar(row: MarketRow) -> (bar: Result<Bar, String>)
    ensures
        match row {
            MarketRow::Bar(found) => bar == Ok::<Bar, String>(found),
            MarketRow::Tick(_) => refusal(bar) == Some("baseline row granularity mismatch"@),
        },
{
    match row {
        MarketRow::Bar(found) => Ok(found),
        MarketRow::Tick(_) => Err("baseline row granularity mismatch".to_owned()),
    }
}

/// A bar as the object of its day records it, beside the provider's own columns.
#[derive(Debug)]
pub struct DailyBar {
    pub symbol: Option<String>,
    pub symbol_id: Option<i32>,
    pub timestamp_utc: Option<i64>,
    pub unix_utc_s: Option<i64>,
    pub server_time_s: Option<i64>,
    pub open: Option<u64>,
    pub high: Option<u64>,
    pub low: Option<u64>,
    pub close: Option<u64>,
    pub volume: Option<u64>,
    pub period_s: Option<u16>,
}

/// Why a bar cannot be recorded by day.
pub open spec fn daily_refusal(bar: Bar, native: Native) -> Option<Seq<char>> {
    if !(i64::MIN <= bar.start_unix_s * 1_000_000 <= i64::MAX) {
        Some("bar timestamp overflow"@)
    } else if !(i64::MIN <= bar.start_unix_s + native.server_offset_s <= i64::MAX) {
        Some("bar server time overflow"@)
    } else {
        None
    }
}

/// Records a bar as the object of its day does.
pub fn daily_bar(bar: Bar, provider_symbol: &str, native: &Native) -> (recorded: Result<
    DailyBar,
    String,
>)
    ensures
        refusal(recorded) == daily_refusal(bar, *native),
        recorded matches Ok(recorded) ==> {
            &&& text_of(recorded.symbol) == Some(provider_symbol@)
            &&& recorded.symbol_id == native.symbol_id
            &&& recorded.timestamp_utc == Some((bar.start_unix_s * 1_000_000) as i64)
            &&& recorded.unix_utc_s == Some(bar.start_unix_s)
            &&& recorded.server_time_s == Some((bar.start_unix_s + native.server_offset_s) as i64)
            &&& recorded.open == Some(bar.open)
            &&& recorded.high == Some(bar.high)
            &&& recorded.low == Some(bar.low)
            &&& recorded.close == Some(bar.close)
            &&& recorded.volume == Some(bar.volume)
            &&& recorded.period_s == Some(bar.period_s)
        },
{
    let timestamp_utc: i64 = match bar.start_unix_s.checked_mul(1_000_000) {
        Some(time) => time,
        None => {
            return Err("bar timestamp overflow".to_owned());
        },
    };
    let server_time_s: i64 = match bar.start_unix_s.checked_add(native.server_offset_s) {
        Some(time) => time,
        None => {
            return Err("bar server time overflow".to_owned());
        },
    };
    Ok(
        DailyBar {
            symbol: Some(provider_symbol.to_owned()),
            symbol_id: native.symbol_id,
            timestamp_utc: Some(timestamp_utc),
            unix_utc_s: Some(bar.start_unix_s),
            server_time_s: Some(server_time_s),
            open: Some(bar.open),
            high: Some(bar.high),
            low: Some(bar.low),
            close: Some(bar.close),
            volume: Some(bar.volume),
            period_s: Some(bar.period_s),
        },
    )
}

/// The provider's identifier, without which bars cannot be written.
pub fn bar_symbol(native: &Native) -> (symbol_id: Result<i32, String>)
    ensures
        match native.symbol_id {
            Some(id) => symbol_id == Ok::<i32, String>(id),
            None => refusal(symbol_id) == Some("fetch: bar rows carry no provider identifier"@),
        },
{
    match native.symbol_id {
        Some(id) => Ok(id),
        None => Err("fetch: bar rows carry no provider identifier".to_owned()),
    }
}

/// The rows of the pages among the first `count` days.
pub open spec fn page_total(days: Seq<DayInventoryEntry>, count: nat) -> int
    decreases count,
{
    if count == 0 {
        0
    } else {
        page_total(days, (count - 1) as nat) + (if days[count - 1].family is Pages {
            days[count - 1].rows as int
        } else {
            0
        })
    }
}

proof fn page_total_grows(days: Seq<DayInventoryEntry>, low: nat, high: nat)
    requires
        low <= high,
    ensures
        page_total(days, low) <= page_total(days, high),
    decreases high - low,
{
    if low < high {
        page_total_grows(days, low, (high - 1) as nat);
    }
}

/// The rows of a generation's page inventory.
pub fn page_rows(days: &Vec<DayInventoryEntry>) -> (rows: u64)
    requires
        page_total(days@, days@.len()) <= u64::MAX,
    ensures
        rows == page_total(days@, days@.len()),
{
    let mut rows: u64 = 0;
    let mut i: usize = 0;
    while i < days.len()
        invariant
            i <= days@.len(),
            page_total(days@, days@.len()) <= u64::MAX,
            rows == page_total(days@, i as nat),
        decreases days@.len() - i,
    {
        proof {
            page_total_grows(days@, (i + 1) as nat, days@.len());
        }
        if days[i].family == DayFamily::Pages {
            rows = rows + days[i].rows;
        }
        i = i + 1;
    }
    rows
}

} // verus!
