//! Writing the days of a descendant: which days are kept as they are, which are written anew, and
//! the check that what was written reads back.

use crate::fetch::rows::DailyBar;
use crate::lineage::days::{DayFamily, DayInventoryEntry};
use crate::lineage::rows::{is_grouping, rows_on, unchanged, DayRows};
use crate::lineage::select::as_ints;
use crate::market::Tick;
use crate::search::{first_where, first_where_absent, first_where_found};
use crate::text::{refusal, same_optional, same_text, text_of};
use vstd::prelude::*;
use vstd::string::*;

verus! {

/// What becomes of a day with rows: the baseline's day is kept, or the day is written, with the
/// day of the baseline that it replaces.
#[derive(Debug)]
pub enum Placement {
    Kept(usize),
    Written(Option<usize>),
}

/// Whether a day holds the observations of this date.
pub open spec fn observes(date: Seq<char>) -> spec_fn(DayInventoryEntry) -> bool {
    |day: DayInventoryEntry| day.family == DayFamily::Observations && day.date@ == date
}

/// What becomes of a day with these rows.
pub open spec fn placed(
    days: Seq<DayInventoryEntry>,
    date: Seq<char>,
    rows: nat,
    first: i64,
    last: i64,
    placement: Placement,
) -> bool {
    match first_where(days, observes(date)) {
        None => placement matches Placement::Written(previous) && previous is None,
        Some(at) => if days[at].rows == rows && days[at].first_time == Some(first)
            && days[at].last_time == Some(last) {
            placement matches Placement::Kept(kept) && kept == at
        } else {
            placement matches Placement::Written(previous) && previous is Some && previous->0 == at
        },
    }
}

proof fn rows_are_indices(times: Seq<i64>, day: int, count: nat)
    requires
        count <= times.len(),
    ensures
        forall|i: int|
            0 <= i < rows_on(times, day, count).len() ==> 0 <= #[trigger] rows_on(
                times,
                day,
                count,
            )[i] < count,
    decreases count,
{
    if count > 0 {
        rows_are_indices(times, day, (count - 1) as nat);
        let before = rows_on(times, day, (count - 1) as nat);
        assert forall|i: int| 0 <= i < rows_on(times, day, count).len() implies 0
            <= #[trigger] rows_on(times, day, count)[i] < count by {
            if i < before.len() {
                assert(0 <= before[i] < count - 1);
                assert(rows_on(times, day, count)[i] == before[i]);
            }
        }
    }
}

fn find_day(days: &Vec<DayInventoryEntry>, date: &str) -> (found: Option<usize>)
    ensures
        match found {
            Some(at) => at < days@.len() && first_where(days@, observes(date@)) == Some(at as int),
            None => first_where(days@, observes(date@)) is None,
        },
{
    let ghost wanted = observes(date@);
    let mut i: usize = 0;
    while i < days.len()
        invariant
            i <= days@.len(),
            wanted == observes(date@),
            forall|j: int| 0 <= j < i ==> !wanted(#[trigger] days@[j]),
        decreases days@.len() - i,
    {
        if days[i].family == DayFamily::Observations && same_text(days[i].date.as_str(), date) {
            proof {
                first_where_found(days@, wanted, i as int);
            }
            return Some(i);
        }
        i = i + 1;
    }
    proof {
        first_where_absent(days@, wanted);
    }
    None
}

/// Decides for each day with rows whether the baseline's day is kept. `dates` names the day of
/// each group.
pub fn place_days(
    days: &Vec<DayInventoryEntry>,
    groups: &Vec<DayRows>,
    dates: &Vec<String>,
    times: &Vec<i64>,
) -> (placements: Vec<Placement>)
    requires
        is_grouping(times@, groups@),
        dates@.len() == groups@.len(),
    ensures
        placements@.len() == groups@.len(),
        forall|g: int|
            0 <= g < groups@.len() ==> placed(
                days@,
                dates@[g]@,
                groups@[g].rows@.len(),
                times@[groups@[g].rows@[0] as int],
                times@[groups@[g].rows@.last() as int],
                #[trigger] placements@[g],
            ),
{
    let mut placements: Vec<Placement> = Vec::new();
    let mut g: usize = 0;
    while g < groups.len()
        invariant
            g <= groups@.len(),
            is_grouping(times@, groups@),
            dates@.len() == groups@.len(),
            placements@.len() == g,
            forall|j: int|
                0 <= j < g ==> placed(
                    days@,
                    dates@[j]@,
                    groups@[j].rows@.len(),
                    times@[groups@[j].rows@[0] as int],
                    times@[groups@[j].rows@.last() as int],
                    #[trigger] placements@[j],
                ),
        decreases groups@.len() - g,
    {
        let rows = &groups[g].rows;
        proof {
            let group = groups@[g as int];
            rows_are_indices(times@, group.day as int, times@.len());
            let on = rows_on(times@, group.day as int, times@.len());
            assert(as_ints(group.rows@) == on);
            assert(on[0] == group.rows@[0]);
            assert(on[on.len() - 1] == group.rows@.last());
        }
        let first: i64 = times[rows[0]];
        let last: i64 = times[rows[rows.len() - 1]];
        let placement = match find_day(days, dates[g].as_str()) {
            Some(at) => if unchanged(&days[at], rows.len() as u64, first, last) {
                Placement::Kept(at)
            } else {
                Placement::Written(Some(at))
            },
            None => Placement::Written(None),
        };
        placements.push(placement);
        g = g + 1;
    }
    placements
}

fn same_tick(a: &Tick, b: &Tick) -> (same: bool)
    ensures
        same == (*a == *b),
{
    a.event_time_micros == b.event_time_micros && a.price_units == b.price_units
}

/// Checks that the ticks of a day read back as they were written.
pub fn check_ticks(written: &Vec<Tick>, read: &Vec<Tick>) -> (checked: Result<(), String>)
    ensures
        refusal(checked) == (if read@ == written@ {
            None
        } else {
            Some("daily tick row equality proof failed"@)
        }),
{
    let mut same: bool = written.len() == read.len();
    let mut i: usize = 0;
    while same && i < written.len()
        invariant
            i <= written@.len(),
            same ==> written@.len() == read@.len(),
            same ==> forall|j: int| 0 <= j < i ==> written@[j] == #[trigger] read@[j],
            !same ==> read@ != written@,
        decreases written@.len() - i,
    {
        if !same_tick(&written[i], &read[i]) {
            assert(written@[i as int] != read@[i as int]);
            same = false;
        }
        i = i + 1;
    }
    if same {
        assert(read@ =~= written@);
        Ok(())
    } else {
        Err("daily tick row equality proof failed".to_owned())
    }
}

/// Whether two bars have the same columns.
pub open spec fn same_columns(a: DailyBar, b: DailyBar) -> bool {
    &&& text_of(a.symbol) == text_of(b.symbol)
    &&& a.symbol_id == b.symbol_id
    &&& a.timestamp_utc == b.timestamp_utc
    &&& a.unix_utc_s == b.unix_utc_s
    &&& a.server_time_s == b.server_time_s
    &&& a.open == b.open
    &&& a.high == b.high
    &&& a.low == b.low
    &&& a.close == b.close
    &&& a.volume == b.volume
    &&& a.period_s == b.period_s
}

fn same_integer(a: Option<i64>, b: Option<i64>) -> (same: bool)
    ensures
        same == (a == b),
{
    match (a, b) {
        (Some(a), Some(b)) => a == b,
        (None, None) => true,
        _ => false,
    }
}

fn same_value(a: Option<u64>, b: Option<u64>) -> (same: bool)
    ensures
        same == (a == b),
{
    match (a, b) {
        (Some(a), Some(b)) => a == b,
        (None, None) => true,
        _ => false,
    }
}

fn same_bar(a: &DailyBar, b: &DailyBar) -> (same: bool)
    ensures
        same == same_columns(*a, *b),
{
    let same_id: bool = match (a.symbol_id, b.symbol_id) {
        (Some(a), Some(b)) => a == b,
        (None, None) => true,
        _ => false,
    };
    let same_period: bool = match (a.period_s, b.period_s) {
        (Some(a), Some(b)) => a == b,
        (None, None) => true,
        _ => false,
    };
    same_optional(&a.symbol, &b.symbol) && same_id && same_period && same_integer(
        a.timestamp_utc,
        b.timestamp_utc,
    ) && same_integer(a.unix_utc_s, b.unix_utc_s) && same_integer(a.server_time_s, b.server_time_s)
        && same_value(a.open, b.open) && same_value(a.high, b.high) && same_value(a.low, b.low)
        && same_value(a.close, b.close) && same_value(a.volume, b.volume)
}

/// Whether bars read back with all their columns.
pub open spec fn reads_back(written: Seq<DailyBar>, read: Seq<DailyBar>) -> bool {
    written.len() == read.len() && forall|i: int|
        0 <= i < written.len() ==> same_columns(#[trigger] written[i], read[i])
}

/// Checks that the bars of a day read back as they were written.
pub fn check_bars(written: &Vec<DailyBar>, read: &Vec<DailyBar>) -> (checked: Result<(), String>)
    ensures
        refusal(checked) == (if reads_back(written@, read@) {
            None
        } else {
            Some("daily provider row equality proof failed"@)
        }),
{
    let mut same: bool = written.len() == read.len();
    let mut i: usize = 0;
    while same && i < written.len()
        invariant
            i <= written@.len(),
            same ==> written@.len() == read@.len(),
            same ==> forall|j: int| 0 <= j < i ==> same_columns(#[trigger] written@[j], read@[j]),
            !same ==> !reads_back(written@, read@),
        decreases written@.len() - i,
    {
        if !same_bar(&written[i], &read[i]) {
            assert(!same_columns(written@[i as int], read@[i as int]));
            same = false;
        }
        i = i + 1;
    }
    if same {
        Ok(())
    } else {
        Err("daily provider row equality proof failed".to_owned())
    }
}

} // verus!
