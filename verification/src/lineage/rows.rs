//! Rows by calendar day: which days a descendant carries unchanged, and which it writes anew.

use crate::fetch::coverage::{HistoryCoverage, OccurrenceIdentity, PageCoverage, Range};
use crate::lineage::days::{
    shortfall_views, shortfalls_of, AcquisitionCoverage, DayFamily, DayInventoryEntry, DayState,
};
use crate::lineage::occurrences::{in_sequence, place, same_occurrence, Received};
use crate::table::Table;
use crate::text::{refusal, same_optional, same_text, text_of};
use vstd::prelude::*;
use vstd::string::*;

verus! {

/// The microseconds of a day.
pub const DAY_MICROS: i64 = 86_400_000_000;

/// The day of a moment, counted from the epoch.
pub open spec fn day_of(micros: int) -> int {
    micros / (DAY_MICROS as int)
}

/// The day of a moment.
pub fn day(micros: i64) -> (day: i64)
    ensures
        day == day_of(micros as int),
{
    let towards_zero: i64 = micros / DAY_MICROS;
    let rest: i64 = micros % DAY_MICROS;
    if rest < 0 {
        towards_zero - 1
    } else {
        towards_zero
    }
}

/// The time of a bar, from its seconds.
pub fn bar_time(seconds: Option<i64>) -> (time: Result<i64, String>)
    ensures
        refusal(time) == (match seconds {
            Some(seconds) => if i64::MIN <= seconds * 1_000_000 <= i64::MAX {
                None
            } else {
                Some("bar time overflow"@)
            },
            None => Some("bar time overflow"@),
        }),
        time matches Ok(time) ==> time == seconds->0 * 1_000_000,
{
    if let Some(seconds) = seconds {
        if let Some(time) = seconds.checked_mul(1_000_000) {
            return Ok(time);
        }
    }
    Err("bar time overflow".to_owned())
}

/// The rows of one day, by their indices.
#[derive(Debug)]
pub struct DayRows {
    pub day: i64,
    pub rows: Vec<usize>,
}

/// The indices, among the first `count`, of the times on a day.
pub open spec fn rows_on(times: Seq<i64>, day: int, count: nat) -> Seq<int>
    decreases count,
{
    if count == 0 {
        Seq::empty()
    } else {
        let before = rows_on(times, day, (count - 1) as nat);
        if day_of(times[count - 1] as int) == day {
            before.push(count - 1)
        } else {
            before
        }
    }
}

/// Whether rows are grouped by day: the days in order, each with all of its rows in order, and
/// no day without a row.
pub open spec fn is_grouping(times: Seq<i64>, groups: Seq<DayRows>) -> bool {
    &&& forall|i: int, j: int|
        #![trigger groups[i], groups[j]]
        0 <= i < j < groups.len() ==> groups[i].day < groups[j].day
    &&& forall|i: int|
        0 <= i < groups.len() ==> crate::lineage::select::as_ints((#[trigger] groups[i]).rows@)
            == rows_on(times, groups[i].day as int, times.len()) && groups[i].rows@.len() > 0
    &&& forall|k: int|
        0 <= k < times.len() ==> has_group(groups, day_of(#[trigger] times[k] as int))
}

/// Whether a day has a group.
pub open spec fn has_group(groups: Seq<DayRows>, day: int) -> bool {
    exists|i: int| 0 <= i < groups.len() && (#[trigger] groups[i]).day == day
}

fn days_of(times: &Vec<i64>) -> (days: Vec<i64>)
    ensures
        forall|i: int, j: int| 0 <= i < j < days@.len() ==> days@[i] < days@[j],
        forall|d: i64| #[trigger]
            days@.contains(d) == (exists|k: int|
                0 <= k < times@.len() && day_of(#[trigger] times@[k] as int) == d),
{
    let mut days: Vec<i64> = Vec::new();
    let mut k: usize = 0;
    while k < times.len()
        invariant
            k <= times@.len(),
            forall|i: int, j: int| 0 <= i < j < days@.len() ==> days@[i] < days@[j],
            forall|d: i64| #[trigger]
                days@.contains(d) == (exists|m: int|
                    0 <= m < k && day_of(#[trigger] times@[m] as int) == d),
        decreases times@.len() - k,
    {
        let wanted: i64 = day(times[k]);
        let ghost before = days@;
        let mut at: usize = 0;
        while at < days.len() && days[at] < wanted
            invariant
                at <= days@.len(),
                days@ == before,
                forall|j: int| 0 <= j < at ==> days@[j] < wanted,
            decreases days@.len() - at,
        {
            at = at + 1;
        }
        let there: bool = at < days.len() && days[at] == wanted;
        if !there {
            days.insert(at, wanted);
            proof {
                assert forall|i: int, j: int| 0 <= i < j < days@.len() implies days@[i]
                    < days@[j] by {
                    let a = if i < at {
                        i
                    } else {
                        i - 1
                    };
                    let b = if j < at {
                        j
                    } else {
                        j - 1
                    };
                    if i != at && j != at {
                        assert(before[a] < before[b]);
                    } else if i == at && j > at + 1 {
                        assert(before[at as int] < before[b]);
                    }
                }
            }
        }
        proof {
            assert forall|d: i64| #[trigger]
                days@.contains(d) == (exists|m: int|
                    0 <= m < k + 1 && day_of(#[trigger] times@[m] as int) == d) by {
                assert(before.contains(d) == (exists|m: int|
                    0 <= m < k && day_of(#[trigger] times@[m] as int) == d));
                if exists|m: int| 0 <= m < k + 1 && day_of(#[trigger] times@[m] as int) == d {
                    let m = choose|m: int| 0 <= m < k + 1 && day_of(#[trigger] times@[m] as int) == d;
                    if m < k {
                        assert(day_of(times@[m] as int) == d);
                        assert(before.contains(d));
                    }
                }
                if before.contains(d) {
                    let i = choose|i: int| 0 <= i < before.len() && before[i] == d;
                    if there || i < at {
                        assert(days@[i] == d);
                    } else {
                        assert(days@[i + 1] == d);
                    }
                }
                if days@.contains(d) && d != wanted {
                    let i = choose|i: int| 0 <= i < days@.len() && days@[i] == d;
                    if there || i < at {
                        assert(before[i] == d);
                    } else {
                        assert(before[i - 1] == d);
                    }
                }
                if d == wanted {
                    assert(day_of(times@[k as int] as int) == d);
                    assert(days@[at as int] == d);
                }
            }
        }
        k = k + 1;
    }
    days
}

/// Groups rows by day.
pub fn by_day(times: &Vec<i64>) -> (groups: Vec<DayRows>)
    ensures
        is_grouping(times@, groups@),
{
    let days = days_of(times);
    let mut groups: Vec<DayRows> = Vec::new();
    let mut d: usize = 0;
    while d < days.len()
        invariant
            d <= days@.len(),
            groups@.len() == d,
            forall|i: int, j: int| 0 <= i < j < days@.len() ==> days@[i] < days@[j],
            forall|x: i64| #[trigger]
                days@.contains(x) == (exists|k: int|
                    0 <= k < times@.len() && day_of(#[trigger] times@[k] as int) == x),
            forall|i: int| 0 <= i < d ==> (#[trigger] groups@[i]).day == days@[i],
            forall|i: int|
                0 <= i < d ==> crate::lineage::select::as_ints((#[trigger] groups@[i]).rows@)
                    == rows_on(times@, groups@[i].day as int, times@.len())
                    && groups@[i].rows@.len() > 0,
        decreases days@.len() - d,
    {
        let wanted: i64 = days[d];
        let mut rows: Vec<usize> = Vec::new();
        let mut k: usize = 0;
        assert(crate::lineage::select::as_ints(rows@) =~= rows_on(times@, wanted as int, 0));
        while k < times.len()
            invariant
                k <= times@.len(),
                crate::lineage::select::as_ints(rows@) == rows_on(
                    times@,
                    wanted as int,
                    k as nat,
                ),
                (exists|m: int| 0 <= m < k && day_of(#[trigger] times@[m] as int) == wanted)
                    ==> rows@.len() > 0,
            decreases times@.len() - k,
        {
            let ghost before = crate::lineage::select::as_ints(rows@);
            if day(times[k]) == wanted {
                rows.push(k);
                assert(crate::lineage::select::as_ints(rows@) =~= before.push(k as int));
            }
            k = k + 1;
        }
        assert(days@.contains(wanted));
        groups.push(DayRows { day: wanted, rows });
        d = d + 1;
    }
    proof {
        assert forall|k: int| 0 <= k < times@.len() implies has_group(
            groups@,
            day_of(#[trigger] times@[k] as int),
        ) by {
            let d = day_of(times@[k] as int);
            assert(i64::MIN <= d <= i64::MAX);
            let x = d as i64;
            assert(day_of(times@[k] as int) == x);
            assert(days@.contains(x));
            let i = choose|i: int| 0 <= i < days@.len() && days@[i] == x;
            assert(groups@[i].day == x);
        }
    }
    groups
}

/// The days of a family that no new rows or pages touch, by their indices among the first
/// `count`: a descendant carries them unchanged.
pub open spec fn carried_days(
    days: Seq<DayInventoryEntry>,
    family: DayFamily,
    touched: Set<Seq<char>>,
    count: nat,
) -> Seq<int>
    decreases count,
{
    if count == 0 {
        Seq::empty()
    } else {
        let before = carried_days(days, family, touched, (count - 1) as nat);
        let day = days[count - 1];
        if day.family == family && !touched.contains(day.date@) {
            before.push(count - 1)
        } else {
            before
        }
    }
}

/// The days of a family that a descendant carries unchanged.
pub fn carried(days: &Vec<DayInventoryEntry>, family: DayFamily, touched: &Table<()>) -> (list: Vec<
    usize,
>)
    ensures
        crate::lineage::select::as_ints(list@) == carried_days(
            days@,
            family,
            touched@.dom(),
            days@.len(),
        ),
{
    let mut list: Vec<usize> = Vec::new();
    let mut i: usize = 0;
    assert(crate::lineage::select::as_ints(list@) =~= carried_days(
        days@,
        family,
        touched@.dom(),
        0,
    ));
    while i < days.len()
        invariant
            i <= days@.len(),
            crate::lineage::select::as_ints(list@) == carried_days(
                days@,
                family,
                touched@.dom(),
                i as nat,
            ),
        decreases days@.len() - i,
    {
        let ghost before = crate::lineage::select::as_ints(list@);
        if days[i].family == family && !touched.contains(days[i].date.as_str()) {
            list.push(i);
            assert(crate::lineage::select::as_ints(list@) =~= before.push(i as int));
        }
        i = i + 1;
    }
    list
}

/// Whether a day's rows are those that it has: as many, from the same first to the same last
/// moment. That overlapping rows are equal was proved when they were acquired.
pub fn unchanged(day: &DayInventoryEntry, rows: u64, first: i64, last: i64) -> (same: bool)
    ensures
        same == (day.rows == rows && day.first_time == Some(first) && day.last_time == Some(last)),
{
    let same_first: bool = match day.first_time {
        Some(time) => time == first,
        None => false,
    };
    let same_last: bool = match day.last_time {
        Some(time) => time == last,
        None => false,
    };
    day.rows == rows && same_first && same_last
}

/// How many of the old rows the first `count` new rows have met, in order, by their times.
pub open spec fn met(new: Seq<Option<i64>>, old: Seq<Option<i64>>, count: nat) -> nat
    decreases count,
{
    if count == 0 {
        0
    } else {
        let before = met(new, old, (count - 1) as nat);
        if before < old.len() && old[before as int] == new[count - 1] {
            before + 1
        } else {
            before
        }
    }
}

/// Which old row stands for a new one.
pub open spec fn kept_row(new: Seq<Option<i64>>, old: Seq<Option<i64>>, i: int) -> Option<int> {
    let before = met(new, old, i as nat);
    if before < old.len() && old[before as int] == new[i] {
        Some(before as int)
    } else {
        None
    }
}

fn same_second(a: Option<i64>, b: Option<i64>) -> (same: bool)
    ensures
        same == (a == b),
{
    match (a, b) {
        (Some(a), Some(b)) => a == b,
        (None, None) => true,
        _ => false,
    }
}

/// Keeps the columns that rows were imported with: each old row stands for the new row of its
/// time. No old row may be lost.
pub fn keep_prior_rows(new: &Vec<Option<i64>>, old: &Vec<Option<i64>>) -> (kept: Result<
    Vec<Option<usize>>,
    String,
>)
    ensures
        refusal(kept) == (if met(new@, old@, new@.len()) != old@.len() {
            Some("daily update lost prior provider rows"@)
        } else {
            None
        }),
        kept matches Ok(kept) ==> kept@.len() == new@.len() && forall|i: int|
            0 <= i < new@.len() ==> (match #[trigger] kept@[i] {
                Some(at) => kept_row(new@, old@, i) == Some(at as int),
                None => kept_row(new@, old@, i) is None,
            }),
{
    let mut kept: Vec<Option<usize>> = Vec::new();
    let mut cursor: usize = 0;
    let mut i: usize = 0;
    while i < new.len()
        invariant
            i <= new@.len(),
            cursor <= old@.len(),
            cursor == met(new@, old@, i as nat),
            kept@.len() == i,
            forall|j: int|
                0 <= j < i ==> (match #[trigger] kept@[j] {
                    Some(at) => kept_row(new@, old@, j) == Some(at as int),
                    None => kept_row(new@, old@, j) is None,
                }),
        decreases new@.len() - i,
    {
        if cursor < old.len() && same_second(old[cursor], new[i]) {
            kept.push(Some(cursor));
            cursor = cursor + 1;
        } else {
            kept.push(None);
        }
        i = i + 1;
    }
    if cursor != old.len() {
        return Err("daily update lost prior provider rows".to_owned());
    }
    Ok(kept)
}

/// What the metadata of an imported day claims.
#[derive(Debug, Clone, Copy)]
pub struct DayMetadata {
    pub complete: bool,
    pub clipped_by_retention: bool,
    pub clipped_by_now: bool,
    pub market_closed: bool,
}

/// What becomes of an imported day.
#[derive(Debug, Clone, Copy, PartialEq, Eq, Structural)]
pub enum DayClaim {
    /// Its rows are complete.
    Complete,
    /// It was clipped at a boundary that is not known: all of it is unresolved.
    Clipped,
    /// Nothing more is known of its rows.
    Unchanged,
    /// It has no rows, and is known to have none.
    EmptyKnown,
    /// It has no rows, and an empty object says so.
    Empty,
}

/// What becomes of an imported day, with or without rows.
pub open spec fn claim_of(metadata: DayMetadata, has_rows: bool) -> DayClaim {
    let clipped = metadata.clipped_by_retention || metadata.clipped_by_now;
    if has_rows {
        if metadata.complete && !clipped {
            DayClaim::Complete
        } else if clipped {
            DayClaim::Clipped
        } else {
            DayClaim::Unchanged
        }
    } else if metadata.complete && !clipped && metadata.market_closed {
        DayClaim::EmptyKnown
    } else {
        DayClaim::Empty
    }
}

/// Decides what becomes of an imported day. Flags of clipping never prove a boundary.
pub fn day_claim(metadata: DayMetadata, has_rows: bool) -> (claim: DayClaim)
    ensures
        claim == claim_of(metadata, has_rows),
{
    let clipped: bool = metadata.clipped_by_retention || metadata.clipped_by_now;
    let whole: bool = metadata.complete && !clipped;
    if has_rows {
        if whole {
            DayClaim::Complete
        } else if clipped {
            DayClaim::Clipped
        } else {
            DayClaim::Unchanged
        }
    } else if whole && metadata.market_closed {
        DayClaim::EmptyKnown
    } else {
        DayClaim::Empty
    }
}

/// Enters the claim of an imported day that has rows.
pub fn claim_day(day: &mut DayInventoryEntry, metadata: DayMetadata, bounds: Range)
    ensures
        final(day).date == old(day).date,
        final(day).family == old(day).family,
        final(day).object == old(day).object,
        final(day).rows == old(day).rows,
        final(day).first_time == old(day).first_time,
        final(day).last_time == old(day).last_time,
        match claim_of(metadata, true) {
            DayClaim::Complete => {
                &&& final(day).state is Complete
                &&& final(day).reason is None
                &&& final(day).unresolved == old(day).unresolved
            },
            DayClaim::Clipped => {
                &&& final(day).state is Partial
                &&& text_of(final(day).reason) == Some(
                    "source day clipped by retention or collection cutoff; exact covered boundary unavailable"@,
                )
                &&& final(day).unresolved@ == seq![bounds]
            },
            _ => *final(day) == *old(day),
        },
{
    match day_claim(metadata, true) {
        DayClaim::Complete => {
            day.state = DayState::Complete;
            day.reason = None;
        },
        DayClaim::Clipped => {
            day.state = DayState::Partial;
            day.reason = Some(
                "source day clipped by retention or collection cutoff; exact covered boundary unavailable".to_owned(),
            );
            let mut unresolved: Vec<Range> = Vec::new();
            unresolved.push(bounds);
            assert(unresolved@ =~= seq![bounds]);
            day.unresolved = unresolved;
        },
        _ => {},
    }
}

/// Whether two identities are the same.
pub open spec fn same_identity(a: OccurrenceIdentity, b: OccurrenceIdentity) -> bool {
    &&& a.acquisition_id@ == b.acquisition_id@
    &&& text_of(a.intent) == text_of(b.intent)
    &&& a.ordinal == b.ordinal
}

/// Whether a response was indexed.
pub open spec fn is_indexed(indexed: Seq<PageCoverage>, identity: OccurrenceIdentity) -> bool {
    exists|i: int|
        0 <= i < indexed.len() && (#[trigger] indexed[i]).occurrence is Some && same_identity(
            indexed[i].occurrence->0,
            identity,
        )
}

fn was_indexed(indexed: &Vec<PageCoverage>, identity: &OccurrenceIdentity) -> (found: bool)
    ensures
        found == is_indexed(indexed@, *identity),
{
    let mut i: usize = 0;
    while i < indexed.len()
        invariant
            i <= indexed@.len(),
            forall|j: int|
                0 <= j < i ==> !((#[trigger] indexed@[j]).occurrence is Some && same_identity(
                    indexed@[j].occurrence->0,
                    *identity,
                )),
        decreases indexed@.len() - i,
    {
        if let Some(other) = &indexed[i].occurrence {
            if other.ordinal == identity.ordinal && same_text(
                other.acquisition_id.as_str(),
                identity.acquisition_id.as_str(),
            ) && same_optional(&other.intent, &identity.intent) {
                assert(indexed@[i as int].occurrence is Some);
                return true;
            }
        }
        i = i + 1;
    }
    false
}

/// Why a received response cannot be kept.
pub open spec fn received_refusal(page: PageCoverage) -> Option<Seq<char>> {
    if page.occurrence is None {
        Some("received response lacks occurrence identity"@)
    } else if page.receipt_time is None {
        Some("received response lacks receipt time"@)
    } else {
        None
    }
}

/// Whether a response is kept as a diagnostic: it was not indexed, and none of the first `count`
/// later ones is the same occurrence.
pub open spec fn is_diagnostic(
    received: Seq<PageCoverage>,
    indexed: Seq<PageCoverage>,
    i: int,
    count: int,
) -> bool {
    &&& 0 <= i < count
    &&& !is_indexed(indexed, received[i].occurrence->0)
    &&& forall|j: int|
        i < j < count && !is_indexed(indexed, (#[trigger] received[j]).occurrence->0)
            ==> !same_request(received[i], received[j])
}

/// Whether two responses are of one request.
pub open spec fn same_request(a: PageCoverage, b: PageCoverage) -> bool {
    a.occurrence->0.acquisition_id@ == b.occurrence->0.acquisition_id@ && a.occurrence->0.ordinal
        == b.occurrence->0.ordinal
}

/// Whether a diagnostic is the response at an index.
pub open spec fn is_response(kept: Received, page: PageCoverage) -> bool {
    kept.page == page && kept.identity == page.occurrence->0
}

/// Why a journal of received responses cannot be read: the first that cannot be kept.
pub open spec fn journal_refusal(received: Seq<PageCoverage>) -> Option<int> {
    crate::search::first_where(received, |page: PageCoverage| received_refusal(page) is Some)
}

spec fn kept_so_far(
    kept: Seq<Received>,
    received: Seq<PageCoverage>,
    indexed: Seq<PageCoverage>,
    count: int,
) -> bool {
    &&& in_sequence(kept)
    &&& forall|one: Received| #[trigger]
        kept.contains(one) == (exists|i: int|
            #[trigger] is_diagnostic(received, indexed, i, count) && is_response(one, received[i]))
}

/// The received responses that indexed progress does not account for, in the order of their
/// requests. They are kept as diagnostics when the acquisition is resumed.
pub fn diagnostics(received: Vec<PageCoverage>, indexed: &Vec<PageCoverage>) -> (kept: Result<
    Vec<Received>,
    String,
>)
    ensures
        refusal(kept) == (match journal_refusal(received@) {
            Some(at) => received_refusal(received@[at]),
            None => None,
        }),
        kept matches Ok(kept) ==> {
            &&& in_sequence(kept@)
            &&& forall|one: Received| #[trigger]
                kept@.contains(one) == (exists|i: int|
                    #[trigger] is_diagnostic(
                        received@,
                        indexed@,
                        i,
                        received@.len() as int,
                    ) && is_response(one, received@[i]))
        },
{
    let ghost all = received@;
    let ghost refused = |page: PageCoverage| received_refusal(page) is Some;
    let mut rest = received;
    let mut kept: Vec<Received> = Vec::new();
    let ghost mut done: int = 0;
    assert(all.skip(0) =~= all);
    assert(kept_so_far(kept@, all, indexed@, 0));
    while rest.len() > 0
        invariant
            0 <= done <= all.len(),
            all == received@,
            rest@ == all.skip(done),
            refused == (|page: PageCoverage| received_refusal(page) is Some),
            forall|j: int| 0 <= j < done ==> !refused(#[trigger] all[j]),
            kept_so_far(kept@, all, indexed@, done),
        decreases rest@.len(),
    {
        let page = rest.remove(0);
        assert(page == all[done]);
        assert(rest@ =~= all.skip(done + 1));
        let identity = match &page.occurrence {
            Some(identity) => identity.clone(),
            None => {
                proof {
                    crate::search::first_where_found(all, refused, done);
                }
                return Err("received response lacks occurrence identity".to_owned());
            },
        };
        if page.receipt_time.is_none() {
            proof {
                crate::search::first_where_found(all, refused, done);
            }
            return Err("received response lacks receipt time".to_owned());
        }
        let ghost before = kept@;
        if was_indexed(indexed, &identity) {
            proof {
                keep_on_indexed(before, all, indexed@, done);
            }
        } else {
            let item = Received { identity, page };
            place(&mut kept, item);
            proof {
                keep_on_new(before, kept@, item, all, indexed@, done);
            }
        }
        proof {
            done = done + 1;
        }
    }
    proof {
        crate::search::first_where_absent(all, refused);
    }
    Ok(kept)
}

proof fn keep_on_indexed(
    kept: Seq<Received>,
    received: Seq<PageCoverage>,
    indexed: Seq<PageCoverage>,
    done: int,
)
    requires
        0 <= done < received.len(),
        is_indexed(indexed, received[done].occurrence->0),
        kept_so_far(kept, received, indexed, done),
    ensures
        kept_so_far(kept, received, indexed, done + 1),
{
    assert forall|one: Received| #[trigger]
        kept.contains(one) == (exists|i: int|
            #[trigger] is_diagnostic(received, indexed, i, done + 1) && is_response(
                one,
                received[i],
            )) by {
        if kept.contains(one) {
            let i = choose|i: int|
                #[trigger] is_diagnostic(received, indexed, i, done) && is_response(
                    one,
                    received[i],
                );
            assert(is_diagnostic(received, indexed, i, done + 1));
        }
        if exists|i: int|
            #[trigger] is_diagnostic(received, indexed, i, done + 1) && is_response(
                one,
                received[i],
            ) {
            let i = choose|i: int|
                #[trigger] is_diagnostic(received, indexed, i, done + 1) && is_response(
                    one,
                    received[i],
                );
            assert(is_diagnostic(received, indexed, i, done));
        }
    }
}

proof fn keep_on_new(
    before: Seq<Received>,
    kept: Seq<Received>,
    item: Received,
    received: Seq<PageCoverage>,
    indexed: Seq<PageCoverage>,
    done: int,
)
    requires
        0 <= done < received.len(),
        !is_indexed(indexed, received[done].occurrence->0),
        is_response(item, received[done]),
        kept_so_far(before, received, indexed, done),
        in_sequence(kept),
        forall|other: Received| #[trigger]
            kept.contains(other) == (other == item || (before.contains(other) && !same_occurrence(
                other,
                item,
            ))),
    ensures
        kept_so_far(kept, received, indexed, done + 1),
{
    assert forall|one: Received| #[trigger]
        kept.contains(one) == (exists|i: int|
            #[trigger] is_diagnostic(received, indexed, i, done + 1) && is_response(
                one,
                received[i],
            )) by {
        if kept.contains(one) {
            if one == item {
                assert(is_diagnostic(received, indexed, done, done + 1));
            } else {
                let i = choose|i: int|
                    #[trigger] is_diagnostic(received, indexed, i, done) && is_response(
                        one,
                        received[i],
                    );
                assert(!same_request(received[i], received[done]));
                assert(is_diagnostic(received, indexed, i, done + 1));
            }
        }
        if exists|i: int|
            #[trigger] is_diagnostic(received, indexed, i, done + 1) && is_response(
                one,
                received[i],
            ) {
            let i = choose|i: int|
                #[trigger] is_diagnostic(received, indexed, i, done + 1) && is_response(
                    one,
                    received[i],
                );
            if i < done {
                assert(is_diagnostic(received, indexed, i, done));
                assert(before.contains(one));
                assert(!same_request(received[i], received[done]));
            } else {
                assert(one == item);
            }
        }
    }
}

/// A history reads back from the claim that carries it. (A tail shortfall alone reads back as the
/// first shortfall: claims keep shortfalls in order, not by name.)
pub proof fn a_history_reads_back_from_its_claim(
    coverage: HistoryCoverage,
    claim: AcquisitionCoverage,
)
    requires
        claim.requested@ == seq![coverage.requested],
        claim.verified@ == (match coverage.verified {
            Some(range) => seq![range],
            None => Seq::empty(),
        }),
        shortfall_views(claim.shortfalls@) == shortfalls_of(coverage),
        coverage.tail_shortfall is None || coverage.shortfall is Some,
    ensures
        claim.requested@[0] == coverage.requested,
        (if claim.verified@.len() > 0 {
            Some(claim.verified@[0])
        } else {
            None
        }) == coverage.verified,
        crate::fetch::coverage::shortfall_of(
            if claim.shortfalls@.len() > 0 {
                Some(claim.shortfalls@[0])
            } else {
                None
            },
        ) == crate::fetch::coverage::shortfall_of(coverage.shortfall),
        crate::fetch::coverage::shortfall_of(
            if claim.shortfalls@.len() > 1 {
                Some(claim.shortfalls@[1])
            } else {
                None
            },
        ) == crate::fetch::coverage::shortfall_of(coverage.tail_shortfall),
{
    let held = shortfall_views(claim.shortfalls@);
    assert(held.len() == claim.shortfalls@.len());
    if claim.shortfalls@.len() > 0 {
        assert(held[0] == (claim.shortfalls@[0].reason@, claim.shortfalls@[0].unresolved));
    }
    if claim.shortfalls@.len() > 1 {
        assert(held[1] == (claim.shortfalls@[1].reason@, claim.shortfalls@[1].unresolved));
    }
}

} // verus!
