//! What holds of every acquisition, from its opening to its settlement.

use crate::fetch::acquire::{
    checks_page, goes_on, keeps, opens, page_end, takes_page, Acquisition, Action, Baseline,
    Opening, Page, Step,
};
use crate::fetch::coverage::{
    shortfall_of, HistoryCoverage, Range, Shortfall, BUDGET_SHORTFALL, EMPTY_SHORTFALL, STALLED_SHORTFALL,
    TAIL_SHORTFALL,
};
use crate::fetch::page::{consistent, joined_keeps_both_pages};
use crate::fetch::settle::{route_of, settles, Settled, Settlement};
use crate::market::{in_event_order, Bar, NativeGranularity, Row, Tick};
use vstd::prelude::*;
use vstd::std_specs::cmp::PartialEqSpec;

verus! {

/// A tick is complete right after its moment, and contradicts another of the same moment at
/// another price.
pub proof fn ticks_disagree_by_price(a: Tick, b: Tick)
    ensures
        a.moment() == a.event_time_micros,
        a.event_time_micros < i64::MAX ==> a.completion() == a.event_time_micros + 1,
        a.event_time_micros == i64::MAX ==> a.completion() == i64::MAX,
        a.contradicts(&b) <==> a.event_time_micros == b.event_time_micros && a.price_units
            != b.price_units,
        a.eq_spec(&b) <==> a.event_time_micros == b.event_time_micros && a.price_units
            == b.price_units,
{
}

/// A bar is complete once its period has passed, and contradicts another of the same start that
/// differs in any price, in volume or in period.
pub proof fn bars_disagree_by_any_value(a: Bar, b: Bar)
    ensures
        a.moment() == a.start_unix_s * 1_000_000,
        a.completion() == a.start_unix_s * 1_000_000 + a.period_s * 1_000_000,
        a.contradicts(&b) <==> a.start_unix_s == b.start_unix_s && (a.open != b.open || a.high
            != b.high || a.low != b.low || a.close != b.close || a.volume != b.volume || a.period_s
            != b.period_s),
        a.eq_spec(&b) <==> a == b,
{
}

/// Rows are kept exactly where they begin in the fetched range and are complete by its end.
pub proof fn only_complete_rows_in_range_are_kept<R: Row>(start: int, end: int, row: R)
    ensures
        keeps::<R>(start, end)(row) <==> start <= row.moment() < end && row.completion() <= end,
{
}

/// Where fetching starts. Without a baseline it is the requested start. A seed is continued at its
/// frontier, which for bars is the end of the last one, and a descendant at the end of its
/// verified range, in both cases less the overlap, and never before the requested start. A
/// descendant whose verified range begins after the requested start is fetched from that start.
pub proof fn fetching_starts_where_the_baseline_ends(
    granularity: NativeGranularity,
    requested: Range,
    overlap_seconds: Option<u32>,
    baseline: Option<&Baseline>,
    opening: Opening,
)
    requires
        opens(granularity, requested, overlap_seconds, baseline, opening),
    ensures
        ({
            let overlap = match overlap_seconds {
                Some(seconds) => seconds * 1_000_000,
                None => 0,
            };
            let reach = match baseline {
                None => None::<int>,
                Some(prior) => if !prior.covered {
                    match granularity {
                        NativeGranularity::Tick => Some(prior.last_time as int),
                        NativeGranularity::Bar { period_seconds } => if prior.last_time
                            + period_seconds * 1_000_000 > i64::MAX {
                            Some(i64::MAX as int)
                        } else {
                            Some(prior.last_time + period_seconds * 1_000_000)
                        },
                    }
                } else if prior.verified is Some && prior.verified->0.start <= requested.start {
                    Some(prior.verified->0.end as int)
                } else {
                    None
                },
            };
            let start = if reach is Some && reach->0 - overlap > requested.start {
                reach->0 - overlap
            } else {
                requested.start as int
            };
            &&& opening is Exhausted <==> start >= requested.end
            &&& opening matches Opening::Fetch { start: from, floor } ==> {
                &&& from == start
                &&& requested.start <= from < requested.end
                &&& floor == (if baseline is Some && baseline->0.verified is Some {
                    baseline->0.verified->0.start
                } else {
                    from
                })
            }
        }),
{
}

/// A request is made only within the budget and only once every retained page was replayed. It
/// asks for what lies before the oldest page so far, and is counted. An acquisition out of budget
/// says so, and leaves unresolved everything from its start to the oldest received moment.
pub proof fn requests_stay_in_budget<R: Row>(
    before: Acquisition<R>,
    after: Acquisition<R>,
    retained_left: bool,
    max_pages: Option<u32>,
    deadline: Option<i64>,
    now: i64,
    action: Action,
)
    requires
        goes_on(before, after, retained_left, max_pages, deadline, now, action),
    ensures
        action is Replay <==> retained_left,
        action matches Action::Request { anchor, ordinal } ==> {
            &&& max_pages matches Some(limit) ==> before.requests < limit
            &&& deadline matches Some(end) ==> now < end
            &&& anchor == before.anchor && ordinal == before.requests
            &&& after.requests == before.requests + 1
        },
        action matches Action::Stop(shortfall) ==> {
            &&& (max_pages matches Some(limit) && before.requests >= limit) || (
            deadline matches Some(end) && now >= end)
            &&& shortfall.reason@ == BUDGET_SHORTFALL@
            &&& shortfall.unresolved.start == before.fetch_start
            &&& shortfall.unresolved.end <= before.requested.end
            &&& before.earliest matches Some(earliest) ==> shortfall.unresolved.end <= earliest && (
            shortfall.unresolved.end == earliest || shortfall.unresolved.end
                == before.requested.end)
            &&& before.earliest is None ==> shortfall.unresolved.end == before.requested.end
        },
        after.rows == before.rows && after.received == before.received && after.pages
            == before.pages && after.previous == before.previous && after.anchor == before.anchor,
{
}

proof fn members_of_a_filter<R>(rows: Seq<R>, wanted: spec_fn(R) -> bool, row: R)
    ensures
        rows.filter(wanted).contains(row) <==> rows.contains(row) && wanted(row),
{
    if rows.contains(row) && wanted(row) {
        let i = choose|i: int| 0 <= i < rows.len() && rows[i] == row;
        rows.lemma_filter_contains(wanted, i);
    }
    if rows.filter(wanted).contains(row) {
        rows.lemma_filter_contains_rev(wanted, row);
        let i = choose|i: int| 0 <= i < rows.filter(wanted).len() && rows.filter(wanted)[i] == row;
        rows.lemma_filter_pred(wanted, i);
    }
}

/// Which rows lie between two moments.
pub open spec fn between<R: Row>(start: int, end: int) -> spec_fn(R) -> bool {
    |row: R| start <= row.moment() <= end
}

/// A reread must agree with what is retained wherever both reach, from the floor on: there the
/// same rows stand in both, in the same order and as often. A reread that does agree is accepted,
/// whatever lies outside.
pub proof fn a_reread_agrees_where_both_reach<R: Row>(
    previous: Seq<R>,
    received: Seq<R>,
    floor: int,
    start: int,
    end: int,
)
    requires
        previous.len() > 0,
        received.len() > 0,
        start >= previous[0].moment() && start >= received[0].moment() && start >= floor,
        start == previous[0].moment() || start == received[0].moment() || start == floor,
        end <= previous.last().moment() && end <= received.last().moment(),
        end == previous.last().moment() || end == received.last().moment(),
    ensures
        consistent(previous, received, floor) <==> received.filter(between(start, end))
            == previous.filter(between(start, end)),
        consistent(previous, received, floor) ==> forall|row: R|
            start <= #[trigger] row.moment() <= end ==> (previous.contains(row)
                <==> received.contains(row)),
{
    let compared = crate::fetch::page::compared(previous, received, floor);
    assert(compared =~= between::<R>(start, end));
    if consistent(previous, received, floor) {
        assert forall|row: R| start <= #[trigger] row.moment() <= end implies (previous.contains(
            row,
        ) <==> received.contains(row)) by {
            members_of_a_filter(previous, compared, row);
            members_of_a_filter(received, compared, row);
        }
    }
}

/// Without retained rows, and with nothing received, there is nothing to contradict.
pub proof fn nothing_contradicts_nothing<R: Row>(previous: Seq<R>, received: Seq<R>, floor: int)
    requires
        previous.len() == 0 || received.len() == 0,
    ensures
        consistent(previous, received, floor),
{
}

/// A page that names another provider identifier than the lineage is refused. An accepted page is
/// received whole, and agrees with what is retained from just after its oldest moment on. What was
/// kept before stays.
pub proof fn an_accepted_page_is_the_same_instrument<R: Row>(
    before: Acquisition<R>,
    page: Page<R>,
    checked: Result<Acquisition<R>, String>,
)
    requires
        checks_page(before, page, checked),
    ensures
        before.symbol_id is Some && page.symbol_id is Some && before.symbol_id != page.symbol_id
            ==> checked is Err,
        checked matches Ok(next) ==> {
            &&& page.symbol_id is Some ==> next.symbol_id == page.symbol_id
            &&& page.symbol_id is None ==> next.symbol_id == before.symbol_id
            &&& next.rows == before.rows
            &&& next.pages == before.pages
            &&& next.received@.len() >= page.rows@.len()
            &&& next.received@.subrange(0, page.rows@.len() as int) == page.rows@
            &&& next.received@.len() >= before.received@.len()
            &&& next.received@.subrange(
                next.received@.len() - before.received@.len(),
                next.received@.len() as int,
            ) == before.received@
            &&& next.received@.len() > 0 ==> consistent(
                before.previous@,
                next.received@,
                (if next.received@[0].moment() + 1 > before.floor {
                    if next.received@[0].moment() + 1 > i64::MAX {
                        i64::MAX as int
                    } else {
                        next.received@[0].moment() + 1
                    }
                } else {
                    before.floor as int
                }),
            )
            &&& page.rows@.len() == 0 || page.rows@.last().moment() < before.fetch_start
                ==> next.received_end == before.received_end
        },
{
    joined_keeps_both_pages(page.rows@, before.received@);
}

proof fn complete_prefix<R: Row>(rows: Seq<R>, cutoff: int, count: int)
    requires
        0 <= count <= rows.len(),
        forall|i: int| 0 <= i < count ==> (#[trigger] rows[i]).completion() <= cutoff,
        count < rows.len() ==> rows[count].completion() > cutoff,
    ensures
        crate::fetch::acquire::complete_rows(rows, cutoff) == count,
    decreases count,
{
    if count > 0 {
        let rest = rows.subrange(1, rows.len() as int);
        assert forall|i: int| 0 <= i < count - 1 implies (#[trigger] rest[i]).completion()
            <= cutoff by {
            assert(rest[i] == rows[i + 1]);
        }
        assert(rows[0].completion() <= cutoff);
        complete_prefix(rest, cutoff, count - 1);
    }
}

/// What a page proves ends with its last row where all are complete by the cutoff. Otherwise it
/// ends no later than the cutoff, and no later than the first incomplete row begins.
pub proof fn a_page_proves_nothing_past_an_incomplete_row<R: Row>(
    rows: Seq<R>,
    cutoff: int,
    count: int,
)
    requires
        rows.len() > 0,
        0 <= count <= rows.len(),
        forall|i: int| 0 <= i < count ==> (#[trigger] rows[i]).completion() <= cutoff,
        count < rows.len() ==> rows[count].completion() > cutoff,
    ensures
        count == rows.len() ==> page_end(rows, cutoff) == rows.last().completion(),
        count < rows.len() ==> page_end(rows, cutoff) <= cutoff && page_end(rows, cutoff)
            <= rows[count].moment() && (page_end(rows, cutoff) == cutoff || page_end(rows, cutoff)
            == rows[count].moment()),
{
    complete_prefix(rows, cutoff, count);
}

/// What becomes of an accepted page. It is recorded in any case. An empty page, and one that
/// reaches no further back, end the acquisition short, with everything before the oldest received
/// moment unresolved; the latter is an error where a row contradicts a kept one. Any other page
/// adds its complete rows of the range before those that were kept, and paging goes on from its
/// first moment until that reaches the start.
pub proof fn paging_goes_back_to_the_start<R: Row>(
    before: Acquisition<R>,
    page: Page<R>,
    taken: Result<(Acquisition<R>, Step), String>,
)
    requires
        takes_page(before, page, taken),
        page.wf(),
    ensures
        ({
            let rows = page.rows@;
            let again = rows.len() > 0 && before.earliest is Some && rows[0].moment()
                >= before.earliest->0;
            let contradiction = exists|i: int, j: int|
                #![trigger before.rows@[i], rows[j]]
                0 <= i < before.rows@.len() && 0 <= j < rows.len() && before.rows@[i].contradicts(
                    &rows[j],
                );
            &&& taken is Err <==> again && contradiction
            &&& taken matches Ok((next, step)) ==> {
                &&& next.pages@ == before.pages@.push(page.coverage)
                &&& next.previous == before.previous
                &&& next.requested == before.requested && next.fetch_start == before.fetch_start
                &&& rows.len() == 0 || again ==> {
                    &&& next.rows == before.rows
                    &&& step matches Step::Finished(Some(shortfall))
                    &&& shortfall.reason@ == (if again {
                        STALLED_SHORTFALL@
                    } else {
                        EMPTY_SHORTFALL@
                    })
                    &&& shortfall.unresolved.start == before.fetch_start
                    &&& before.earliest is None ==> shortfall.unresolved.end
                        == before.requested.end
                    &&& before.earliest matches Some(earliest) ==> shortfall.unresolved.end == (if earliest
                        < before.requested.end {
                        earliest
                    } else {
                        before.requested.end
                    })
                }
                &&& rows.len() > 0 && !again ==> {
                    let kept = rows.filter(keeps::<R>(before.fetch_start as int, before.requested.end as int));
                    &&& next.earliest == Some(rows[0].moment() as i64)
                    &&& next.rows@.len() >= kept.len() && next.rows@.subrange(
                        0,
                        kept.len() as int,
                    ) == kept
                    &&& next.rows@.len() >= before.rows@.len() && next.rows@.subrange(
                        next.rows@.len() - before.rows@.len(),
                        next.rows@.len() as int,
                    ) == before.rows@
                    &&& step is Continue <==> rows[0].moment() > before.fetch_start
                    &&& step is Continue ==> next.anchor == rows[0].moment()
                    &&& !(step is Continue) ==> step == Step::Finished(None)
                }
            }
        }),
{
    joined_keeps_both_pages(
        page.rows@.filter(keeps::<R>(before.fetch_start as int, before.requested.end as int)),
        before.rows@,
    );
}

/// A row that a page brought, complete within the fetched range, is among the kept rows from then
/// on.
pub proof fn a_complete_row_is_kept<R: Row>(
    before: Acquisition<R>,
    page: Page<R>,
    next: Acquisition<R>,
    step: Step,
    i: int,
)
    requires
        takes_page(before, page, Ok((next, step))),
        page.wf(),
        !(step matches Step::Finished(Some(_))),
        0 <= i < page.rows@.len(),
        before.fetch_start <= page.rows@[i].moment() < before.requested.end,
        page.rows@[i].completion() <= before.requested.end,
    ensures
        next.rows@.contains(page.rows@[i]),
        forall|j: int| 0 <= j < before.rows@.len() ==> next.rows@.contains(#[trigger] before.rows@[j]),
{
    let wanted = keeps::<R>(before.fetch_start as int, before.requested.end as int);
    let kept = page.rows@.filter(wanted);
    joined_keeps_both_pages(kept, before.rows@);
    assert(wanted(page.rows@[i]));
    page.rows@.lemma_filter_contains(wanted, i);
    let k = choose|k: int| 0 <= k < kept.len() && kept[k] == page.rows@[i];
    assert(next.rows@.subrange(0, kept.len() as int)[k] == kept[k]);
    assert(next.rows@[k] == page.rows@[i]);
    assert forall|j: int| 0 <= j < before.rows@.len() implies next.rows@.contains(
        #[trigger] before.rows@[j],
    ) by {
        let from = next.rows@.len() - before.rows@.len();
        assert(next.rows@.subrange(from, next.rows@.len() as int)[j] == before.rows@[j]);
        assert(next.rows@[from + j] == before.rows@[j]);
    }
}

/// What an acquisition settles. It is refused where the whole reread disagrees with what is
/// retained. The actual range is from its first to its last row. Without a stop the fetched range
/// is verified from its start, and after one from the oldest received moment, to the end of what
/// was received; a verified range that it touches is widened by it and never narrowed, and one
/// that it does not touch stays. What the request asks for after that is a shortfall of the tail.
pub proof fn a_settlement_accounts_for_the_request<R: Row>(
    state: Acquisition<R>,
    stop: Option<Shortfall>,
    prior: Option<Range>,
    settled: Result<Settlement<R>, String>,
)
    requires
        settles(state, stop, prior, settled),
        state.wf(),
    ensures
        settled is Err <==> !consistent(state.previous@, state.received@, state.floor as int),
        settled matches Ok(Settlement::Nothing(shortfall)) ==> state.pages@.len() == 0 && Some(
            shortfall,
        ) == stop && shortfall.reason@ == BUDGET_SHORTFALL@,
        settled matches Ok(Settlement::Acquired(result)) ==> {
            &&& result.rows@.len() == 0 <==> result.actual is None
            &&& result.actual matches Some(actual) ==> actual.first as int
                == result.rows@[0].moment() as i64 && actual.last as int
                == result.rows@.last().moment() as i64
            &&& prior matches Some(old) ==> result.verified matches Some(now) && now.start
                <= old.start && now.end >= old.end
            &&& state.rows@.len() == 0 ==> result.verified == prior
            &&& state.rows@.len() > 0 && prior is None ==> (result.verified matches Some(now)
                && now.end == state.received_end->0 && (stop is None ==> now.start
                == state.fetch_start) && (stop is Some && state.earliest is Some ==> now.start == (
            if state.earliest->0 < state.fetch_start {
                state.fetch_start
            } else if state.earliest->0 > state.requested.end {
                state.requested.end
            } else {
                state.earliest->0
            })))
            &&& stop matches Some(shortfall) ==> result.shortfall matches Some(said)
                && said.reason@ == shortfall.reason@ && said.unresolved == shortfall.unresolved
            &&& stop is None ==> result.tail_shortfall is None
            &&& ({
                let tail = if stop is None {
                    result.shortfall
                } else {
                    result.tail_shortfall
                };
                &&& result.verified is None ==> tail is None
                &&& result.verified matches Some(now) ==> (tail is Some <==> now.end
                    < state.requested.end) && (tail matches Some(tail) ==> tail.reason@
                    == TAIL_SHORTFALL@ && tail.unresolved.end == state.requested.end
                    && tail.unresolved.start == (if now.end > state.fetch_start {
                    now.end
                } else {
                    state.fetch_start
                }))
            })
            &&& result.pending <==> (stop matches Some(shortfall) && shortfall.reason@
                == BUDGET_SHORTFALL@)
            &&& result.extends_prior <==> (if state.previous@.len() == 0 {
                state.rows@.len() > 0
            } else {
                exists|i: int|
                    0 <= i < state.rows@.len() && ((#[trigger] state.rows@[i]).moment()
                        < state.previous@[0].moment() || state.rows@[i].moment()
                        > state.previous@.last().moment())
            })
            &&& result.pages == state.pages
        },
{
}

/// Newly acquired rows outside the retained span stand in what is settled, in order and as often,
/// and the retained rows stand there whole.
pub proof fn a_settlement_keeps_old_and_new_rows<R: Row>(
    state: Acquisition<R>,
    stop: Option<Shortfall>,
    prior: Option<Range>,
    result: crate::fetch::settle::Settled<R>,
)
    requires
        settles(state, stop, prior, Ok(Settlement::Acquired(result))),
        in_event_order(state.previous@),
        in_event_order(state.rows@),
    ensures
        state.previous@.len() == 0 ==> result.rows@ == state.rows@,
        state.previous@.len() > 0 ==> {
            let first = state.previous@[0].moment();
            let last = state.previous@.last().moment();
            &&& result.rows@.filter(|row: R| row.moment() > last) == state.rows@.filter(
                |row: R| row.moment() > last,
            )
            &&& result.rows@.filter(|row: R| row.moment() < first) == state.rows@.filter(
                |row: R| row.moment() < first,
            )
        },
        exists|at: int|
            0 <= at <= result.rows@.len() - state.previous@.len()
                && #[trigger] result.rows@.subrange(at, at + state.previous@.len())
                == state.previous@,
{
    crate::fetch::settle::merged_keeps_every_new_row(state.previous@, state.rows@);
    crate::fetch::settle::merged_keeps_retained_rows(state.previous@, state.rows@);
    if state.previous@.len() > 0 {
        let first = state.previous@[0].moment();
        let last = state.previous@.last().moment();
        assert((|row: R| row.moment() > last) =~= crate::fetch::settle::after_moment::<R>(last));
        assert((|row: R| row.moment() < first) =~= crate::fetch::settle::before_moment::<R>(first));
    }
    let at = choose|at: int|
        crate::fetch::settle::stands_at(result.rows@, state.previous@, at);
    assert(result.rows@.subrange(at, at + state.previous@.len()) == state.previous@);
}

/// A result is published anew unless nothing about it is: the prior generation is published again
/// only outside the daily layout, where no row was added and both shortfalls and the verified range
/// are what they were; nothing is published of a result without rows; and days are published
/// exactly in the daily layout.
pub proof fn a_result_is_published_where_something_is_new<R: Row>(
    settled: Settled<R>,
    prior: Option<&HistoryCoverage>,
    daily: bool,
)
    ensures
        route_of(settled, prior, daily) is Retained <==> {
            &&& !daily
            &&& prior is Some
            &&& !settled.extends_prior
            &&& prior->0.verified == settled.verified
            &&& shortfall_of(prior->0.shortfall) == shortfall_of(settled.shortfall)
            &&& shortfall_of(prior->0.tail_shortfall) == shortfall_of(settled.tail_shortfall)
        },
        route_of(settled, prior, daily) is Daily <==> daily && settled.rows@.len() > 0,
        route_of(settled, prior, daily) is Receipt ==> settled.rows@.len() == 0,
        route_of(settled, prior, daily) is Generation ==> !daily && settled.rows@.len() > 0,
        prior is None && settled.rows@.len() == 0 ==> route_of(settled, prior, daily) is Receipt,
{
}

} // verus!
