//! The end of an acquisition: the merge of kept rows with the retained ones, the range that is
//! now verified, what stays unresolved, and which way the result is published.

use crate::fetch::acquire::Acquisition;
use crate::fetch::coverage::{
    same_range, same_shortfall, shortfall_of, Actual, HistoryCoverage, PageCoverage, Range,
    Shortfall, BUDGET_SHORTFALL, TAIL_SHORTFALL,
};
use crate::fetch::page::{
    check_verified_overlap, consistent, joined, joined_keeps_both_pages, prepend_page,
    reread_message,
};
use crate::market::{all_representable, earlier, earlier_of, in_event_order, later, later_of, Row};
use crate::text::{refusal, same_text};
use vstd::prelude::*;
use vstd::std_specs::cmp::PartialEqSpec;
use vstd::string::*;

verus! {

/// How many leading rows do not come after `moment`.
pub open spec fn rows_until<R: Row>(rows: Seq<R>, moment: int) -> int
    decreases rows.len(),
{
    if rows.len() == 0 || rows[0].moment() > moment {
        0
    } else {
        1 + rows_until(rows.subrange(1, rows.len() as int), moment)
    }
}

/// The retained rows with the kept rows around them: rows up to the last retained time stand
/// before the retained rows where they start no later, and the rest follows.
pub open spec fn merged<R: Row>(previous: Seq<R>, rows: Seq<R>) -> Seq<R> {
    if previous.len() == 0 {
        rows
    } else {
        let split = rows_until(rows, previous.last().moment());
        let low = rows.subrange(0, split);
        let high = rows.subrange(split, rows.len() as int);
        let base = if low.len() > 0 && low[0].moment() <= previous[0].moment() {
            joined(low, previous)
        } else {
            previous
        };
        joined(base, high)
    }
}

proof fn rows_until_bounds<R: Row>(rows: Seq<R>, moment: int)
    ensures
        0 <= rows_until(rows, moment) <= rows.len(),
    decreases rows.len(),
{
    if rows.len() > 0 && rows[0].moment() <= moment {
        rows_until_bounds(rows.subrange(1, rows.len() as int), moment);
    }
}

/// Whether `part` stands whole and in order in `whole`, from index `at` on.
pub open spec fn stands_at<R>(whole: Seq<R>, part: Seq<R>, at: int) -> bool {
    0 <= at <= whole.len() - part.len() && whole.subrange(at, at + part.len()) == part
}

/// Retained rows are never clipped: whatever was acquired, the merged rows hold the retained
/// rows, whole and in order, somewhere.
pub proof fn merged_keeps_retained_rows<R: Row>(previous: Seq<R>, rows: Seq<R>)
    ensures
        exists|at: int| stands_at(merged(previous, rows), previous, at),
{
    let all = merged(previous, rows);
    if previous.len() == 0 {
        assert(all.subrange(0, 0) =~= previous);
        assert(stands_at(all, previous, 0));
    } else {
        let split = rows_until(rows, previous.last().moment());
        rows_until_bounds(rows, previous.last().moment());
        let low = rows.subrange(0, split);
        let high = rows.subrange(split, rows.len() as int);
        if low.len() > 0 && low[0].moment() <= previous[0].moment() {
            let base = joined(low, previous);
            joined_keeps_both_pages(low, previous);
            joined_keeps_both_pages(base, high);
            let at = base.len() - previous.len();
            assert(all.subrange(at, at + previous.len()) =~= all.subrange(
                0,
                base.len() as int,
            ).subrange(at, at + previous.len()));
            assert(stands_at(all, previous, at));
        } else {
            joined_keeps_both_pages(previous, high);
            assert(stands_at(all, previous, 0));
        }
    }
}

/// Which rows come after a moment.
pub open spec fn after_moment<R: Row>(moment: int) -> spec_fn(R) -> bool {
    |row: R| row.moment() > moment
}

/// Which rows come before a moment.
pub open spec fn before_moment<R: Row>(moment: int) -> spec_fn(R) -> bool {
    |row: R| row.moment() < moment
}

proof fn nothing_is_filtered<R>(rows: Seq<R>, wanted: spec_fn(R) -> bool)
    requires
        forall|i: int| 0 <= i < rows.len() ==> !wanted(#[trigger] rows[i]),
    ensures
        rows.filter(wanted) == Seq::<R>::empty(),
    decreases rows.len(),
{
    reveal(Seq::filter);
    if rows.len() > 0 {
        nothing_is_filtered(rows.drop_last(), wanted);
    }
}

proof fn everything_is_filtered<R>(rows: Seq<R>, wanted: spec_fn(R) -> bool)
    requires
        forall|i: int| 0 <= i < rows.len() ==> wanted(#[trigger] rows[i]),
    ensures
        rows.filter(wanted) == rows,
    decreases rows.len(),
{
    reveal(Seq::filter);
    if rows.len() > 0 {
        everything_is_filtered(rows.drop_last(), wanted);
        assert(rows.drop_last().push(rows.last()) =~= rows);
    }
}

proof fn split_by_moment<R: Row>(rows: Seq<R>, moment: int)
    requires
        in_event_order(rows),
    ensures
        0 <= rows_until(rows, moment) <= rows.len(),
        forall|i: int| 0 <= i < rows_until(rows, moment) ==> (#[trigger] rows[i]).moment() <= moment,
        forall|i: int|
            rows_until(rows, moment) <= i < rows.len() ==> (#[trigger] rows[i]).moment() > moment,
    decreases rows.len(),
{
    if rows.len() > 0 && rows[0].moment() <= moment {
        let rest = rows.subrange(1, rows.len() as int);
        split_by_moment(rest, moment);
        assert forall|i: int| 0 <= i < rows_until(rows, moment) implies (
        #[trigger] rows[i]).moment() <= moment by {
            if i > 0 {
                assert(rest[i - 1] == rows[i]);
            }
        }
        assert forall|i: int| rows_until(rows, moment) <= i < rows.len() implies (
        #[trigger] rows[i]).moment() > moment by {
            assert(rest[i - 1] == rows[i]);
        }
    } else if rows.len() > 0 {
        assert forall|i: int| 0 <= i < rows.len() implies (#[trigger] rows[i]).moment()
            > moment by {
            assert(rows[0].moment() <= rows[i].moment());
        }
    }
}

proof fn retained_rows_lie_in_their_span<R: Row>(previous: Seq<R>)
    requires
        previous.len() > 0,
        in_event_order(previous),
    ensures
        previous.filter(after_moment(previous.last().moment())) == Seq::<R>::empty(),
        previous.filter(before_moment(previous[0].moment())) == Seq::<R>::empty(),
{
    let newer = after_moment::<R>(previous.last().moment());
    let older = before_moment::<R>(previous[0].moment());
    assert forall|i: int| 0 <= i < previous.len() implies !newer(#[trigger] previous[i])
        && !older(previous[i]) by {
        assert(previous[i].moment() <= previous[previous.len() - 1].moment());
        assert(previous[0].moment() <= previous[i].moment());
    }
    nothing_is_filtered(previous, newer);
    nothing_is_filtered(previous, older);
}

proof fn older_rows_are_joined_whole<R: Row>(low: Seq<R>, previous: Seq<R>)
    requires
        previous.len() > 0,
        in_event_order(previous),
        forall|i: int|
            0 <= i < low.len() ==> (#[trigger] low[i]).moment() <= previous.last().moment(),
    ensures
        joined(low, previous).filter(after_moment(previous.last().moment())) == Seq::<R>::empty(),
        joined(low, previous).filter(before_moment(previous[0].moment())) == low.filter(
            before_moment(previous[0].moment()),
        ),
{
    R::equality_is_identity();
    let newer = after_moment::<R>(previous.last().moment());
    let older = before_moment::<R>(previous[0].moment());
    retained_rows_lie_in_their_span(previous);
    crate::fetch::page::overlap_is_the_largest(low, previous);
    let count = crate::fetch::page::overlap(low, previous);
    let head = low.subrange(0, low.len() - count);
    let tail = low.subrange(low.len() - count, low.len() as int);
    assert(low =~= head + tail);
    assert(joined(low, previous) =~= head + previous);
    assert forall|i: int| 0 <= i < tail.len() implies !older(#[trigger] tail[i]) by {
        assert(low[low.len() - count + i].eq_spec(&previous[i]));
        assert(tail[i] == previous[i]);
        assert(previous[0].moment() <= previous[i].moment());
    }
    nothing_is_filtered(tail, older);
    nothing_is_filtered(head, newer);
    Seq::filter_distributes_over_add(head, tail, older);
    Seq::filter_distributes_over_add(head, previous, older);
    Seq::filter_distributes_over_add(head, previous, newer);
    assert(joined(low, previous).filter(newer) =~= Seq::empty());
    assert(joined(low, previous).filter(older) =~= low.filter(older));
}

proof fn newer_rows_are_joined_whole<R: Row>(base: Seq<R>, high: Seq<R>, moment: int)
    requires
        base.filter(after_moment(moment)) == Seq::<R>::empty(),
        forall|i: int| 0 <= i < high.len() ==> (#[trigger] high[i]).moment() > moment,
    ensures
        joined(base, high) == base + high,
{
    R::equality_is_identity();
    let newer = after_moment::<R>(moment);
    crate::fetch::page::overlap_is_the_largest(base, high);
    let met = crate::fetch::page::overlap(base, high);
    if met > 0 {
        let at = base.len() - met;
        assert(base[base.len() - met + 0].eq_spec(&high[0]));
        assert(newer(base[at]));
        base.lemma_filter_contains(newer, at);
        assert(base.filter(newer).contains(base[at]));
    }
    assert(joined(base, high) =~= base + high);
}

/// Nothing that was newly acquired is lost: the rows of a merge after the last retained moment
/// are exactly the kept rows after it, in their order and as often, and so are those before the
/// first retained moment. Without retained rows the merge is what was kept.
pub proof fn merged_keeps_every_new_row<R: Row>(previous: Seq<R>, rows: Seq<R>)
    requires
        in_event_order(previous),
        in_event_order(rows),
    ensures
        previous.len() == 0 ==> merged(previous, rows) == rows,
        previous.len() > 0 ==> merged(previous, rows).filter(
            after_moment(previous.last().moment()),
        ) == rows.filter(after_moment(previous.last().moment())),
        previous.len() > 0 ==> merged(previous, rows).filter(
            before_moment(previous[0].moment()),
        ) == rows.filter(before_moment(previous[0].moment())),
{
    if previous.len() > 0 {
        let first = previous[0].moment();
        let last = previous.last().moment();
        let newer = after_moment::<R>(last);
        let older = before_moment::<R>(first);
        let split = rows_until(rows, last);
        split_by_moment(rows, last);
        let low = rows.subrange(0, split);
        let high = rows.subrange(split, rows.len() as int);
        retained_rows_lie_in_their_span(previous);
        let base = if low.len() > 0 && low[0].moment() <= first {
            joined(low, previous)
        } else {
            previous
        };
        assert(base.filter(newer) == Seq::<R>::empty() && base.filter(older) == low.filter(
            older,
        )) by {
            if low.len() > 0 && low[0].moment() <= first {
                older_rows_are_joined_whole(low, previous);
            } else {
                assert forall|i: int| 0 <= i < low.len() implies !older(#[trigger] low[i]) by {
                    assert(rows[0].moment() <= rows[i].moment());
                    assert(low[0] == rows[0]);
                }
                nothing_is_filtered(low, older);
            }
        }
        newer_rows_are_joined_whole(base, high, last);
        new_rows_are_the_ends(low, high, base, first, last);
        assert(rows =~= low + high);
    }
}

proof fn new_rows_are_the_ends<R: Row>(
    low: Seq<R>,
    high: Seq<R>,
    base: Seq<R>,
    first: int,
    last: int,
)
    requires
        first <= last,
        forall|i: int| 0 <= i < low.len() ==> (#[trigger] low[i]).moment() <= last,
        forall|i: int| 0 <= i < high.len() ==> (#[trigger] high[i]).moment() > last,
        base.filter(after_moment(last)) == Seq::<R>::empty(),
        base.filter(before_moment(first)) == low.filter(before_moment(first)),
    ensures
        (base + high).filter(after_moment(last)) == (low + high).filter(after_moment(last)),
        (base + high).filter(before_moment(first)) == (low + high).filter(before_moment(first)),
{
    let newer = after_moment::<R>(last);
    let older = before_moment::<R>(first);
    Seq::filter_distributes_over_add(low, high, newer);
    Seq::filter_distributes_over_add(low, high, older);
    Seq::filter_distributes_over_add(base, high, newer);
    Seq::filter_distributes_over_add(base, high, older);
    nothing_is_filtered(low, newer);
    nothing_is_filtered(high, older);
}

/// Every row of the merge was retained or kept.
pub proof fn merged_adds_nothing<R: Row>(previous: Seq<R>, rows: Seq<R>, i: int)
    requires
        0 <= i < merged(previous, rows).len(),
    ensures
        previous.contains(merged(previous, rows)[i]) || rows.contains(merged(previous, rows)[i]),
{
    let all = merged(previous, rows);
    if previous.len() == 0 {
        assert(rows.contains(all[i]));
    } else {
        let split = rows_until(rows, previous.last().moment());
        rows_until_bounds(rows, previous.last().moment());
        let low = rows.subrange(0, split);
        let high = rows.subrange(split, rows.len() as int);
        let base = if low.len() > 0 && low[0].moment() <= previous[0].moment() {
            joined(low, previous)
        } else {
            previous
        };
        crate::fetch::page::overlap_is_the_largest(base, high);
        crate::fetch::page::overlap_is_the_largest(low, previous);
        let head = base.len() - crate::fetch::page::overlap(base, high);
        if i < head {
            assert(all[i] == base[i]);
            if low.len() > 0 && low[0].moment() <= previous[0].moment() {
                let cut = low.len() - crate::fetch::page::overlap(low, previous);
                if i < cut {
                    assert(base[i] == rows[i]);
                } else {
                    assert(base[i] == previous[i - cut]);
                }
            } else {
                assert(base[i] == previous[i]);
            }
        } else {
            assert(all[i] == high[i - head]);
            assert(high[i - head] == rows[split + i - head]);
        }
    }
}

/// Whether any kept row lies outside the retained span: the only additions a consistent reread
/// can carry.
pub open spec fn extends<R: Row>(previous: Seq<R>, rows: Seq<R>) -> bool {
    if previous.len() > 0 {
        exists|i: int|
            0 <= i < rows.len() && ((#[trigger] rows[i]).moment() < previous[0].moment()
                || rows[i].moment() > previous.last().moment())
    } else {
        rows.len() > 0
    }
}

/// The range that the kept rows verify: from the fetched start, or, after a shortfall, from the
/// earliest received time within the range, to the end of what was received.
pub open spec fn newly_verified<R: Row>(
    state: Acquisition<R>,
    stop: Option<Shortfall>,
) -> Option<Range> {
    if state.rows@.len() > 0 {
        Some(
            Range {
                start: (if stop is None {
                    state.fetch_start as int
                } else {
                    earlier_of(
                        later_of(
                            (match state.earliest {
                                Some(earliest) => earliest as int,
                                None => state.requested.end as int,
                            }),
                            state.fetch_start as int,
                        ),
                        state.requested.end as int,
                    )
                }) as i64,
                end: state.received_end->0,
            },
        )
    } else {
        None
    }
}

/// The verified range after an acquisition: ranges that touch are joined; a new range apart from
/// the prior one never replaces it.
pub open spec fn verified_after(prior: Option<Range>, new: Option<Range>) -> Option<Range> {
    match (prior, new) {
        (Some(old), Some(new)) => if new.start <= old.end && old.start <= new.end {
            Some(
                Range {
                    start: earlier_of(old.start as int, new.start as int) as i64,
                    end: later_of(old.end as int, new.end as int) as i64,
                },
            )
        } else {
            Some(old)
        },
        (Some(old), None) => Some(old),
        (None, new) => new,
    }
}

/// A verified range only ever widens.
pub proof fn verified_never_narrows(prior: Option<Range>, new: Option<Range>)
    ensures
        prior is Some ==> verified_after(prior, new) is Some,
        prior is Some ==> verified_after(prior, new)->0.start <= prior->0.start,
        prior is Some ==> verified_after(prior, new)->0.end >= prior->0.end,
{
}

/// A verified range holds only moments that the prior or the new range holds: touching ranges
/// are joined without inventing a gap between them.
pub proof fn verified_claims_nothing_else(prior: Option<Range>, new: Option<Range>, moment: int)
    requires
        verified_after(prior, new) is Some,
        verified_after(prior, new)->0.start <= moment < verified_after(prior, new)->0.end,
    ensures
        (prior is Some && prior->0.start <= moment < prior->0.end) || (new is Some
            && new->0.start <= moment < new->0.end),
{
}

/// The part of the request after the verified end.
pub open spec fn tail_of(
    verified: Option<Range>,
    fetch_start: int,
    requested_end: int,
) -> Option<(Seq<char>, Range)> {
    match verified {
        Some(range) => if range.end < requested_end {
            Some(
                (
                    TAIL_SHORTFALL@,
                    Range {
                        start: later_of(range.end as int, fetch_start) as i64,
                        end: requested_end as i64,
                    },
                ),
            )
        } else {
            None
        },
        None => None,
    }
}

/// What an acquisition established.
#[derive(Debug)]
pub struct Settled<R> {
    pub rows: Vec<R>,
    pub verified: Option<Range>,
    pub actual: Option<Actual>,
    pub shortfall: Option<Shortfall>,
    pub tail_shortfall: Option<Shortfall>,
    pub extends_prior: bool,
    pub pending: bool,
    pub pages: Vec<PageCoverage>,
    pub symbol_id: Option<i32>,
}

/// The end of an acquisition.
#[derive(Debug)]
pub enum Settlement<R> {
    /// The budget expired before the first page: nothing was acquired, so nothing is published;
    /// the intent stays pending for the next invocation.
    Nothing(Shortfall),
    Acquired(Settled<R>),
}

/// Whether an acquisition stopped on its budget.
pub open spec fn stopped_on_budget(stop: Option<Shortfall>) -> bool {
    stop is Some && stop->0.reason@ == BUDGET_SHORTFALL@
}

fn split_at_moment<R: Row>(rows: &Vec<R>, moment: i64) -> (split: usize)
    requires
        all_representable(rows@),
    ensures
        split == rows_until(rows@, moment as int),
{
    let mut i: usize = 0;
    assert(rows@.subrange(0, rows@.len() as int) =~= rows@);
    while i < rows.len() && rows[i].time() <= moment
        invariant
            i <= rows@.len(),
            all_representable(rows@),
            rows_until(rows@, moment as int) == i + rows_until(
                rows@.subrange(i as int, rows@.len() as int),
                moment as int,
            ),
        decreases rows@.len() - i,
    {
        let ghost rest = rows@.subrange(i as int, rows@.len() as int);
        assert(rest[0] == rows@[i as int]);
        assert(rest.subrange(1, rest.len() as int) =~= rows@.subrange(i + 1, rows@.len() as int));
        i = i + 1;
    }
    proof {
        if i < rows@.len() {
            assert(rows@.subrange(i as int, rows@.len() as int)[0] == rows@[i as int]);
        }
    }
    i
}

fn extends_span<R: Row>(previous: &Vec<R>, rows: &Vec<R>) -> (found: bool)
    requires
        all_representable(previous@),
        all_representable(rows@),
    ensures
        found == extends(previous@, rows@),
{
    if previous.len() == 0 {
        return rows.len() > 0;
    }
    let first: i64 = previous[0].time();
    let last: i64 = previous[previous.len() - 1].time();
    let mut i: usize = 0;
    while i < rows.len()
        invariant
            i <= rows@.len(),
            previous@.len() > 0,
            all_representable(rows@),
            first == previous@[0].moment(),
            last == previous@.last().moment(),
            forall|j: int| 0 <= j < i ==> first <= (#[trigger] rows@[j]).moment() <= last,
        decreases rows@.len() - i,
    {
        if rows[i].time() < first || rows[i].time() > last {
            return true;
        }
        i = i + 1;
    }
    false
}

fn merge_rows<R: Row>(previous: Vec<R>, rows: Vec<R>) -> (all: Vec<R>)
    requires
        all_representable(previous@),
        all_representable(rows@),
    ensures
        all@ == merged(previous@, rows@),
{
    proof {
        R::equality_is_identity();
    }
    if previous.len() == 0 {
        return rows;
    }
    let mut low = rows;
    let last: i64 = previous[previous.len() - 1].time();
    let first: i64 = previous[0].time();
    let split: usize = split_at_moment(&low, last);
    proof {
        rows_until_bounds(low@, last as int);
    }
    let high = low.split_off(split);
    assert(low@ =~= rows@.subrange(0, split as int));
    assert(high@ =~= rows@.subrange(split as int, rows@.len() as int));
    let base = if low.len() > 0 && low[0].time() <= first {
        prepend_page(low, previous)
    } else {
        previous
    };
    prepend_page(base, high)
}

/// Joins a prior verified range with a new one.
pub fn join_verified(prior: Option<Range>, new: Option<Range>) -> (verified: Option<Range>)
    ensures
        verified == verified_after(prior, new),
{
    match (prior, new) {
        (Some(old), Some(new)) => if new.start <= old.end && old.start <= new.end {
            Some(Range { start: earlier(old.start, new.start), end: later(old.end, new.end) })
        } else {
            Some(old)
        },
        (Some(old), None) => Some(old),
        (None, new) => new,
    }
}

/// What the end of an acquisition establishes.
pub open spec fn settles<R: Row>(
    state: Acquisition<R>,
    stop: Option<Shortfall>,
    prior_verified: Option<Range>,
    settled: Result<Settlement<R>, String>,
) -> bool {
    &&& refusal(settled) == (if consistent(state.previous@, state.received@, state.floor as int) {
            None
        } else {
            Some(reread_message(state.instrument@))
        })
    &&& settled matches Ok(settlement) ==> match settlement {
            Settlement::Nothing(shortfall) => {
                &&& stopped_on_budget(stop)
                &&& state.pages@.len() == 0
                &&& Some(shortfall) == stop
            },
            Settlement::Acquired(result) => {
                let verified = verified_after(prior_verified, newly_verified(state, stop));
                let tail = tail_of(
                    verified,
                    state.fetch_start as int,
                    state.requested.end as int,
                );
                &&& !(stopped_on_budget(stop) && state.pages@.len() == 0)
                &&& result.rows@ == merged(state.previous@, state.rows@)
                &&& result.verified == verified
                &&& result.actual == (if result.rows@.len() > 0 {
                    Some(
                        Actual {
                            first: result.rows@[0].moment() as i64,
                            last: result.rows@.last().moment() as i64,
                        },
                    )
                } else {
                    None
                })
                &&& shortfall_of(result.shortfall) == (if stop is Some {
                    shortfall_of(stop)
                } else {
                    tail
                })
                &&& shortfall_of(result.tail_shortfall) == (if stop is Some {
                    tail
                } else {
                    None
                })
                &&& result.extends_prior == extends(state.previous@, state.rows@)
                &&& result.pending == stopped_on_budget(stop)
                &&& result.pages == state.pages
                &&& result.symbol_id == state.symbol_id
            },
        }
}

/// Settles an acquisition once paging is over: the whole reread is compared once more down to
/// the floor, the kept rows are merged with the retained ones, and what is verified and what is
/// unresolved is worked out.
pub fn settle<R: Row>(
    state: Acquisition<R>,
    stop: Option<Shortfall>,
    prior_verified: Option<Range>,
) -> (settled: Result<Settlement<R>, String>)
    requires
        state.wf(),
    ensures
        settles(state, stop, prior_verified, settled),
{
    match check_verified_overlap(
        state.instrument.as_str(),
        &state.previous,
        &state.received,
        state.floor,
    ) {
        Ok(()) => {},
        Err(message) => {
            return Err(message);
        },
    }
    let pending: bool = match &stop {
        Some(shortfall) => same_text(shortfall.reason.as_str(), BUDGET_SHORTFALL),
        None => false,
    };
    if state.pages.len() == 0 {
        if pending {
            if let Some(shortfall) = stop {
                return Ok(Settlement::Nothing(shortfall));
            }
        }
    }
    let extends_prior: bool = extends_span(&state.previous, &state.rows);
    let new: Option<Range> = if state.rows.len() > 0 {
        let start: i64 = if stop.is_none() {
            state.fetch_start
        } else {
            let earliest: i64 = match state.earliest {
                Some(earliest) => earliest,
                None => state.requested.end,
            };
            earlier(later(earliest, state.fetch_start), state.requested.end)
        };
        match state.received_end {
            Some(end) => Some(Range { start, end }),
            None => None,
        }
    } else {
        None
    };
    let verified = join_verified(prior_verified, new);
    let tail: Option<Shortfall> = match verified {
        Some(range) => if range.end < state.requested.end {
            Some(
                Shortfall {
                    reason: TAIL_SHORTFALL.to_owned(),
                    unresolved: Range {
                        start: later(range.end, state.fetch_start),
                        end: state.requested.end,
                    },
                },
            )
        } else {
            None
        },
        None => None,
    };
    proof {
        merged_representable(state.previous@, state.rows@);
    }
    let rows = merge_rows(state.previous, state.rows);
    let actual: Option<Actual> = if rows.len() > 0 {
        Some(Actual { first: rows[0].time(), last: rows[rows.len() - 1].time() })
    } else {
        None
    };
    let (shortfall, tail_shortfall) = match stop {
        Some(shortfall) => (Some(shortfall), tail),
        None => (tail, None),
    };
    Ok(
        Settlement::Acquired(
            Settled {
                rows,
                verified,
                actual,
                shortfall,
                tail_shortfall,
                extends_prior,
                pending,
                pages: state.pages,
                symbol_id: state.symbol_id,
            },
        ),
    )
}

proof fn merged_representable<R: Row>(previous: Seq<R>, rows: Seq<R>)
    requires
        all_representable(previous),
        all_representable(rows),
    ensures
        all_representable(merged(previous, rows)),
{
    let all = merged(previous, rows);
    assert forall|i: int| 0 <= i < all.len() implies (#[trigger] all[i]).representable() by {
        merged_adds_nothing(previous, rows, i);
        if previous.contains(all[i]) {
            let at = choose|at: int| 0 <= at < previous.len() && previous[at] == all[i];
            assert(previous[at].representable());
        } else {
            let at = choose|at: int| 0 <= at < rows.len() && rows[at] == all[i];
            assert(rows[at].representable());
        }
    }
}

/// Whether an acquisition left the prior generation as it was: no row outside the retained span
/// and the same verified range and shortfalls.
pub open spec fn unchanged<R: Row>(settled: Settled<R>, prior: Option<&HistoryCoverage>) -> bool {
    &&& !settled.extends_prior
    &&& prior is Some
    &&& shortfall_of(prior->0.shortfall) == shortfall_of(settled.shortfall)
    &&& shortfall_of(prior->0.tail_shortfall) == shortfall_of(settled.tail_shortfall)
    &&& prior->0.verified == settled.verified
}

/// Which way the result of an acquisition is published.
#[derive(Debug, Clone, Copy, PartialEq, Eq, Structural)]
pub enum Route {
    /// Republish the prior generation under the new request.
    Retained,
    /// Publish a daily descendant of the baseline.
    Daily,
    /// No row at all: retain the unresolved receipt without a ready manifest.
    Receipt,
    /// Publish one cumulative generation.
    Generation,
}

/// Which way the result of an acquisition is published.
pub open spec fn route_of<R: Row>(
    settled: Settled<R>,
    prior: Option<&HistoryCoverage>,
    daily: bool,
) -> Route {
    if unchanged(settled, prior) && !daily {
        Route::Retained
    } else if settled.rows@.len() == 0 {
        Route::Receipt
    } else if daily {
        Route::Daily
    } else {
        Route::Generation
    }
}

/// Decides how the result of an acquisition is published.
pub fn route<R: Row>(
    settled: &Settled<R>,
    prior: Option<&HistoryCoverage>,
    daily: bool,
) -> (route: Route)
    ensures
        route == route_of(*settled, prior, daily),
{
    let same: bool = match prior {
        Some(coverage) => !settled.extends_prior && same_shortfall(
            &coverage.shortfall,
            &settled.shortfall,
        ) && same_shortfall(&coverage.tail_shortfall, &settled.tail_shortfall) && same_range(
            &coverage.verified,
            &settled.verified,
        ),
        None => false,
    };
    if same && !daily {
        Route::Retained
    } else if settled.rows.len() == 0 {
        Route::Receipt
    } else if daily {
        Route::Daily
    } else {
        Route::Generation
    }
}

} // verus!
