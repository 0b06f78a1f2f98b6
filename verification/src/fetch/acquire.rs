//! One bounded acquisition of native history, as decisions between outside steps: where paging
//! starts, whether the budget allows another request, what a received page proves, and what the
//! finished acquisition verifies.

use crate::fetch::coverage::{
    PageCoverage, Range, SeedLineage, Shortfall, BUDGET_SHORTFALL, EMPTY_SHORTFALL,
    STALLED_SHORTFALL,
};
use crate::fetch::page::{check_verified_overlap, consistent, joined, prepend_page, reread_message};
use crate::market::{
    all_representable, clamped, earlier, earlier_of, frontier, frontier_of, in_event_order, later,
    later_of, saturating_difference, saturating_sum, NativeGranularity, Row,
};
use crate::text::{append_signed, refusal, signed_decimal};
use vstd::prelude::*;
use vstd::string::*;

verus! {

/// The generation an acquisition extends: a prior broker-history descendant with its coverage,
/// or an explicitly bound imported seed, which has none.
#[derive(Debug)]
pub struct Baseline {
    pub generation: String,
    pub first_time: i64,
    pub last_time: i64,
    pub covered: bool,
    pub verified: Option<Range>,
    pub daily: bool,
    /// The seed lineage the descendant carries forward.
    pub seed: Option<SeedLineage>,
}

impl Baseline {
    /// Only recorded coverage can name a verified range.
    pub open spec fn wf(&self) -> bool {
        self.verified is Some ==> self.covered
    }
}

/// How far the baseline already reaches: a seed contributes its frontier, a descendant the end
/// of its verified range unless a leading interval of the request is still unfetched.
pub open spec fn baseline_reach(
    granularity: NativeGranularity,
    requested: Range,
    baseline: Option<&Baseline>,
) -> Option<int> {
    match baseline {
        None => None,
        Some(prior) => if !prior.covered {
            Some(frontier_of(granularity, prior.last_time as int))
        } else {
            match prior.verified {
                Some(verified) => if verified.start <= requested.start {
                    Some(verified.end as int)
                } else {
                    None
                },
                None => None,
            }
        },
    }
}

/// Where fetching starts: at the requested start, or, where the baseline reaches further, at its
/// reach less the configured overlap.
pub open spec fn fetch_start_of(
    granularity: NativeGranularity,
    requested: Range,
    overlap_seconds: Option<u32>,
    baseline: Option<&Baseline>,
) -> int {
    let seconds = match overlap_seconds {
        Some(seconds) => seconds as int,
        None => 0,
    };
    match baseline_reach(granularity, requested, baseline) {
        None => requested.start as int,
        Some(end) => later_of(requested.start as int, clamped(end - seconds * 1_000_000)),
    }
}

/// Whether an acquisition has anything to fetch.
#[derive(Debug, Clone, Copy, PartialEq, Eq, Structural)]
pub enum Opening {
    /// The prior coverage already exhausts the requested range.
    Exhausted,
    /// Fetch from `start`; rows are compared with retained ones from `floor`.
    Fetch { start: i64, floor: i64 },
}

/// Where an acquisition starts, and from where it is compared.
pub open spec fn opens(
    granularity: NativeGranularity,
    requested: Range,
    overlap_seconds: Option<u32>,
    baseline: Option<&Baseline>,
    opening: Opening,
) -> bool {
    opening == ({
        let start = fetch_start_of(granularity, requested, overlap_seconds, baseline);
        if start >= requested.end {
            Opening::Exhausted
        } else {
            Opening::Fetch {
                start: start as i64,
                floor: (match baseline {
                    Some(prior) => match prior.verified {
                        Some(verified) => verified.start,
                        None => start as i64,
                    },
                    None => start as i64,
                }),
            }
        }
    })
}

/// Decides where an acquisition starts before the first request.
///
/// Only prior coverage can exhaust a range that precedes its own end: a seed whose frontier
/// leaves nothing to fetch is not a request this function takes.
pub fn opening(
    granularity: NativeGranularity,
    requested: Range,
    overlap_seconds: Option<u32>,
    baseline: Option<&Baseline>,
) -> (opening: Opening)
    requires
        baseline is Some ==> baseline->0.wf(),
        fetch_start_of(granularity, requested, overlap_seconds, baseline) >= requested.end
            ==> baseline is Some && baseline->0.covered,
    ensures
        opens(granularity, requested, overlap_seconds, baseline, opening),
{
    let seconds: i64 = match overlap_seconds {
        Some(seconds) => seconds as i64,
        None => 0,
    };
    let overlap: i64 = seconds * 1_000_000;
    let mut reach: Option<i64> = None;
    let mut verified: Option<Range> = None;
    if let Some(prior) = baseline {
        verified = prior.verified;
        if !prior.covered {
            reach = Some(frontier(granularity, prior.last_time));
        } else if let Some(range) = prior.verified {
            if range.start <= requested.start {
                reach = Some(range.end);
            }
        }
    }
    let start: i64 = match reach {
        Some(end) => later(requested.start, saturating_difference(end, overlap)),
        None => requested.start,
    };
    if start >= requested.end {
        return Opening::Exhausted;
    }
    let floor: i64 = match verified {
        Some(range) => range.start,
        None => start,
    };
    Opening::Fetch { start, floor }
}

/// A decoded page: its rows in event order, the provider's numeric identifier if the page
/// carried one, and the coverage record of its retained bytes.
#[derive(Debug)]
pub struct Page<R> {
    pub rows: Vec<R>,
    pub symbol_id: Option<i32>,
    pub coverage: PageCoverage,
}

impl<R: Row> Page<R> {
    /// The row sequence was accepted before the page is judged: its rows are in event order and
    /// their times are representable.
    pub open spec fn wf(&self) -> bool {
        in_event_order(self.rows@) && all_representable(self.rows@)
    }
}

/// The running state of one acquisition.
#[derive(Debug)]
pub struct Acquisition<R> {
    pub instrument: String,
    pub requested: Range,
    pub fetch_start: i64,
    pub floor: i64,
    /// Every retained row of the baseline.
    pub previous: Vec<R>,
    /// The provider's numeric identifier that every row carried so far.
    pub symbol_id: Option<i32>,
    /// The rows kept so far, oldest first.
    pub rows: Vec<R>,
    /// Every received row, assembled across page boundaries before the range filter, so a
    /// repeated observation split between two pages still matches the verified multiplicity.
    pub received: Vec<R>,
    pub earliest: Option<i64>,
    pub received_end: Option<i64>,
    pub anchor: i64,
    pub requests: u32,
    pub pages: Vec<PageCoverage>,
}

/// Which rows an acquisition keeps: complete within the fetched range.
pub open spec fn keeps<R: Row>(fetch_start: int, end: int) -> spec_fn(R) -> bool {
    |row: R| fetch_start <= row.moment() && row.moment() < end && row.completion() <= end
}

impl<R: Row> Acquisition<R> {
    /// Every kept row is complete within the fetched range, and where a row was kept the end of
    /// what was received is known.
    pub open spec fn wf(&self) -> bool {
        &&& self.fetch_start < self.requested.end
        &&& all_representable(self.previous@)
        &&& all_representable(self.rows@)
        &&& all_representable(self.received@)
        &&& forall|i: int|
            0 <= i < self.rows@.len() ==> keeps::<R>(
                self.fetch_start as int,
                self.requested.end as int,
            )(#[trigger] self.rows@[i])
        &&& self.rows@.len() > 0 ==> self.received_end is Some
    }

    /// The range left unresolved when paging stops here.
    pub open spec fn unresolved(&self) -> Range {
        Range {
            start: self.fetch_start,
            end: earlier_of(
                (match self.earliest {
                    Some(earliest) => earliest as int,
                    None => self.requested.end as int,
                }),
                self.requested.end as int,
            ) as i64,
        }
    }

    /// A fresh acquisition of a range that has something to fetch.
    pub fn new(
        instrument: String,
        requested: Range,
        fetch_start: i64,
        floor: i64,
        previous: Vec<R>,
        symbol_id: Option<i32>,
    ) -> (acquisition: Self)
        requires
            fetch_start < requested.end,
            all_representable(previous@),
        ensures
            acquisition.wf(),
            acquisition.instrument == instrument,
            acquisition.requested == requested,
            acquisition.fetch_start == fetch_start,
            acquisition.floor == floor,
            acquisition.previous == previous,
            acquisition.symbol_id == symbol_id,
            acquisition.rows@.len() == 0,
            acquisition.received@.len() == 0,
            acquisition.earliest is None,
            acquisition.received_end is None,
            acquisition.anchor == requested.end,
            acquisition.requests == 0,
            acquisition.pages@.len() == 0,
    {
        Acquisition {
            instrument,
            requested,
            fetch_start,
            floor,
            previous,
            symbol_id,
            rows: Vec::new(),
            received: Vec::new(),
            earliest: None,
            received_end: None,
            anchor: requested.end,
            requests: 0,
            pages: Vec::new(),
        }
    }

    fn shortfall(&self, reason: &str) -> (shortfall: Shortfall)
        ensures
            shortfall.reason@ == reason@,
            shortfall.unresolved == self.unresolved(),
    {
        let end: i64 = match self.earliest {
            Some(earliest) => earliest,
            None => self.requested.end,
        };
        Shortfall {
            reason: reason.to_owned(),
            unresolved: Range {
                start: self.fetch_start,
                end: earlier(end, self.requested.end),
            },
        }
    }

    /// Everything but the request count is as before.
    pub open spec fn same_but_requests(&self, other: &Self) -> bool {
        &&& self.instrument == other.instrument
        &&& self.requested == other.requested
        &&& self.fetch_start == other.fetch_start
        &&& self.floor == other.floor
        &&& self.previous == other.previous
        &&& self.symbol_id == other.symbol_id
        &&& self.rows == other.rows
        &&& self.received == other.received
        &&& self.earliest == other.earliest
        &&& self.received_end == other.received_end
        &&& self.anchor == other.anchor
        &&& self.pages == other.pages
    }

    /// Decides the next outside step. A retained page of the pending intent replays from its
    /// bytes; then live requests continue from the durable cursor within the budget: at most
    /// `max_pages` requests, none at or after `deadline`.
    pub fn next(
        &mut self,
        retained_left: bool,
        max_pages: Option<u32>,
        deadline: Option<i64>,
        now: i64,
    ) -> (action: Action)
        requires
            old(self).wf(),
            old(self).requests < u32::MAX,
        ensures
            final(self).wf(),
            goes_on(*old(self), *final(self), retained_left, max_pages, deadline, now, action),
    {
        if retained_left {
            return Action::Replay;
        }
        let spent: bool = match max_pages {
            Some(limit) => self.requests >= limit,
            None => false,
        };
        let late: bool = match deadline {
            Some(deadline) => now >= deadline,
            None => false,
        };
        if spent || late {
            return Action::Stop(self.shortfall(BUDGET_SHORTFALL));
        }
        let ordinal: u64 = self.requests as u64;
        self.requests = self.requests + 1;
        Action::Request { anchor: self.anchor, ordinal }
    }
}

/// What an acquisition asks for next.
pub open spec fn goes_on<R: Row>(
    before: Acquisition<R>,
    after: Acquisition<R>,
    retained_left: bool,
    max_pages: Option<u32>,
    deadline: Option<i64>,
    now: i64,
    action: Action,
) -> bool {
    &&& after.same_but_requests(&before)
    &&& match action {
        Action::Replay => retained_left && after.requests == before.requests,
        Action::Stop(shortfall) => {
            &&& !retained_left
            &&& out_of_budget(before.requests, max_pages, deadline, now)
            &&& shortfall.reason@ == BUDGET_SHORTFALL@
            &&& shortfall.unresolved == before.unresolved()
            &&& after.requests == before.requests
        },
        Action::Request { anchor, ordinal } => {
            &&& !retained_left
            &&& !out_of_budget(before.requests, max_pages, deadline, now)
            &&& anchor == before.anchor
            &&& ordinal == before.requests
            &&& after.requests == before.requests + 1
        },
    }
}

/// Whether the page limit or the deadline forbids another request.
pub open spec fn out_of_budget(
    requests: u32,
    max_pages: Option<u32>,
    deadline: Option<i64>,
    now: i64,
) -> bool {
    ||| max_pages is Some && requests >= max_pages->0
    ||| deadline is Some && now >= deadline->0
}

/// The outside step an acquisition asks for.
#[derive(Debug)]
pub enum Action {
    /// Replay the next retained page of the pending intent.
    Replay,
    /// Request the page before `anchor`; it is the invocation's request number `ordinal`.
    Request { anchor: i64, ordinal: u64 },
    /// The budget is spent.
    Stop(Shortfall),
}

/// How many leading rows are complete by `cutoff`.
pub open spec fn complete_rows<R: Row>(rows: Seq<R>, cutoff: int) -> int
    decreases rows.len(),
{
    if rows.len() == 0 || rows[0].completion() > cutoff {
        0
    } else {
        1 + complete_rows(rows.subrange(1, rows.len() as int), cutoff)
    }
}

/// Where the coverage of a page ends: at the last complete row, or where a row straddles the
/// cutoff, since a bar reaching past the cutoff proves nothing after its start.
pub open spec fn page_end<R: Row>(rows: Seq<R>, cutoff: int) -> int {
    let complete = complete_rows(rows, cutoff);
    if complete < rows.len() {
        earlier_of(rows[complete].moment(), cutoff)
    } else {
        rows.last().completion()
    }
}

/// The end of what was received after one more page.
pub open spec fn received_end_after<R: Row>(
    before: Option<i64>,
    rows: Seq<R>,
    fetch_start: int,
    cutoff: int,
) -> Option<int> {
    if rows.len() > 0 && rows.last().moment() >= fetch_start {
        Some(
            later_of(
                (match before {
                    Some(end) => end as int,
                    None => i64::MIN as int,
                }),
                page_end(rows, cutoff),
            ),
        )
    } else {
        match before {
            Some(end) => Some(end as int),
            None => None,
        }
    }
}

fn end_of_page<R: Row>(rows: &Vec<R>, cutoff: i64) -> (end: i64)
    requires
        rows@.len() > 0,
        all_representable(rows@),
    ensures
        end == page_end(rows@, cutoff as int),
{
    let mut i: usize = 0;
    assert(rows@.subrange(0, rows@.len() as int) =~= rows@);
    while i < rows.len()
        invariant
            i <= rows@.len(),
            rows@.len() > 0,
            all_representable(rows@),
            complete_rows(rows@, cutoff as int) == i + complete_rows(
                rows@.subrange(i as int, rows@.len() as int),
                cutoff as int,
            ),
        decreases rows@.len() - i,
    {
        let ghost rest = rows@.subrange(i as int, rows@.len() as int);
        assert(rest[0] == rows@[i as int]);
        if rows[i].end() > cutoff {
            return earlier(rows[i].time(), cutoff);
        }
        assert(rest.subrange(1, rest.len() as int) =~= rows@.subrange(
            i + 1,
            rows@.len() as int,
        ));
        i = i + 1;
    }
    rows[rows.len() - 1].end()
}

/// The message of a page whose provider identifier differs from the lineage's.
pub open spec fn symbol_message(instrument: Seq<char>, seen: int, known: int) -> Seq<char> {
    "fetch "@ + instrument + ": the provider identifies this instrument as "@ + signed_decimal(seen)
        + ", but the retained lineage carries "@ + signed_decimal(known)
}

/// The oldest received time is left out of the comparison until the next page can complete its
/// multiplicity.
pub open spec fn boundary<R: Row>(received: Seq<R>, floor: int) -> int {
    if received.len() > 0 {
        later_of(clamped(received[0].moment() + 1), floor)
    } else {
        floor
    }
}

/// Why a page is refused, if it is.
pub open spec fn page_refusal<R: Row>(state: Acquisition<R>, page: Page<R>) -> Option<Seq<char>> {
    let received = joined(page.rows@, state.received@);
    if state.symbol_id is Some && page.symbol_id is Some && state.symbol_id != page.symbol_id {
        Some(
            symbol_message(
                state.instrument@,
                page.symbol_id->0 as int,
                state.symbol_id->0 as int,
            ),
        )
    } else if !consistent(state.previous@, received, boundary(received, state.floor as int)) {
        Some(reread_message(state.instrument@))
    } else {
        None
    }
}

/// A copy of rows.
pub fn copy_rows<R: Row>(rows: &Vec<R>) -> (copy: Vec<R>)
    ensures
        copy@ == rows@,
{
    let mut copy: Vec<R> = Vec::new();
    let mut i: usize = 0;
    while i < rows.len()
        invariant
            i <= rows@.len(),
            copy@ == rows@.take(i as int),
        decreases rows@.len() - i,
    {
        copy.push(rows[i]);
        i = i + 1;
        assert(rows@.take(i as int) =~= rows@.take(i - 1).push(rows@[i - 1]));
    }
    assert(rows@.take(i as int) =~= rows@);
    copy
}

proof fn joined_representable<R: Row>(older: Seq<R>, newer: Seq<R>)
    requires
        all_representable(older),
        all_representable(newer),
    ensures
        all_representable(joined(older, newer)),
{
    crate::fetch::page::overlap_is_the_largest(older, newer);
    let rows = joined(older, newer);
    let kept = older.subrange(0, older.len() - crate::fetch::page::overlap(older, newer));
    assert forall|i: int| 0 <= i < rows.len() implies (#[trigger] rows[i]).representable() by {
        if i < kept.len() {
            assert(rows[i] == older[i]);
        } else {
            assert(rows[i] == newer[i - kept.len()]);
        }
    }
}

proof fn joined_kept<R: Row>(older: Seq<R>, newer: Seq<R>, start: int, end: int)
    requires
        forall|i: int| 0 <= i < older.len() ==> keeps::<R>(start, end)(#[trigger] older[i]),
        forall|i: int| 0 <= i < newer.len() ==> keeps::<R>(start, end)(#[trigger] newer[i]),
    ensures
        forall|i: int|
            0 <= i < joined(older, newer).len() ==> keeps::<R>(start, end)(
                #[trigger] joined(older, newer)[i],
            ),
{
    crate::fetch::page::overlap_is_the_largest(older, newer);
    let rows = joined(older, newer);
    let kept = older.subrange(0, older.len() - crate::fetch::page::overlap(older, newer));
    assert forall|i: int| 0 <= i < rows.len() implies keeps::<R>(start, end)(
        #[trigger] rows[i],
    ) by {
        if i < kept.len() {
            assert(rows[i] == older[i]);
        } else {
            assert(rows[i] == newer[i - kept.len()]);
        }
    }
}

/// What is known once a page was judged.
pub open spec fn checks_page<R: Row>(
    before: Acquisition<R>,
    page: Page<R>,
    checked: Result<Acquisition<R>, String>,
) -> bool {
    &&& refusal(checked) == page_refusal(before, page)
    &&& checked matches Ok(next) ==> {&&& next.wf()
                &&& next.instrument == before.instrument
                &&& next.requested == before.requested
                &&& next.fetch_start == before.fetch_start
                &&& next.floor == before.floor
                &&& next.previous == before.previous
                &&& next.rows == before.rows
                &&& next.earliest == before.earliest
                &&& next.anchor == before.anchor
                &&& next.requests == before.requests
                &&& next.pages == before.pages
                &&& next.symbol_id == (if page.symbol_id is Some {
                    page.symbol_id
                } else {
                    before.symbol_id
                })
                &&& next.received@ == joined(page.rows@, before.received@)
                &&& (match next.received_end {
                    Some(end) => Some(end as int),
                    None => None,
                }) == received_end_after(
                    before.received_end,
                    page.rows@,
                    before.fetch_start as int,
                    before.requested.end as int,
                )
            }
}

impl<R: Row> Acquisition<R> {
    /// Judges a decoded page against everything retained. A page contradicting the retained
    /// rows is never checkpointed: the acquisition ends with the reason.
    pub fn check_page(self, page: &Page<R>) -> (checked: Result<Self, String>)
        requires
            self.wf(),
            page.wf(),
        ensures
            checks_page(self, *page, checked),
    {
        proof {
            R::equality_is_identity();
            joined_representable(page.rows@, self.received@);
        }
        let mut next = self;
        if let Some(seen) = page.symbol_id {
            if let Some(known) = next.symbol_id {
                if known != seen {
                    let mut message = String::from_str("fetch ");
                    message.append(next.instrument.as_str());
                    message.append(": the provider identifies this instrument as ");
                    append_signed(&mut message, seen as i64);
                    message.append(", but the retained lineage carries ");
                    append_signed(&mut message, known as i64);
                    return Err(message);
                }
            }
            next.symbol_id = Some(seen);
        }
        next.received = prepend_page(copy_rows(&page.rows), next.received);
        let floor: i64 = if next.received.len() > 0 {
            later(saturating_sum(next.received[0].time(), 1), next.floor)
        } else {
            next.floor
        };
        match check_verified_overlap(next.instrument.as_str(), &next.previous, &next.received, floor) {
            Ok(()) => {},
            Err(message) => {
                return Err(message);
            },
        }
        if page.rows.len() > 0 && page.rows[page.rows.len() - 1].time() >= next.fetch_start {
            let end: i64 = end_of_page(&page.rows, next.requested.end);
            let before: i64 = match next.received_end {
                Some(end) => end,
                None => i64::MIN,
            };
            next.received_end = Some(later(before, end));
        }
        Ok(next)
    }
}

/// What follows an accepted page.
#[derive(Debug)]
pub enum Step {
    /// Request the page before the new anchor.
    Continue,
    /// Paging is over: the start was reached, or the shortfall says why it was not.
    Finished(Option<Shortfall>),
}

/// Whether a received row contradicts one already kept.
pub open spec fn any_contradiction<R: Row>(kept: Seq<R>, received: Seq<R>) -> bool {
    exists|i: int, j: int|
        #![trigger kept[i], received[j]]
        0 <= i < kept.len() && 0 <= j < received.len() && kept[i].contradicts(&received[j])
}

/// The message of a page that contradicts a kept row.
pub open spec fn conflict_message(instrument: Seq<char>) -> Seq<char> {
    "fetch "@ + instrument + ": conflicting prices at one time"@
}

/// Whether a page reaches no further back than the pages before it.
pub open spec fn stalled<R: Row>(state: Acquisition<R>, rows: Seq<R>) -> bool {
    rows.len() > 0 && state.earliest is Some && rows[0].moment() >= state.earliest->0
}

fn contradicts_kept<R: Row>(kept: &Vec<R>, received: &Vec<R>) -> (found: bool)
    ensures
        found == any_contradiction(kept@, received@),
{
    let mut j: usize = 0;
    while j < received.len()
        invariant
            j <= received@.len(),
            forall|a: int, b: int|
                #![trigger kept@[a], received@[b]]
                0 <= a < kept@.len() && 0 <= b < j ==> !kept@[a].contradicts(&received@[b]),
        decreases received@.len() - j,
    {
        let mut i: usize = 0;
        while i < kept.len()
            invariant
                i <= kept@.len(),
                j < received@.len(),
                forall|a: int|
                    0 <= a < i ==> !(#[trigger] kept@[a]).contradicts(&received@[j as int]),
            decreases kept@.len() - i,
        {
            if kept[i].conflicts(&received[j]) {
                return true;
            }
            i = i + 1;
        }
        j = j + 1;
    }
    false
}

fn kept_rows<R: Row>(rows: &Vec<R>, start: i64, end: i64) -> (kept: Vec<R>)
    requires
        all_representable(rows@),
    ensures
        kept@ == rows@.filter(keeps::<R>(start as int, end as int)),
        all_representable(kept@),
        forall|i: int|
            0 <= i < kept@.len() ==> keeps::<R>(start as int, end as int)(#[trigger] kept@[i]),
{
    let ghost chosen = keeps::<R>(start as int, end as int);
    let mut kept: Vec<R> = Vec::new();
    let mut i: usize = 0;
    assert(rows@.take(0).filter(chosen) =~= Seq::empty()) by {
        reveal(Seq::filter);
    }
    while i < rows.len()
        invariant
            i <= rows@.len(),
            all_representable(rows@),
            all_representable(kept@),
            chosen == keeps::<R>(start as int, end as int),
            kept@ == rows@.take(i as int).filter(chosen),
            forall|j: int| 0 <= j < kept@.len() ==> chosen(#[trigger] kept@[j]),
        decreases rows@.len() - i,
    {
        let row = rows[i];
        assert(rows@.take(i + 1) =~= rows@.take(i as int).push(row));
        proof {
            rows@.take(i as int).lemma_filter_push(row, chosen);
        }
        if start <= row.time() && row.time() < end && row.end() <= end {
            kept.push(row);
        }
        i = i + 1;
    }
    assert(rows@.take(i as int) =~= rows@);
    kept
}

/// What becomes of a page that was accepted.
pub open spec fn takes_page<R: Row>(
    before: Acquisition<R>,
    page: Page<R>,
    taken: Result<(Acquisition<R>, Step), String>,
) -> bool {
    &&& refusal(taken) == (if stalled(before, page.rows@) && any_contradiction(
                before.rows@,
                page.rows@,
            ) {
                Some(conflict_message(before.instrument@))
            } else {
                None
            })
    &&& taken matches Ok((next, step)) ==> {&&& next.wf()
                &&& next.instrument == before.instrument
                &&& next.requested == before.requested
                &&& next.fetch_start == before.fetch_start
                &&& next.floor == before.floor
                &&& next.previous == before.previous
                &&& next.symbol_id == before.symbol_id
                &&& next.received == before.received
                &&& next.received_end == before.received_end
                &&& next.requests == before.requests
                &&& next.pages@ == before.pages@.push(page.coverage)
                &&& if page.rows@.len() == 0 || stalled(before, page.rows@) {
                    &&& next.rows == before.rows
                    &&& next.earliest == before.earliest
                    &&& next.anchor == before.anchor
                    &&& step matches Step::Finished(Some(shortfall))
                    &&& shortfall.unresolved == before.unresolved()
                    &&& shortfall.reason@ == (if page.rows@.len() == 0 {
                        EMPTY_SHORTFALL@
                    } else {
                        STALLED_SHORTFALL@
                    })
                } else {
                    let first = page.rows@[0].moment();
                    &&& next.rows@ == joined(
                        page.rows@.filter(
                            keeps::<R>(before.fetch_start as int, before.requested.end as int),
                        ),
                        before.rows@,
                    )
                    &&& next.earliest == Some(first as i64)
                    &&& if first <= before.fetch_start {
                        step == Step::Finished(None) && next.anchor == before.anchor
                    } else {
                        step is Continue && next.anchor == first
                    }
                }
            }
}

impl<R: Row> Acquisition<R> {
    /// Takes a checked page: records it, and decides whether paging goes on. An empty page or
    /// one that reaches no further back stops the acquisition; contradicting prices are errors
    /// even in a non-progressing response.
    pub fn take_page(self, page: Page<R>) -> (taken: Result<(Self, Step), String>)
        requires
            self.wf(),
            page.wf(),
            page.rows@.len() > 0 && page.rows@.last().moment() >= self.fetch_start
                ==> self.received_end is Some,
        ensures
            takes_page(self, page, taken),
    {
        let mut next = self;
        let rows = page.rows;
        if rows.len() == 0 {
            next.pages.push(page.coverage);
            let shortfall = next.shortfall(EMPTY_SHORTFALL);
            return Ok((next, Step::Finished(Some(shortfall))));
        }
        let first: i64 = rows[0].time();
        let stalls: bool = match next.earliest {
            Some(earliest) => first >= earliest,
            None => false,
        };
        if stalls {
            if contradicts_kept(&next.rows, &rows) {
                let mut message = String::from_str("fetch ");
                message.append(next.instrument.as_str());
                message.append(": conflicting prices at one time");
                return Err(message);
            }
            next.pages.push(page.coverage);
            let shortfall = next.shortfall(STALLED_SHORTFALL);
            return Ok((next, Step::Finished(Some(shortfall))));
        }
        next.pages.push(page.coverage);
        next.earliest = Some(first);
        let kept = kept_rows(&rows, next.fetch_start, next.requested.end);
        proof {
            R::equality_is_identity();
            joined_representable(kept@, next.rows@);
            joined_kept(kept@, next.rows@, next.fetch_start as int, next.requested.end as int);
            if kept@.len() > 0 {
                rows@.lemma_filter_contains_rev(
                    keeps::<R>(next.fetch_start as int, next.requested.end as int),
                    kept@[0],
                );
                let at = choose|at: int| 0 <= at < rows@.len() && rows@[at] == kept@[0];
                assert(rows@[at].moment() <= rows@.last().moment());
            }
        }
        next.rows = prepend_page(kept, next.rows);
        if first <= next.fetch_start {
            return Ok((next, Step::Finished(None)));
        }
        next.anchor = first;
        Ok((next, Step::Continue))
    }
}

} // verus!
