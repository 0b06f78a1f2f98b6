//! What holds of the days, pages and claims of every daily generation.

use crate::dataset::ObjectRecord;
use crate::fetch::coverage::{HistoryCoverage, OccurrenceIdentity, PageCoverage, Range};
use crate::lineage::days::{
    claims_agree, continuation_refusal, is_day_object, is_descendant_evidence, is_history_claim,
    is_import_evidence, is_migration_evidence, observed_bounds, observed_verified, sums_up,
    AcquisitionCoverage, DayCoverage, DayFamily, DayInventoryEntry, DayState,
};
use crate::lineage::evidence::{is_settled, stays};
use crate::lineage::occurrences::{
    has_zone, is_extent, is_retained, joined_pages, occurrence_at, same_occurrence, zone_parts,
    zone_refusal, Occurrence,
};
use crate::lineage::ranges::covers;
use crate::lineage::root::{
    day_before, is_known_empty, is_page, last_at, page_bytes, path_date, provenance_of,
    takes_claim, EncodedPage,
};
use crate::lineage::rows::{
    carried_days, claim_of, day_of, is_diagnostic, is_grouping, is_indexed, kept_row, met,
    received_refusal, rows_on, DayMetadata, DayRows,
};
use crate::search::{first_where_found, first_where_meets};
use crate::text::{begins_with, finishes_with, text_before, text_of, views};
use vstd::prelude::*;

verus! {

/// A moment lies on the day that starts no later and ends after it, days counted from the epoch.
pub proof fn a_moment_lies_on_its_day(micros: int)
    ensures
        day_of(micros) * 86_400_000_000 <= micros < (day_of(micros) + 1) * 86_400_000_000,
{
}

/// A range holds its start and not its end.
pub proof fn a_range_holds_its_start(range: Range, moment: int)
    ensures
        range.has(moment) <==> range.start <= moment && moment < range.end,
        covers(seq![range], moment) <==> range.start <= moment < range.end,
        !covers(Seq::<Range>::empty(), moment),
{
    if range.has(moment) {
        assert(seq![range][0].has(moment));
    }
}

/// The rows of a day are exactly those whose time lies on it, in their order.
pub proof fn a_day_has_its_rows(times: Seq<i64>, day: int, count: nat)
    requires
        count <= times.len(),
    ensures
        forall|k: int| #[trigger]
            rows_on(times, day, count).contains(k) <==> 0 <= k < count && day * 86_400_000_000
                <= times[k] < (day + 1) * 86_400_000_000,
        forall|i: int, j: int|
            0 <= i < j < rows_on(times, day, count).len() ==> rows_on(times, day, count)[i]
                < rows_on(times, day, count)[j],
    decreases count,
{
    if count > 0 {
        let before = rows_on(times, day, (count - 1) as nat);
        a_day_has_its_rows(times, day, (count - 1) as nat);
        a_moment_lies_on_its_day(times[count - 1] as int);
        let all = rows_on(times, day, count);
        assert forall|k: int| #[trigger] all.contains(k) <==> 0 <= k < count && day
            * 86_400_000_000 <= times[k] < (day + 1) * 86_400_000_000 by {
            if day_of(times[count - 1] as int) == day {
                if k == count - 1 {
                    assert(all[all.len() - 1] == k);
                } else {
                    assert(before.contains(k) <==> all.contains(k)) by {
                        if before.contains(k) {
                            let i = choose|i: int| 0 <= i < before.len() && before[i] == k;
                            assert(all[i] == k);
                        }
                        if all.contains(k) {
                            let i = choose|i: int| 0 <= i < all.len() && all[i] == k;
                            assert(before[i] == k);
                        }
                    }
                }
            }
        }
        assert forall|i: int, j: int| 0 <= i < j < all.len() implies all[i] < all[j] by {
            if j == before.len() {
                assert(before.contains(before[i]));
            }
        }
    }
}

/// Rows that are grouped by day each stand in the group of their day, and in no other.
pub proof fn a_grouping_loses_no_row(times: Seq<i64>, groups: Seq<DayRows>, k: int)
    requires
        is_grouping(times, groups),
        0 <= k < times.len(),
        times.len() <= usize::MAX,
    ensures
        exists|i: int|
            0 <= i < groups.len() && (#[trigger] groups[i]).rows@.contains(k as usize)
                && groups[i].day * 86_400_000_000 <= times[k] < (groups[i].day + 1)
                * 86_400_000_000,
{
    let day = day_of(times[k] as int);
    assert(crate::lineage::rows::has_group(groups, day));
    let i = choose|i: int| 0 <= i < groups.len() && (#[trigger] groups[i]).day == day;
    let ints = crate::lineage::select::as_ints(groups[i].rows@);
    a_moment_lies_on_its_day(times[k] as int);
    a_day_has_its_rows(times, day, times.len());
    assert(rows_on(times, day, times.len()).contains(k));
    let at = choose|at: int| 0 <= at < ints.len() && ints[at] == k;
    assert(groups[i].rows@[at] == k as usize);
}

/// A descendant carries a day unchanged exactly where it is of the family and nothing new touches
/// its date.
pub proof fn untouched_days_are_carried(
    days: Seq<DayInventoryEntry>,
    family: DayFamily,
    touched: Set<Seq<char>>,
    count: nat,
)
    requires
        count <= days.len(),
    ensures
        forall|k: int| #[trigger]
            carried_days(days, family, touched, count).contains(k) <==> 0 <= k < count
                && days[k].family == family && !touched.contains(days[k].date@),
    decreases count,
{
    if count > 0 {
        let before = carried_days(days, family, touched, (count - 1) as nat);
        untouched_days_are_carried(days, family, touched, (count - 1) as nat);
        let all = carried_days(days, family, touched, count);
        assert forall|k: int| #[trigger] all.contains(k) <==> 0 <= k < count && days[k].family
            == family && !touched.contains(days[k].date@) by {
            if all != before {
                if k == count - 1 {
                    assert(all[all.len() - 1] == k);
                }
                if before.contains(k) {
                    let i = choose|i: int| 0 <= i < before.len() && before[i] == k;
                    assert(all[i] == k);
                }
                if all.contains(k) && k != count - 1 {
                    let i = choose|i: int| 0 <= i < all.len() && all[i] == k;
                    assert(before[i] == k);
                }
            }
        }
    }
}

/// Each old row that stands for a new one has its time; old rows are met in order, each once, and
/// where none is lost every one of them stands for a new row.
pub proof fn an_old_row_keeps_its_time(
    new: Seq<Option<i64>>,
    old_rows: Seq<Option<i64>>,
    i: int,
    j: int,
)
    requires
        0 <= i < j < new.len(),
    ensures
        kept_row(new, old_rows, i) matches Some(at) ==> 0 <= at < old_rows.len() && old_rows[at]
            == new[i],
        kept_row(new, old_rows, i) matches Some(at) ==> (kept_row(new, old_rows, j) matches Some(
            later,
        ) ==> at < later),
{
    met_grows(new, old_rows, i as nat, (i + 1) as nat);
    met_grows(new, old_rows, (i + 1) as nat, j as nat);
}

proof fn met_grows(new: Seq<Option<i64>>, old_rows: Seq<Option<i64>>, low: nat, high: nat)
    requires
        low <= high,
    ensures
        met(new, old_rows, low) <= met(new, old_rows, high),
    decreases high,
{
    if low < high {
        met_grows(new, old_rows, low, (high - 1) as nat);
    }
}

/// Where all old rows are met, each of them stands for some new row.
pub proof fn no_old_row_is_lost(
    new: Seq<Option<i64>>,
    old_rows: Seq<Option<i64>>,
    count: nat,
    at: int,
) -> (i: int)
    requires
        count <= new.len(),
        0 <= at < met(new, old_rows, count),
    ensures
        0 <= i < count,
        kept_row(new, old_rows, i) == Some(at),
    decreases count,
{
    let before = met(new, old_rows, (count - 1) as nat);
    if at < before {
        no_old_row_is_lost(new, old_rows, (count - 1) as nat, at)
    } else {
        count - 1
    }
}

/// Nothing is claimed of an imported day that its source clipped. A day with rows is complete
/// exactly where its source says so and did not clip it, and a day without is known to be empty
/// exactly where besides the market was closed.
pub proof fn a_clipped_day_claims_nothing(metadata: DayMetadata, has_rows: bool)
    ensures
        claim_of(metadata, has_rows) is Complete <==> has_rows && metadata.complete
            && !metadata.clipped_by_retention && !metadata.clipped_by_now,
        claim_of(metadata, has_rows) is Clipped <==> has_rows && (metadata.clipped_by_retention
            || metadata.clipped_by_now),
        claim_of(metadata, has_rows) is EmptyKnown <==> !has_rows && metadata.complete
            && !metadata.clipped_by_retention && !metadata.clipped_by_now
            && metadata.market_closed,
        claim_of(metadata, has_rows) is Empty ==> !has_rows,
        claim_of(metadata, has_rows) is Unchanged ==> has_rows,
{
}

/// What metadata claim of a day with rows changes its state and nothing that was found of it.
pub proof fn a_claim_keeps_the_rows(
    after: DayInventoryEntry,
    before: DayInventoryEntry,
    metadata: DayMetadata,
    bounds: Range,
)
    requires
        takes_claim(after, before, metadata, bounds),
    ensures
        after.date == before.date && after.family == before.family && after.object
            == before.object,
        after.rows == before.rows && after.first_time == before.first_time && after.last_time
            == before.last_time,
        metadata.clipped_by_retention || metadata.clipped_by_now ==> after.state is Partial
            && after.unresolved@ == seq![bounds] && after.reason is Some,
        metadata.complete && !metadata.clipped_by_retention && !metadata.clipped_by_now
            ==> after.state is Complete && after.reason is None,
        !metadata.complete && !metadata.clipped_by_retention && !metadata.clipped_by_now ==> after
            == before,
{
}

/// A received response is kept as a diagnostic exactly where it was not indexed, by acquisition,
/// intent and number, and no later one that was not indexed is of its acquisition and number.
pub proof fn an_unindexed_response_is_kept(
    received: Seq<PageCoverage>,
    indexed: Seq<PageCoverage>,
    i: int,
)
    requires
        0 <= i < received.len(),
    ensures
        received_refusal(received[i]) is None <==> received[i].occurrence is Some
            && received[i].receipt_time is Some,
        is_diagnostic(received, indexed, i, received.len() as int) <==> !is_indexed(
            indexed,
            received[i].occurrence->0,
        ) && forall|j: int|
            i < j < received.len() && !is_indexed(
                indexed,
                (#[trigger] received[j]).occurrence->0,
            ) ==> !(received[i].occurrence->0.acquisition_id@
                == received[j].occurrence->0.acquisition_id@ && received[i].occurrence->0.ordinal
                == received[j].occurrence->0.ordinal),
        forall|identity: OccurrenceIdentity| #[trigger]
            is_indexed(indexed, identity) <==> exists|k: int|
                0 <= k < indexed.len() && ((#[trigger] indexed[k]).occurrence matches Some(known)
                    && known.acquisition_id@ == identity.acquisition_id@ && known.ordinal
                    == identity.ordinal && text_of(known.intent) == text_of(identity.intent)),
{
    assert forall|identity: OccurrenceIdentity| #[trigger]
        is_indexed(indexed, identity) implies exists|k: int|
        0 <= k < indexed.len() && ((#[trigger] indexed[k]).occurrence matches Some(known)
            && known.acquisition_id@ == identity.acquisition_id@ && known.ordinal
            == identity.ordinal && text_of(known.intent) == text_of(identity.intent)) by {
        let k = choose|k: int|
            0 <= k < indexed.len() && (#[trigger] indexed[k]).occurrence is Some
                && crate::lineage::rows::same_identity(indexed[k].occurrence->0, identity);
        let known = indexed[k].occurrence->0;
        assert(indexed[k].occurrence matches Some(known) && known.acquisition_id@
            == identity.acquisition_id@);
    }
}

/// The object of a day stands under its date, in the directory of its family.
pub proof fn a_day_stands_under_its_date(object: ObjectRecord, day: DayInventoryEntry)
    ensures
        is_day_object(object, day) <==> {
            &&& day.object matches Some(key) && key@ == object.key@
            &&& day.family is Observations ==> object.path@ == "observations/"@ + day.date@
                + ".parquet"@
            &&& day.family is Pages ==> object.path@ == "pages/"@ + day.date@ + ".parquet"@
        },
{
}

/// The evidence of an import claims all of a day that its source says is complete or empty, and
/// nothing of any other; what it does not verify it leaves unresolved, with a reason.
pub proof fn an_import_claims_only_whole_days(
    evidence: DayCoverage,
    day: DayInventoryEntry,
    bounds: Range,
    acquisition: Seq<char>,
    moment: int,
)
    requires
        is_import_evidence(evidence, day, bounds, acquisition),
        bounds.start <= moment < bounds.end,
    ensures
        evidence.date@ == day.date@ && evidence.family == day.family,
        evidence.acquisition_ids@.len() == 1 && evidence.acquisition_ids@[0]@ == acquisition,
        covers(evidence.verified@, moment) <==> day.state is Complete || day.state is EmptyKnown,
        covers(evidence.unresolved@, moment) <==> !covers(evidence.verified@, moment),
        evidence.reason is Some <==> !(day.state is Complete || day.state is EmptyKnown),
        day.state is Partial && day.reason is Some ==> evidence.reason->0@ == day.reason->0@,
{
    a_range_holds_its_start(bounds, moment);
    assert(views(evidence.acquisition_ids@)[0] == acquisition);
    assert(views(evidence.acquisition_ids@).len() == 1);
}

/// The evidence of a migration claims all of a complete or empty day, of a partial one all but its
/// gaps, and nothing of an unknown one; the rest is unresolved.
pub proof fn a_migration_claims_what_was_retained(
    evidence: DayCoverage,
    day: DayInventoryEntry,
    bounds: Range,
    acquisition: Seq<char>,
    moment: int,
)
    requires
        is_migration_evidence(evidence, day, bounds, acquisition),
        bounds.start <= moment < bounds.end,
    ensures
        evidence.date@ == day.date@ && evidence.family == day.family,
        evidence.acquisition_ids@.len() == 1 && evidence.acquisition_ids@[0]@ == acquisition,
        day.state is Complete || day.state is EmptyKnown ==> covers(evidence.verified@, moment),
        day.state is Unknown ==> !covers(evidence.verified@, moment),
        day.state is Partial ==> (covers(evidence.verified@, moment) <==> !covers(
            day.unresolved@,
            moment,
        )),
        covers(evidence.unresolved@, moment) <==> !covers(evidence.verified@, moment),
        evidence.reason is Some <==> evidence.unresolved@.len() > 0,
{
    a_range_holds_its_start(bounds, moment);
    assert(views(evidence.acquisition_ids@)[0] == acquisition);
    assert(views(evidence.acquisition_ids@).len() == 1);
}

/// The evidence of a descendant verifies of a day what was verified before, and of observations
/// what its acquisition verified besides; of pages nothing more. Everything else of the day is
/// unresolved, and the acquisition is named behind those before.
pub proof fn a_descendant_adds_what_it_acquired(
    evidence: DayCoverage,
    previous: Seq<DayCoverage>,
    day: DayInventoryEntry,
    bounds: Range,
    acquired: Seq<Range>,
    acquisition: Seq<char>,
    at: int,
    moment: int,
)
    requires
        is_descendant_evidence(evidence, previous, day, bounds, acquired, acquisition),
        0 <= at < previous.len(),
        previous[at].date@ == day.date@ && previous[at].family == day.family,
        forall|i: int|
            0 <= i < at ==> !((#[trigger] previous[i]).date@ == day.date@ && previous[i].family
                == day.family),
        bounds.start <= moment < bounds.end,
    ensures
        covers(evidence.verified@, moment) <==> covers(previous[at].verified@, moment) || (
        day.family is Observations && covers(acquired, moment)),
        covers(evidence.unresolved@, moment) <==> !covers(evidence.verified@, moment),
        evidence.reason is Some <==> evidence.unresolved@.len() > 0,
        views(evidence.acquisition_ids@) == views(previous[at].acquisition_ids@).push(acquisition),
        evidence.date@ == day.date@ && evidence.family == day.family,
{
    first_where_found(
        previous,
        |one: DayCoverage| one.date@ == day.date@ && one.family == day.family,
        at,
    );
}

/// A day without earlier evidence is verified by what was acquired alone.
pub proof fn a_new_day_is_verified_by_its_acquisition(
    evidence: DayCoverage,
    previous: Seq<DayCoverage>,
    day: DayInventoryEntry,
    bounds: Range,
    acquired: Seq<Range>,
    acquisition: Seq<char>,
    moment: int,
)
    requires
        is_descendant_evidence(evidence, previous, day, bounds, acquired, acquisition),
        forall|i: int|
            0 <= i < previous.len() ==> !((#[trigger] previous[i]).date@ == day.date@
                && previous[i].family == day.family),
        bounds.start <= moment < bounds.end,
    ensures
        covers(evidence.verified@, moment) <==> day.family is Observations && covers(
            acquired,
            moment,
        ),
        views(evidence.acquisition_ids@) == seq![acquisition],
{
    crate::search::first_where_absent(
        previous,
        |one: DayCoverage| one.date@ == day.date@ && one.family == day.family,
    );
    assert(Seq::<Seq<char>>::empty().push(acquisition) =~= seq![acquisition]);
}

/// A settled day is in the state of its evidence, with its reason and gaps, keeps what was found
/// of its rows, and keeps its object unless it is known to be empty.
pub proof fn a_settled_day_keeps_its_rows(
    after: DayInventoryEntry,
    before: DayInventoryEntry,
    evidence: DayCoverage,
    state: DayState,
)
    requires
        is_settled(after, before, evidence, state),
    ensures
        after.date@ == before.date@ && after.family == before.family,
        after.rows == before.rows && after.first_time == before.first_time && after.last_time
            == before.last_time,
        after.state == state,
        after.unresolved@ == evidence.unresolved@,
        after.reason is Some <==> evidence.reason is Some,
        after.reason matches Some(reason) ==> reason@ == evidence.reason->0@,
        state is EmptyKnown ==> after.object is None,
        !(state is EmptyKnown) ==> after.object == before.object,
{
}

/// An object is dropped exactly where it is that of a day that is known to be empty.
pub proof fn only_objects_of_empty_days_are_dropped(
    days: Seq<DayInventoryEntry>,
    states: Seq<DayState>,
    objects: Seq<ObjectRecord>,
    object: ObjectRecord,
)
    requires
        states.len() == days.len(),
        objects.contains(object),
    ensures
        objects.filter(stays(days, states)).contains(object) <==> forall|i: int|
            0 <= i < days.len() && (#[trigger] states[i]) is EmptyKnown ==> !(
            days[i].object matches Some(key) && key@ == object.key@),
{
    let wanted = stays(days, states);
    let k = choose|k: int| 0 <= k < objects.len() && objects[k] == object;
    let kept = objects.filter(wanted);
    if wanted(object) {
        objects.lemma_filter_contains(wanted, k);
    }
    if kept.contains(object) {
        let at = choose|at: int| 0 <= at < kept.len() && kept[at] == object;
        objects.lemma_filter_pred(wanted, at);
    }
    assert(wanted(object) <==> forall|i: int|
        0 <= i < days.len() && (#[trigger] states[i]) is EmptyKnown ==> !(
        days[i].object matches Some(key) && key@ == object.key@)) by {
        if wanted(object) {
            assert forall|i: int|
                0 <= i < days.len() && (#[trigger] states[i]) is EmptyKnown implies !(
            days[i].object matches Some(key) && key@ == object.key@) by {}
        } else {
            let i = choose|i: int|
                0 <= i < days.len() && (#[trigger] states[i]) is EmptyKnown && text_of(
                    days[i].object,
                ) == Some(object.key@);
            assert(states[i] is EmptyKnown);
        }
    }
}

/// The claim of an acquired history asks for its range, verifies its verified range, leaves the
/// rest unresolved, and names its shortfalls, the tail's last.
pub proof fn a_history_claim_accounts_for_its_range(
    claim: AcquisitionCoverage,
    id: Seq<char>,
    coverage: HistoryCoverage,
    moment: int,
)
    requires
        is_history_claim(claim, id, coverage),
    ensures
        claim.acquisition_id@ == id,
        claim.source_identity@ == coverage.source_identity@,
        covers(claim.requested@, moment) <==> coverage.requested.start <= moment
            < coverage.requested.end,
        covers(claim.verified@, moment) <==> (coverage.verified matches Some(range) && range.start
            <= moment < range.end),
        covers(claim.unresolved@, moment) <==> covers(claim.requested@, moment) && !covers(
            claim.verified@,
            moment,
        ),
        claim.shortfalls@.len() == (if coverage.shortfall is Some { 1int } else { 0 }) + (if
            coverage.tail_shortfall is Some { 1int } else { 0 }),
        coverage.shortfall matches Some(first) ==> claim.shortfalls@[0].reason@ == first.reason@
            && claim.shortfalls@[0].unresolved == first.unresolved,
        coverage.tail_shortfall matches Some(tail) ==> claim.shortfalls@.last().reason@
            == tail.reason@ && claim.shortfalls@.last().unresolved == tail.unresolved,
{
    a_range_holds_its_start(coverage.requested, moment);
    if let Some(range) = coverage.verified {
        a_range_holds_its_start(range, moment);
    }
    let said = crate::lineage::days::shortfall_views(claim.shortfalls@);
    assert(said.len() == claim.shortfalls@.len());
    if coverage.shortfall is Some {
        assert(said[0] == (claim.shortfalls@[0].reason@, claim.shortfalls@[0].unresolved));
    }
    if coverage.tail_shortfall is Some {
        assert(said.last() == (
            claim.shortfalls@.last().reason@,
            claim.shortfalls@.last().unresolved,
        ));
    }
}

/// Two claims agree exactly where acquisition, source, requested, verified and unresolved ranges
/// and shortfalls are the same.
pub proof fn agreeing_claims_say_the_same(a: AcquisitionCoverage, b: AcquisitionCoverage)
    requires
        claims_agree(a, b),
    ensures
        a.acquisition_id@ == b.acquisition_id@,
        a.source_identity@ == b.source_identity@,
        a.requested@ == b.requested@,
        a.verified@ == b.verified@,
        a.unresolved@ == b.unresolved@,
        a.shortfalls@.len() == b.shortfalls@.len(),
        forall|i: int|
            0 <= i < a.shortfalls@.len() ==> (#[trigger] a.shortfalls@[i]).reason@
                == b.shortfalls@[i].reason@ && a.shortfalls@[i].unresolved
                == b.shortfalls@[i].unresolved,
{
    let one = crate::lineage::days::shortfall_views(a.shortfalls@);
    let other = crate::lineage::days::shortfall_views(b.shortfalls@);
    assert(one.len() == a.shortfalls@.len() && other.len() == b.shortfalls@.len());
    assert forall|i: int| 0 <= i < a.shortfalls@.len() implies (
    #[trigger] a.shortfalls@[i]).reason@ == b.shortfalls@[i].reason@ && a.shortfalls@[i].unresolved
        == b.shortfalls@[i].unresolved by {
        assert(one[i] == (a.shortfalls@[i].reason@, a.shortfalls@[i].unresolved));
        assert(other[i] == (b.shortfalls@[i].reason@, b.shortfalls@[i].unresolved));
    }
}

/// A lineage is continued exactly from a claim of one requested and at most one verified range.
pub proof fn a_continuation_has_one_range(
    claims: Seq<AcquisitionCoverage>,
    id: Seq<char>,
    at: int,
)
    requires
        0 <= at < claims.len(),
        claims[at].acquisition_id@ == id,
        forall|i: int| 0 <= i < at ==> (#[trigger] claims[i]).acquisition_id@ != id,
    ensures
        continuation_refusal(claims, Some(id)) is None <==> claims[at].requested@.len() == 1
            && claims[at].verified@.len() <= 1,
        continuation_refusal(claims, None) is Some,
{
    let wanted = crate::lineage::days::is_claim_of(id);
    assert forall|i: int| 0 <= i < at implies !wanted(#[trigger] claims[i]) by {}
    first_where_found(claims, wanted, at);
}

/// A claim about all observations asks for the bounds of each observed day, and verifies exactly
/// what the evidence of each verifies.
pub proof fn a_total_claim_sums_up_observations(
    claim: AcquisitionCoverage,
    days: Seq<DayInventoryEntry>,
    bounds: Seq<Range>,
    evidence: Seq<DayCoverage>,
    moment: int,
)
    requires
        sums_up(claim, days, bounds, evidence),
        bounds.len() == days.len(),
        evidence.len() == days.len(),
    ensures
        covers(claim.requested@, moment) <==> exists|i: int|
            0 <= i < days.len() && (#[trigger] days[i]).family is Observations
                && bounds[i].start <= moment < bounds[i].end,
        covers(claim.verified@, moment) <==> exists|i: int|
            0 <= i < days.len() && (#[trigger] days[i]).family is Observations && covers(
                evidence[i].verified@,
                moment,
            ),
        covers(claim.unresolved@, moment) <==> covers(claim.requested@, moment) && !covers(
            claim.verified@,
            moment,
        ),
{
    observed_ranges(days, bounds, days.len(), moment);
    verified_ranges(days, evidence, days.len(), moment);
}

proof fn observed_ranges(
    days: Seq<DayInventoryEntry>,
    bounds: Seq<Range>,
    count: nat,
    moment: int,
)
    requires
        count <= days.len(),
        bounds.len() == days.len(),
    ensures
        covers(observed_bounds(days, bounds, count), moment) <==> exists|i: int|
            0 <= i < count && (#[trigger] days[i]).family is Observations && bounds[i].start
                <= moment < bounds[i].end,
    decreases count,
{
    if count > 0 {
        let before = observed_bounds(days, bounds, (count - 1) as nat);
        observed_ranges(days, bounds, (count - 1) as nat, moment);
        let all = observed_bounds(days, bounds, count);
        if covers(all, moment) {
            let k = choose|k: int| 0 <= k < all.len() && (#[trigger] all[k]).has(moment);
            if k < before.len() {
                assert(before[k].has(moment));
            } else {
                assert(days[count - 1].family is Observations);
            }
        }
        if exists|i: int|
            0 <= i < count && (#[trigger] days[i]).family is Observations && bounds[i].start
                <= moment < bounds[i].end {
            let i = choose|i: int|
                0 <= i < count && (#[trigger] days[i]).family is Observations && bounds[i].start
                    <= moment < bounds[i].end;
            if i < count - 1 {
                let k = choose|k: int| 0 <= k < before.len() && (#[trigger] before[k]).has(moment);
                assert(all[k].has(moment));
            } else {
                assert(all[all.len() - 1].has(moment));
            }
        }
    }
}

proof fn verified_ranges(
    days: Seq<DayInventoryEntry>,
    evidence: Seq<DayCoverage>,
    count: nat,
    moment: int,
)
    requires
        count <= days.len(),
        evidence.len() == days.len(),
    ensures
        covers(observed_verified(days, evidence, count), moment) <==> exists|i: int|
            0 <= i < count && (#[trigger] days[i]).family is Observations && covers(
                evidence[i].verified@,
                moment,
            ),
    decreases count,
{
    if count > 0 {
        let before = observed_verified(days, evidence, (count - 1) as nat);
        verified_ranges(days, evidence, (count - 1) as nat, moment);
        let all = observed_verified(days, evidence, count);
        let own = evidence[count - 1].verified@;
        if covers(all, moment) {
            let k = choose|k: int| 0 <= k < all.len() && (#[trigger] all[k]).has(moment);
            if k < before.len() {
                assert(before[k].has(moment));
            } else {
                assert(own[k - before.len()].has(moment));
                assert(days[count - 1].family is Observations);
            }
        }
        if exists|i: int|
            0 <= i < count && (#[trigger] days[i]).family is Observations && covers(
                evidence[i].verified@,
                moment,
            ) {
            let i = choose|i: int|
                0 <= i < count && (#[trigger] days[i]).family is Observations && covers(
                    evidence[i].verified@,
                    moment,
                );
            if i < count - 1 {
                let k = choose|k: int| 0 <= k < before.len() && (#[trigger] before[k]).has(moment);
                assert(all[k].has(moment));
            } else {
                let k = choose|k: int| 0 <= k < own.len() && (#[trigger] own[k]).has(moment);
                assert(all[before.len() + k].has(moment));
            }
        }
    }
}

/// Days come observations first, each family by date.
pub proof fn days_come_by_family_and_date(a: DayInventoryEntry, b: DayInventoryEntry)
    ensures
        a.family is Observations && b.family is Pages ==> day_before(a, b),
        a.family is Pages && b.family is Observations ==> !day_before(a, b),
        a.family == b.family ==> (day_before(a, b) <==> text_before(a.date@, b.date@)),
{
}

/// A day that is known to be empty has neither rows, times, object nor gaps.
pub proof fn an_empty_day_has_nothing(day: DayInventoryEntry, date: Seq<char>)
    requires
        is_known_empty(day, date),
    ensures
        day.date@ == date && day.family is Observations && day.state is EmptyKnown,
        day.rows == 0 && day.first_time is None && day.last_time is None && day.object is None,
        day.reason is None && day.unresolved@.len() == 0,
{
}

/// What an import keeps of an object: the instrument's entry of a collection that has one, the
/// framing of logs that are kept as pages, nothing of markers and of empty tables of gaps, and
/// otherwise the bytes.
pub proof fn provenance_is_kept_unless_it_says_nothing(
    path: Seq<char>,
    has_entry: bool,
    rows: u64,
)
    ensures
        ({
            let entry = has_entry && begins_with(path, "collection/"@) && finishes_with(
                path,
                ".json"@,
            );
            let log = path == "raw_pages.ndjson"@ || path == "checkpoint.ndjson"@;
            let marker = finishes_with(path, "_SUCCESS"@) || finishes_with(
                path,
                ".conversion.lock"@,
            ) || (finishes_with(path, "gaps.parquet"@) && rows == 0);
            &&& provenance_of(path, has_entry, rows) is InstrumentEntry <==> entry
            &&& provenance_of(path, has_entry, rows) is Framed <==> !entry && log
            &&& provenance_of(path, has_entry, rows) is Marker <==> !entry && !log && marker
            &&& provenance_of(path, has_entry, rows) is Verbatim <==> !entry && !log && !marker
        }),
{
}

/// The last place of a character holds it, and nothing behind it does.
pub proof fn the_last_place_is_last(text: Seq<char>, c: char)
    ensures
        last_at(text, c) matches Some(at) ==> {
            &&& 0 <= at < text.len() && text[at] == c
            &&& forall|i: int| at < i < text.len() ==> #[trigger] text[i] != c
        },
        last_at(text, c) is None ==> forall|i: int| 0 <= i < text.len() ==> #[trigger] text[i] != c,
    decreases text.len(),
{
    if text.len() > 0 && text.last() != c {
        let rest = text.drop_last();
        the_last_place_is_last(rest, c);
        match last_at(rest, c) {
            Some(at) => {
                assert forall|i: int| at < i < text.len() implies #[trigger] text[i] != c by {
                    if i < rest.len() {
                        assert(rest[i] != c);
                    }
                }
            },
            None => {
                assert forall|i: int| 0 <= i < text.len() implies #[trigger] text[i] != c by {
                    if i < rest.len() {
                        assert(rest[i] != c);
                    }
                }
            },
        }
    }
}

/// The date of an imported day stands between the last two underscores of its path.
pub proof fn a_path_ends_with_its_date(before: Seq<char>, date: Seq<char>, after: Seq<char>)
    requires
        !date.contains('_'),
        !after.contains('_'),
    ensures
        path_date(before + seq!['_'] + date + seq!['_'] + after) == Some(date),
{
    let path = before + seq!['_'] + date + seq!['_'] + after;
    let start = before.len() as int;
    let end = start + 1 + date.len();
    the_last_place_is_last(path, '_');
    assert(path[end] == '_');
    assert forall|i: int| end < i < path.len() implies path[i] != '_' by {
        assert(path[i] == after[i - end - 1]);
    }
    assert(last_at(path, '_') == Some(end));
    let head = path.take(end);
    the_last_place_is_last(head, '_');
    assert(head[start] == '_');
    assert forall|i: int| start < i < head.len() implies head[i] != '_' by {
        assert(head[i] == date[i - start - 1]);
    }
    assert(last_at(head, '_') == Some(start));
    assert(path.subrange(start + 1, end) =~= date);
}

/// The bytes of a page are its payload, or its checkpoint where that is asked for, of the page
/// with this acquisition and number.
pub proof fn a_page_is_found_by_its_request(
    pages: Seq<EncodedPage>,
    acquisition: Seq<char>,
    ordinal: u64,
    checkpoint: bool,
    at: int,
)
    requires
        0 <= at < pages.len(),
        pages[at].acquisition_id@ == acquisition && pages[at].ordinal == ordinal,
        forall|i: int|
            0 <= i < at ==> !((#[trigger] pages[i]).acquisition_id@ == acquisition
                && pages[i].ordinal == ordinal),
    ensures
        !checkpoint ==> page_bytes(pages, acquisition, Some(ordinal), checkpoint) == Ok::<
            Seq<u8>,
            Seq<char>,
        >(pages[at].payload@),
        checkpoint && pages[at].checkpoint is Some ==> page_bytes(
            pages,
            acquisition,
            Some(ordinal),
            checkpoint,
        ) == Ok::<Seq<u8>, Seq<char>>(pages[at].checkpoint->0@),
        checkpoint && pages[at].checkpoint is None ==> page_bytes(
            pages,
            acquisition,
            Some(ordinal),
            checkpoint,
        ) is Err,
        page_bytes(pages, acquisition, None, checkpoint) is Err,
{
    let wanted = is_page(acquisition, ordinal);
    assert forall|i: int| 0 <= i < at implies !wanted(#[trigger] pages[i]) by {}
    first_where_found(pages, wanted, at);
}

/// Joining the pages of a day keeps the new ones first and as they are, adds every existing one
/// whose request is not among them, and never changes what an occurrence holds: an existing page
/// whose request is there with other contents is a collision.
pub proof fn joining_pages_never_changes_one(
    new: Seq<Occurrence>,
    existing: Seq<Occurrence>,
    count: nat,
)
    requires
        count <= existing.len(),
    ensures
        joined_pages(new, existing, count) matches Ok(all) ==> {
            &&& all.len() >= new.len() && all.take(new.len() as int) == new
            &&& forall|k: int|
                0 <= k < count ==> exists|i: int|
                    #![trigger all[i]]
                    0 <= i < all.len() && all[i].acquisition_id@ == (
                    #[trigger] existing[k]).acquisition_id@ && all[i].ordinal
                        == existing[k].ordinal && all[i].contents@ == existing[k].contents@
            &&& forall|i: int|
                new.len() <= i < all.len() ==> existing.contains(#[trigger] all[i])
        },
    decreases count,
{
    if count > 0 {
        joining_pages_never_changes_one(new, existing, (count - 1) as nat);
        if let Ok(before) = joined_pages(new, existing, (count - 1) as nat) {
            let page = existing[count - 1];
            first_where_meets(before, |other: Occurrence| same_occurrence(other, page));
            if let Ok(all) = joined_pages(new, existing, count) {
                assert forall|k: int| 0 <= k < count implies exists|i: int|
                    #![trigger all[i]]
                    0 <= i < all.len() && all[i].acquisition_id@ == (
                    #[trigger] existing[k]).acquisition_id@ && all[i].ordinal
                        == existing[k].ordinal && all[i].contents@ == existing[k].contents@ by {
                    if k < count - 1 {
                        let i = choose|i: int|
                            #![trigger before[i]]
                            0 <= i < before.len() && before[i].acquisition_id@
                                == existing[k].acquisition_id@ && before[i].ordinal
                                == existing[k].ordinal && before[i].contents@
                                == existing[k].contents@;
                        assert(all[i] == before[i]);
                    } else {
                        match occurrence_at(before, page) {
                            Some(at) => {
                                assert(all[at] == before[at]);
                            },
                            None => {
                                assert(all[before.len() as int] == page);
                            },
                        }
                    }
                }
                assert(all.take(new.len() as int) =~= before.take(new.len() as int));
                assert forall|i: int| new.len() <= i < all.len() implies existing.contains(
                    #[trigger] all[i],
                ) by {
                    if i < before.len() {
                        assert(all[i] == before[i]);
                    } else {
                        assert(existing[count - 1] == all[i]);
                    }
                }
            }
        }
    }
}

/// A page of an older snapshot is retained exactly where a page of the same acquisition, number
/// and payload is there.
pub proof fn a_page_is_retained_by_its_payload(page: Occurrence, pages: Seq<Occurrence>)
    ensures
        is_retained(page, pages) <==> exists|i: int|
            0 <= i < pages.len() && (#[trigger] pages[i]).acquisition_id@ == page.acquisition_id@
                && pages[i].ordinal == page.ordinal && pages[i].payload_sha256@
                == page.payload_sha256@,
{
    if exists|i: int|
        0 <= i < pages.len() && (#[trigger] pages[i]).acquisition_id@ == page.acquisition_id@
            && pages[i].ordinal == page.ordinal && pages[i].payload_sha256@
            == page.payload_sha256@ {
        let i = choose|i: int|
            0 <= i < pages.len() && (#[trigger] pages[i]).acquisition_id@ == page.acquisition_id@
                && pages[i].ordinal == page.ordinal && pages[i].payload_sha256@
                == page.payload_sha256@;
        assert(same_occurrence(pages[i], page));
    }
}

/// The extent of times holds them all and reaches no further.
pub proof fn an_extent_is_tight(times: Seq<i64>, first: Option<i64>, last: Option<i64>, i: int)
    requires
        is_extent(times, first, last),
        0 <= i < times.len(),
    ensures
        first matches Some(first) && first <= times[i] && times.contains(first),
        last matches Some(last) && times[i] <= last && times.contains(last),
{
}

/// A zone of two digits each is read by its hours and minutes.
pub proof fn a_zone_is_hours_and_minutes(value: Seq<char>, hours: nat, minutes: nat)
    requires
        value.len() >= 6,
        forall|i: int| 0 <= i < value.len() ==> #[trigger] value[i] as u32 <= 127,
        value[value.len() - 6] == '+' || value[value.len() - 6] == '-',
        value[value.len() - 3] == ':',
        value[value.len() - 5] == crate::text::digit((hours / 10) as int),
        value[value.len() - 4] == crate::text::digit((hours % 10) as int),
        value[value.len() - 2] == crate::text::digit((minutes / 10) as int),
        value[value.len() - 1] == crate::text::digit((minutes % 10) as int),
        hours < 100 && minutes < 100,
    ensures
        has_zone(value),
        zone_parts(value) == (Some(hours as int), Some(minutes as int)),
        zone_refusal(value) is None <==> hours <= 23 && minutes <= 59,
{
    assert forall|d: int| 0 <= d < 10 implies crate::text::is_digit(
        #[trigger] crate::text::digit(d),
    ) && crate::text::digit_value(crate::text::digit(d)) == d by {}
    let h = (hours / 10) as int;
    let m = (minutes / 10) as int;
    assert(0 <= h < 10 && 0 <= m < 10);
    assert(crate::text::digit_value(crate::text::digit(h)) == h);
    assert(crate::text::digit_value(crate::text::digit((hours % 10) as int)) == hours % 10);
    assert(crate::text::digit_value(crate::text::digit(m)) == m);
    assert(crate::text::digit_value(crate::text::digit((minutes % 10) as int)) == minutes % 10);
}

} // verus!
