//! What holds of the generation that an acquisition extends, of the range that it asks for, and of
//! the pages that it retains and carries.

use crate::dataset::{ObjectRecord, ObjectRole};
use crate::fetch::acquire::Baseline;
use crate::fetch::bounds::{candidates_of, declared_generations, Bounds, Native, Population};
use crate::fetch::coverage::{
    receipt_of, HistoryCoverage, OccurrenceIdentity, PageCoverage, PageReceipt, PassLimit,
    Progress, Range, Requested, BUDGET_SHORTFALL, COVERAGE_PATH,
};
use crate::fetch::plan::{
    outranks, prior_of, range_of, range_refusal, RangeRefusal, Retained, Wanted,
};
use crate::fetch::progress::{
    is_response, owed_at_start, owed_on_page, owed_on_rejection, owed_on_response, Telling,
};
use crate::fetch::publish::{
    bundle_refusal, bundled, carried_from, covers_subject, is_bundle_object, limit_reached,
    page_renamed, placed, renamed, CoverageSubject,
};
use crate::fetch::rows::{daily_refusal, page_total};
use crate::lineage::json::object_key_of;
use crate::lineage::days::DayInventoryEntry;
use crate::market::{Bar, DatasetRole, NativeGranularity};
use crate::text::views;
use vstd::prelude::*;

verus! {

/// A retained generation can be extended exactly where it is broker history of the wanted
/// instrument, role and granularity, other than the seed, collected under the wanted source and
/// from the wanted seed. It is an error where such history is at another price representation, or
/// where the coverage of such a generation is not that of its manifest and of the instrument.
pub proof fn a_candidate_is_the_wanted_history(retained: Retained, wanted: Wanted)
    ensures
        ({
            let manifest = retained.manifest;
            let coverage = retained.coverage;
            let is_seed = wanted.seed_generation matches Some(seed) && seed@
                == manifest.generation@;
            let history = !is_seed && manifest.source_kind is BrokerHistory && manifest.instrument@
                == wanted.instrument@ && manifest.role == wanted.role
                && manifest.native_granularity == wanted.native_granularity;
            let of_lineage = coverage.source_identity@ == wanted.source_identity@ && (
            match coverage.seed {
                Some(seed) => wanted.seed_generation matches Some(wanted) && wanted@
                    == seed.generation@,
                None => wanted.seed_generation is None,
            });
            let identified = coverage.schema_version == 1 && coverage.broker@ == wanted.broker@
                && coverage.provider_symbol@ == wanted.provider_symbol@ && coverage.role
                == wanted.role && coverage.rows == manifest.row_count;
            &&& retained.is_candidate(wanted) <==> history && of_lineage
            &&& retained.prior_refusal(wanted) is None <==> (history
                ==> manifest.price_representation == wanted.price_representation && (of_lineage
                ==> identified))
        }),
{
}

/// What decides between candidates, in turn: a daily layout, a later verified end, an earlier
/// verified start, an acquisition that was not cut short by its budget, more pages, more rows in
/// the page inventory.
pub proof fn a_wider_candidate_outranks(a: Retained, b: Retained)
    requires
        a.coverage.pages@.len() <= usize::MAX,
        b.coverage.pages@.len() <= usize::MAX,
    ensures
        ({
            let end_a = if a.coverage.verified is Some { a.coverage.verified->0.end } else { i64::MIN };
            let end_b = if b.coverage.verified is Some { b.coverage.verified->0.end } else { i64::MIN };
            let start_a = if a.coverage.verified is Some { a.coverage.verified->0.start } else { i64::MAX };
            let start_b = if b.coverage.verified is Some { b.coverage.verified->0.start } else { i64::MAX };
            let cut_a = a.coverage.shortfall matches Some(cut) && cut.reason@ == BUDGET_SHORTFALL@;
            let cut_b = b.coverage.shortfall matches Some(cut) && cut.reason@ == BUDGET_SHORTFALL@;
            let same_layout = a.manifest.layout is Some <==> b.manifest.layout is Some;
            &&& a.manifest.layout is Some && b.manifest.layout is None ==> outranks(
                a.rank(),
                b.rank(),
            )
            &&& same_layout && end_a > end_b ==> outranks(a.rank(), b.rank())
            &&& same_layout && end_a == end_b && start_a < start_b ==> outranks(
                a.rank(),
                b.rank(),
            )
            &&& same_layout && end_a == end_b && start_a == start_b && !cut_a && cut_b ==> outranks(
                a.rank(),
                b.rank(),
            )
            &&& same_layout && end_a == end_b && start_a == start_b && cut_a == cut_b
                && a.coverage.pages@.len() > b.coverage.pages@.len() ==> outranks(
                a.rank(),
                b.rank(),
            )
            &&& same_layout && end_a == end_b && start_a == start_b && cut_a == cut_b
                && a.coverage.pages@.len() == b.coverage.pages@.len() ==> (outranks(
                a.rank(),
                b.rank(),
            ) <==> a.page_rows > b.page_rows)
        }),
{
}

/// Where nothing retained is in error, the first candidate that no other outranks is extended: it
/// outranks every candidate before it. Where something is in error, nothing is extended.
pub proof fn the_first_widest_candidate_is_extended(
    retained: Seq<Retained>,
    wanted: Wanted,
    count: nat,
)
    requires
        count <= retained.len(),
    ensures
        prior_of(retained, wanted, count) is Err <==> exists|i: int|
            0 <= i < count && (#[trigger] retained[i]).prior_refusal(wanted) is Some,
        prior_of(retained, wanted, count) matches Ok(Some(at)) ==> {
            &&& 0 <= at < count
            &&& retained[at].is_candidate(wanted)
            &&& forall|i: int|
                0 <= i < at && (#[trigger] retained[i]).is_candidate(wanted) ==> outranks(
                    retained[at].rank(),
                    retained[i].rank(),
                )
            &&& forall|i: int|
                at < i < count && (#[trigger] retained[i]).is_candidate(wanted) ==> !outranks(
                    retained[i].rank(),
                    retained[at].rank(),
                )
        },
        prior_of(retained, wanted, count) matches Ok(None) ==> forall|i: int|
            0 <= i < count ==> !(#[trigger] retained[i]).is_candidate(wanted),
    decreases count,
{
    if count > 0 {
        let before = (count - 1) as nat;
        the_first_widest_candidate_is_extended(retained, wanted, before);
        let next = retained[count - 1];
        if let Ok(best) = prior_of(retained, wanted, before) {
            if next.prior_refusal(wanted) is None && next.is_candidate(wanted) {
                if let Some(at) = best {
                    assert forall|i: int|
                        0 <= i < count - 1 && (#[trigger] retained[i]).is_candidate(wanted)
                            && outranks(next.rank(), retained[at].rank()) implies outranks(
                        next.rank(),
                        retained[i].rank(),
                    ) by {
                        crate::fetch::plan::ranking_is_a_strict_order(
                            next.rank(),
                            retained[at].rank(),
                            retained[i].rank(),
                        );
                        crate::fetch::plan::ranking_is_a_strict_order(
                            retained[i].rank(),
                            retained[at].rank(),
                            next.rank(),
                        );
                    }
                }
            }
        } else {
            let i = choose|i: int|
                0 <= i < before && (#[trigger] retained[i]).prior_refusal(wanted) is Some;
            assert(retained[i].prior_refusal(wanted) is Some);
        }
    }
}

/// The range of a pass: that of a pending intent as it is, an explicit one as it is, and for an
/// advance from the end of what is retained less the overlap, or from the start of the history
/// where nothing is, never before that start, to the cutoff.
pub proof fn a_pass_asks_for_what_is_missing(
    resume: Option<Range>,
    requested: Requested,
    history_start: i64,
    granularity: NativeGranularity,
    overlap_seconds: Option<u32>,
    baseline: Option<&Baseline>,
)
    ensures
        ({
            let range = range_of(
                resume,
                requested,
                history_start as int,
                granularity,
                overlap_seconds,
                baseline,
            );
            let overlap = match overlap_seconds {
                Some(seconds) => seconds * 1_000_000,
                None => 0,
            };
            let period = match granularity {
                NativeGranularity::Tick => 0int,
                NativeGranularity::Bar { period_seconds } => period_seconds * 1_000_000,
            };
            &&& resume matches Some(pending) ==> range == pending
            &&& resume is None ==> (requested matches Requested::Explicit { start, end }
                ==> range.start == start && range.end == end)
            &&& resume is None ==> (requested matches Requested::Advance { cutoff } ==> {
                &&& range.end == cutoff
                &&& range.start >= history_start
                &&& baseline is None ==> range.start == history_start
                &&& baseline matches Some(prior) ==> (prior.last_time + period <= i64::MAX ==> (
                range.start == (if prior.last_time + period - overlap > history_start {
                    prior.last_time + period - overlap
                } else {
                    history_start as int
                })))
            })
        }),
{
}

/// A range is refused exactly where it is empty, or where it or the declared start would cut off
/// rows of a seeded lineage.
pub proof fn a_range_is_refused_where_it_narrows_or_is_empty(
    range: Range,
    history_start: i64,
    granularity: NativeGranularity,
    baseline: Option<&Baseline>,
)
    ensures
        ({
            let period = match granularity {
                NativeGranularity::Tick => 0int,
                NativeGranularity::Bar { period_seconds } => period_seconds * 1_000_000,
            };
            let narrows = baseline matches Some(prior) && prior.seed is Some && (history_start
                > prior.first_time || range.end < (if prior.last_time + period > i64::MAX {
                i64::MAX as int
            } else {
                prior.last_time + period
            }));
            let refused = range_refusal(range, history_start, granularity, baseline);
            &&& refused is None <==> !narrows && range.start < range.end
            &&& (refused matches Some(RangeRefusal::Narrows { .. })) <==> narrows
        }),
{
}

/// The generations that may be extended: the pinned one alone; else those that the declaration
/// gives the instrument in the role, and no others; else all that are mirrored.
pub proof fn candidates_are_pinned_declared_or_mirrored(
    pinned: Option<Seq<char>>,
    populations: Vec<Population>,
    mirrored: Seq<String>,
    role: DatasetRole,
    instrument: Seq<char>,
    generation: Seq<char>,
)
    ensures
        pinned matches Some(only) ==> forall|declaration: Option<Vec<Population>>| #[trigger]
            candidates_of(pinned, declaration, mirrored, role, instrument) == seq![only],
        candidates_of(None, None, mirrored, role, instrument).len() == mirrored.len(),
        forall|i: int|
            0 <= i < mirrored.len() ==> #[trigger] candidates_of(
                None,
                None,
                mirrored,
                role,
                instrument,
            )[i] == mirrored[i]@,
        candidates_of(None, Some(populations), mirrored, role, instrument).contains(generation)
            <==> exists|i: int, j: int|
            #![trigger populations@[i].generations@[j]]
            0 <= i < populations@.len() && 0 <= j < populations@[i].generations@.len()
                && populations@[i].role == role && populations@[i].instrument@ == instrument
                && populations@[i].generations@[j]@ == generation,
{
    declared_are_of_the_role(populations@, role, instrument, generation);
}

proof fn declared_are_of_the_role(
    populations: Seq<Population>,
    role: DatasetRole,
    instrument: Seq<char>,
    generation: Seq<char>,
)
    ensures
        declared_generations(populations, role, instrument).contains(generation) <==> exists|
            i: int,
            j: int,
        |
            #![trigger populations[i].generations@[j]]
            0 <= i < populations.len() && 0 <= j < populations[i].generations@.len()
                && populations[i].role == role && populations[i].instrument@ == instrument
                && populations[i].generations@[j]@ == generation,
    decreases populations.len(),
{
    if populations.len() > 0 {
        let rest = populations.drop_last();
        let last = populations.last();
        declared_are_of_the_role(rest, role, instrument, generation);
        let before = declared_generations(rest, role, instrument);
        let all = declared_generations(populations, role, instrument);
        let own = views(last.generations@);
        if all.contains(generation) {
            let k = choose|k: int| 0 <= k < all.len() && all[k] == generation;
            if k < before.len() {
                assert(before[k] == generation);
                let (i, j) = choose|i: int, j: int|
                    #![trigger rest[i].generations@[j]]
                    0 <= i < rest.len() && 0 <= j < rest[i].generations@.len() && rest[i].role
                        == role && rest[i].instrument@ == instrument
                        && rest[i].generations@[j]@ == generation;
                assert(populations[i].generations@[j]@ == generation);
            } else {
                assert(own[k - before.len()] == generation);
                assert(populations[populations.len() - 1].generations@[k - before.len()]@
                    == generation);
            }
        }
        if exists|i: int, j: int|
            #![trigger populations[i].generations@[j]]
            0 <= i < populations.len() && 0 <= j < populations[i].generations@.len()
                && populations[i].role == role && populations[i].instrument@ == instrument
                && populations[i].generations@[j]@ == generation {
            let (i, j) = choose|i: int, j: int|
                #![trigger populations[i].generations@[j]]
                0 <= i < populations.len() && 0 <= j < populations[i].generations@.len()
                    && populations[i].role == role && populations[i].instrument@ == instrument
                    && populations[i].generations@[j]@ == generation;
            if i < rest.len() {
                assert(rest[i].generations@[j]@ == generation);
                let k = choose|k: int| 0 <= k < before.len() && before[k] == generation;
                assert(all[k] == generation);
            } else {
                assert(own[j] == generation);
                assert(all[before.len() + j] == generation);
            }
        }
    }
}

/// A page inventory counts the rows of pages, and of nothing else.
pub proof fn a_page_inventory_counts_pages(days: Seq<DayInventoryEntry>, count: nat)
    ensures
        page_total(days, 0) == 0,
        days[count as int].family is Pages ==> page_total(days, count + 1) == page_total(
            days,
            count,
        ) + days[count as int].rows,
        !(days[count as int].family is Pages) ==> page_total(days, count + 1) == page_total(
            days,
            count,
        ),
{
}

/// A response is retained by the digest of its bytes, with their number, the request that it
/// answers and when it came, before anything is known of its rows.
pub proof fn a_response_is_retained_by_its_digest(
    page: PageCoverage,
    acquisition: Option<OccurrenceIdentity>,
    ordinal: u64,
    raw: Seq<u8>,
    anchor: Option<String>,
    receipt_time: i64,
)
    requires
        is_response(page, acquisition, ordinal, raw, anchor, receipt_time),
    ensures
        page.sha256@ == crate::digest::hex(crate::digest::sha256(raw)),
        page.path@ == "raw/"@ + page.sha256@ + ".json"@,
        page.bytes == raw.len(),
        page.anchor == anchor,
        page.receipt_time == Some(receipt_time),
        page.rows == 0 && page.first is None && page.last is None && page.offset is None,
        page.occurrence is Some <==> acquisition is Some,
        page.occurrence matches Some(occurrence) ==> occurrence.ordinal == ordinal
            && occurrence.acquisition_id == acquisition->0.acquisition_id && occurrence.intent
            == acquisition->0.intent,
{
}

/// A receipt says of a page what was asked and what came: the request, the anchor, the digest, the
/// size, the rows and the time.
pub proof fn a_receipt_says_what_a_page_was(page: PageCoverage, receipt: PageReceipt)
    ensures
        receipt_of(page, receipt) <==> receipt.occurrence == page.occurrence && receipt.anchor
            == page.anchor && receipt.sha256 == page.sha256 && receipt.bytes == page.bytes
            && receipt.rows == page.rows && (page.receipt_time matches Some(at) && at
            == receipt.receipt_time),
{
}

/// Progress that is not kept is told of nothing. Kept progress is told to start over exactly where
/// rows of a daily layout are rejected.
pub proof fn only_kept_progress_is_told(
    bounds: Bounds,
    progress: Progress,
    page: PageCoverage,
    daily: bool,
    replayed: bool,
)
    ensures
        !bounds.persists ==> owed_at_start(bounds, progress) is None && owed_on_response(
            bounds,
            daily,
            replayed,
            page,
        ) is None && owed_on_page(bounds, replayed, page) is None && owed_on_rejection(
            bounds,
            daily,
        ) is None,
        bounds.persists ==> (owed_at_start(bounds, progress) is Some <==> bounds.resume is None),
        bounds.persists ==> (owed_on_response(bounds, daily, replayed, page) is Some <==> daily
            && !replayed),
        bounds.persists ==> (owed_on_page(bounds, replayed, page) is Some <==> !replayed),
        bounds.persists ==> (owed_on_rejection(bounds, daily) is Some <==> daily),
        owed_on_rejection(bounds, daily) matches Some(told) ==> told is Invalidate,
        owed_on_page(bounds, replayed, page) matches Some(told) ==> told == Telling::Page(page),
{
}

/// Pages are bundled exactly where the retained bytes of each are those that it records, by digest
/// and by number.
pub proof fn only_recorded_bytes_are_bundled(pages: Seq<PageCoverage>, raws: Seq<Vec<u8>>)
    requires
        pages.len() == raws.len(),
    ensures
        bundle_refusal(pages, raws) is None <==> forall|i: int|
            0 <= i < pages.len() ==> (#[trigger] pages[i]).sha256@ == crate::digest::hex(
                crate::digest::sha256(raws[i]@),
            ) && pages[i].bytes == raws[i]@.len(),
    decreases pages.len(),
{
    if pages.len() > 0 {
        let rest = pages.drop_last();
        only_recorded_bytes_are_bundled(rest, raws.drop_last());
        if bundle_refusal(rest, raws.drop_last()) is None {
            assert forall|i: int| 0 <= i < rest.len() implies (#[trigger] pages[i]).sha256@
                == crate::digest::hex(crate::digest::sha256(raws[i]@)) && pages[i].bytes
                == raws[i]@.len() by {
                assert(rest[i] == pages[i]);
            }
        } else {
            let i = choose|i: int|
                0 <= i < rest.len() && !((#[trigger] rest[i]).sha256@ == crate::digest::hex(
                    crate::digest::sha256(raws.drop_last()[i]@),
                ) && rest[i].bytes == raws.drop_last()[i]@.len());
            assert(pages[i] == rest[i]);
        }
    }
}

/// A bundled page stands in the bundle, behind the pages before it, and records what it recorded.
pub proof fn a_bundled_page_stays_what_it_was(
    page: PageCoverage,
    moved: PageCoverage,
    raws: Seq<Vec<u8>>,
    i: int,
)
    requires
        placed(page, moved, bundled(raws.take(i)).len() as int),
    ensures
        moved.path@ == "raw/pages.bin"@,
        moved.offset == Some(bundled(raws.take(i)).len() as u64),
        moved.sha256@ == page.sha256@ && moved.bytes == page.bytes && moved.rows == page.rows,
        moved.first == page.first && moved.last == page.last && moved.receipt_time
            == page.receipt_time,
        moved.occurrence == page.occurrence && moved.anchor == page.anchor,
{
}

/// The object of a bundle is a source, named by the digest of the bundled bytes and as large.
pub proof fn a_bundle_is_named_by_its_bytes(object: ObjectRecord, bytes: Seq<u8>)
    requires
        is_bundle_object(object, bytes),
    ensures
        object.role is Source,
        object.path@ == "raw/pages.bin"@,
        object.sha256@ == crate::digest::hex(crate::digest::sha256(bytes)),
        object.key@ == object_key_of(object.sha256@),
        object.bytes == bytes.len(),
        object.crc32c is None && object.generation is None,
{
}

/// A descendant carries every source and provenance object of its baseline but the coverage
/// record, and nothing else.
pub proof fn a_descendant_carries_what_was_acquired(
    objects: Seq<ObjectRecord>,
    object: ObjectRecord,
)
    ensures
        carried_from(objects).contains(object) <==> objects.contains(object) && (
        object.role is Source || object.role is Provenance) && object.path@
            != "provenance/coverage.json"@,
{
    let wanted = |object: ObjectRecord|
        object.role != ObjectRole::Normalized && object.path@ != COVERAGE_PATH@;
    if objects.contains(object) && wanted(object) {
        let i = choose|i: int| 0 <= i < objects.len() && objects[i] == object;
        objects.lemma_filter_contains(wanted, i);
    }
    if carried_from(objects).contains(object) {
        let kept = objects.filter(wanted);
        let i = choose|i: int| 0 <= i < kept.len() && kept[i] == object;
        objects.lemma_filter_contains_rev(wanted, object);
        objects.lemma_filter_pred(wanted, i);
    }
}

/// A carried object or page only ever changes its path, and that only where it is the baseline's
/// bundle or stands in it: then it goes under the baseline's generation.
pub proof fn carrying_renames_only_the_bundle(
    object: ObjectRecord,
    carried: ObjectRecord,
    page: PageCoverage,
    moved: PageCoverage,
    generation: Seq<char>,
)
    ensures
        renamed(object, carried, generation) <==> {
            &&& object.path@ == "raw/pages.bin"@ ==> carried.path@ == "raw/"@ + generation
                + "/pages.bin"@
            &&& object.path@ != "raw/pages.bin"@ ==> carried.path@ == object.path@
            &&& carried.role == object.role && carried.key == object.key && carried.bytes
                == object.bytes && carried.sha256 == object.sha256 && carried.crc32c
                == object.crc32c && carried.generation == object.generation
        },
        page_renamed(page, moved, generation) <==> {
            &&& page.path@ == "raw/pages.bin"@ ==> moved.path@ == "raw/"@ + generation
                + "/pages.bin"@
            &&& page.path@ != "raw/pages.bin"@ ==> moved.path@ == page.path@
            &&& moved.occurrence == page.occurrence && moved.sha256 == page.sha256 && moved.bytes
                == page.bytes && moved.offset == page.offset && moved.anchor == page.anchor
                && moved.rows == page.rows && moved.first == page.first && moved.last == page.last
                && moved.receipt_time == page.receipt_time
        },
{
}

/// A coverage record says for whom, from where and for which range it was acquired.
pub proof fn coverage_says_for_whom(coverage: HistoryCoverage, subject: CoverageSubject)
    requires
        covers_subject(coverage, subject),
    ensures
        coverage.schema_version == 1,
        coverage.source_identity@ == subject.source_identity@,
        coverage.broker@ == subject.broker@,
        coverage.provider_symbol@ == subject.provider_symbol@,
        coverage.role == subject.role,
        coverage.native_granularity == subject.native_granularity,
        coverage.requested == subject.requested,
        coverage.seed == subject.seed,
{
}

/// A limit of passes is reached once as many were made, and no limit never.
pub proof fn a_limit_is_reached_by_counting(limit: PassLimit, done: nat)
    ensures
        limit is Unbounded ==> !limit_reached(limit, done),
        limit matches PassLimit::Exactly(count) ==> (limit_reached(limit, done) <==> done >= count),
{
}

/// A bar is recorded by day wherever its moment and its server time can be told.
pub proof fn a_bar_is_recorded_where_its_times_fit(bar: Bar, native: Native)
    ensures
        daily_refusal(bar, native) is None <==> i64::MIN <= bar.start_unix_s * 1_000_000
            <= i64::MAX && i64::MIN <= bar.start_unix_s + native.server_offset_s <= i64::MAX,
{
}

} // verus!
