//! What holds of every feature build: what it may read, when a generation is taken instead of
//! building it, and what its totals and tables say.

use crate::dataset::{ObjectIdentity, ObjectRecord, ObjectRole};
use crate::features::generation::{
    all_files, all_paths, are_normalized, codes_at, jobs_of, largest, moments, observed_all,
    ready_at, reused_count, same_generation, stored, Coverage, Put, StreamFiles,
};
use crate::features::plan::{
    holds_out, misdescribed, wrong_feature, wrong_input, wrong_input_kind, wrong_profile,
    FeatureManifest, InputManifest, PlanFacts, ProfileManifest, StreamSummary,
};
use crate::features::reuse::{
    answers, events_of, fits, frozen_reuse, reuse_of, rows_of, FitReceipt, FitRequest,
    FrozenRequest,
};
use crate::features::table::{
    metadata_of, sequence_layout, sequence_row, structure_layout, structure_row, Cell, CellView,
    SequenceEvent, StructureEvent, TableSubject,
};
use crate::lineage::json::object_key_of;
use crate::live::rows::{position_meets, FeatureValue};
use crate::market::DatasetRole;
use crate::text::{decimal, views};
use vstd::prelude::*;

verus! {

/// An input is taken exactly where it is a dataset under the key that it was read by, its role is
/// the declared one, and a holdout is not protected.
pub proof fn an_input_is_what_was_declared(
    uri: Seq<char>,
    key: Seq<char>,
    kind: Option<Seq<char>>,
    declared: DatasetRole,
    declared_name: Seq<char>,
    input: InputManifest,
    protected: Option<Seq<char>>,
)
    ensures
        wrong_input_kind(uri, kind) is None <==> kind is None,
        wrong_input(uri, key, declared, declared_name, input, protected) is None <==> input.key@
            == key && input.role == declared && !(input.role is Holdout && protected is Some),
{
}

/// A profile is taken exactly where its manifest is a stream manifest under the key that it was
/// read by, of development data, whose source may be looked at, and of the same broker, symbol
/// and granularity as the input.
pub proof fn a_profile_describes_the_input(
    uri: Seq<char>,
    key: Seq<char>,
    is_streams: bool,
    manifest: ProfileManifest,
    lookup: Option<Seq<char>>,
    input: InputManifest,
)
    ensures
        wrong_profile(uri, key, is_streams, manifest, lookup, input) is None <==> {
            &&& is_streams
            &&& manifest.key@ == key
            &&& manifest.role is Development
            &&& lookup is None
            &&& manifest.broker@ == input.broker@
            &&& manifest.provider_symbol@ == input.provider_symbol@
            &&& manifest.native_granularity == input.native_granularity
        },
{
}

/// A feature manifest is taken exactly where it is one, under the key that it was read by, and
/// what is a holdout, by its own role or by the declared role of its input, is not protected.
pub proof fn a_feature_manifest_protects_its_holdout(
    field: Seq<char>,
    uri: Seq<char>,
    key: Seq<char>,
    is_feature: bool,
    manifest: FeatureManifest,
    declared: Result<Option<DatasetRole>, String>,
    protected: Option<Seq<char>>,
)
    ensures
        wrong_feature(field, uri, key, is_feature, manifest, declared, protected) is None <==> {
            &&& is_feature
            &&& manifest.key@ == key
            &&& manifest.role is Holdout || declared is Ok
            &&& protected is Some ==> !(manifest.role is Holdout) && !(declared matches Ok(
                Some(DatasetRole::Holdout),
            ))
        },
        forall|role: DatasetRole, of: Option<DatasetRole>| #[trigger]
            holds_out(role, of) <==> (role is Holdout || (of matches Some(of) && of is Holdout)),
{
}

/// A plan describes a manifest exactly where identity, instrument, broker, symbol and profile
/// generation agree, the plan is fitted, and the streams are the same in the same order.
pub proof fn a_plan_describes_its_manifest(plan: PlanFacts, manifest: FeatureManifest)
    ensures
        misdescribed(plan, manifest) is None <==> {
            &&& plan.identity@ == manifest.plan_identity@
            &&& plan.instrument@ == manifest.instrument@
            &&& plan.broker@ == manifest.broker@
            &&& plan.provider_symbol@ == manifest.provider_symbol@
            &&& plan.stream_generation@ == manifest.profile_generation@
            &&& plan.fitted
            &&& plan.streams@.len() == manifest.streams@.len()
            &&& forall|i: int|
                0 <= i < plan.streams@.len() ==> #[trigger] plan.streams@[i]
                    == manifest.streams@[i].stream
        },
{
    let streams = manifest.streams@.map_values(|summary: StreamSummary| summary.stream);
    if plan.streams@.len() == manifest.streams@.len() && forall|i: int|
        0 <= i < plan.streams@.len() ==> #[trigger] plan.streams@[i]
            == manifest.streams@[i].stream {
        assert(plan.streams@ =~= streams);
    }
    if plan.streams@ == streams {
        assert forall|i: int| 0 <= i < plan.streams@.len() implies #[trigger] plan.streams@[i]
            == manifest.streams@[i].stream by {
            assert(streams[i] == manifest.streams@[i].stream);
        }
    }
}

/// All that an input records was observed: as many observations as it has rows, from its first to
/// its last moment.
pub proof fn the_whole_input_is_observed(
    observations: u64,
    observed: Option<Coverage>,
    row_count: u64,
    coverage: Coverage,
)
    ensures
        observed_all(observations, observed, row_count, coverage) <==> observations == row_count
            && (observed matches Some(observed) && observed.first_event_time@
            == coverage.first_event_time@ && observed.last_event_time@
            == coverage.last_event_time@),
{
}

/// A committed manifest is taken for a build exactly where generation, role, observations, streams
/// and objects are the same, object by object in role, path, digest and size, and no recorded
/// checksum or version is another.
pub proof fn a_committed_generation_is_the_same(
    committed: FeatureManifest,
    fresh: FeatureManifest,
    identities: Seq<ObjectIdentity>,
)
    requires
        identities.len() == fresh.objects@.len(),
    ensures
        same_generation(committed, fresh, identities) <==> {
            &&& committed.generation@ == fresh.generation@
            &&& committed.role == fresh.role
            &&& committed.observations == fresh.observations
            &&& committed.streams@ == fresh.streams@
            &&& committed.objects@.len() == fresh.objects@.len()
            &&& forall|i: int|
                #![trigger committed.objects@[i]]
                0 <= i < committed.objects@.len() ==> {
                    let kept = committed.objects@[i];
                    let made = fresh.objects@[i];
                    &&& kept.role == made.role
                    &&& kept.path@ == made.path@
                    &&& kept.sha256@ == made.sha256@
                    &&& kept.bytes == made.bytes
                    &&& kept.crc32c is Some ==> kept.crc32c == Some(identities[i].crc32c)
                    &&& made.crc32c is Some ==> kept.crc32c == made.crc32c
                    &&& made.generation is Some ==> kept.generation == made.generation
                }
        },
{
    crate::dataset::objects_agree_one_by_one(committed.objects@, fresh.objects@, identities);
}

/// A receipt answers a request exactly where it holds the digest of the request, was written by
/// the same revision, and names a generation: 64 digits in base sixteen.
pub proof fn a_receipt_answers_its_request(
    receipt: FitReceipt,
    request: Seq<u8>,
    revision: Seq<char>,
)
    ensures
        answers(receipt, request, revision) <==> {
            &&& receipt.request_digest@ == crate::digest::hex(crate::digest::sha256(request))
            &&& receipt.code_revision@ == revision
            &&& receipt.generation@.len() == 64
            &&& forall|i: int|
                0 <= i < 64 ==> {
                    let c = #[trigger] receipt.generation@[i];
                    ('0' <= c && c <= '9') || ('a' <= c && c <= 'f') || ('A' <= c && c <= 'F')
                }
        },
{
}

/// A completed fit is taken exactly where its manifest has the role, input, profile and revision
/// of the request and applied no frozen plan, its objects verify, and the plan before its fit is
/// the requested one. What is then said is what the verification said.
pub proof fn a_fit_is_reused_as_requested(
    manifest: FeatureManifest,
    request: FitRequest,
    uri: Seq<char>,
    verified: Result<String, String>,
    unfitted: Result<String, String>,
)
    ensures
        reuse_of(manifest, request, uri, verified, unfitted) is Ok <==> {
            &&& manifest.role == request.role
            &&& manifest.input_generation@ == request.input_generation@
            &&& manifest.profile_generation@ == request.profile_generation@
            &&& manifest.code_revision@ == request.code_revision@
            &&& manifest.frozen_from is None
            &&& verified is Ok
            &&& unfitted matches Ok(plan) && plan@ == request.unfitted_plan_identity@
        },
        reuse_of(manifest, request, uri, verified, unfitted) matches Ok(said) ==> said
            == verified->Ok_0@,
        fits(manifest, request) <==> manifest.role == request.role && manifest.input_generation@
            == request.input_generation@ && manifest.profile_generation@
            == request.profile_generation@ && manifest.code_revision@ == request.code_revision@
            && manifest.frozen_from is None,
{
}

/// A frozen application is taken exactly where the manifest has the role, input, profile, frozen
/// generation and plan of the request, its objects verify, and the same revision made it and can
/// be reused. A manifest of anything else, and one whose objects do not verify, is a clash.
pub proof fn a_frozen_application_is_reused_as_requested(
    manifest: FeatureManifest,
    request: FrozenRequest,
    uri: Seq<char>,
    verified: Result<String, String>,
    reusable: bool,
)
    ensures
        frozen_reuse(manifest, request, uri, verified, reusable) is Ok <==> {
            &&& manifest.role == request.role
            &&& manifest.input_generation@ == request.input_generation@
            &&& manifest.profile_generation@ == request.profile_generation@
            &&& manifest.frozen_from matches Some(from) && from@ == request.frozen_from@
            &&& manifest.plan_identity@ == request.plan_identity@
            &&& verified is Ok
        },
        frozen_reuse(manifest, request, uri, verified, reusable) matches Ok(Some(said)) ==> reusable
            && manifest.code_revision@ == request.code_revision@ && said == verified->Ok_0@,
        frozen_reuse(manifest, request, uri, verified, reusable) matches Ok(None) ==> !(reusable
            && manifest.code_revision@ == request.code_revision@),
{
}

/// The largest count is one of the counts, and no count is larger.
pub proof fn the_largest_is_the_largest(counts: Seq<usize>)
    ensures
        forall|i: int| 0 <= i < counts.len() ==> #[trigger] counts[i] <= largest(counts),
        counts.len() > 0 ==> exists|i: int|
            0 <= i < counts.len() && #[trigger] counts[i] == largest(counts),
        counts.len() == 0 ==> largest(counts) == 0,
    decreases counts.len(),
{
    if counts.len() > 0 {
        let rest = counts.drop_last();
        the_largest_is_the_largest(rest);
        assert forall|i: int| 0 <= i < counts.len() implies #[trigger] counts[i] <= largest(
            counts,
        ) by {
            if i < rest.len() {
                assert(rest[i] == counts[i]);
            }
        }
        if counts.last() > largest(rest) || rest.len() == 0 {
            assert(counts[counts.len() - 1] == largest(counts));
        } else {
            let i = choose|i: int| 0 <= i < rest.len() && #[trigger] rest[i] == largest(rest);
            assert(counts[i] == largest(counts));
        }
    }
}

/// The fits of a plan are each encoding of each stream, once, stream by stream and encoding by
/// encoding.
pub proof fn every_encoding_is_fitted_once(columns: Seq<usize>)
    requires
        columns.len() <= usize::MAX,
    ensures
        forall|stream: int, column: int|
            #![trigger columns[stream], jobs_of(columns).contains((stream as usize, column as usize))]
            0 <= stream < columns.len() && 0 <= column < columns[stream] ==> jobs_of(
                columns,
            ).contains((stream as usize, column as usize)),
        forall|i: int|
            0 <= i < jobs_of(columns).len() ==> (#[trigger] jobs_of(columns)[i]).0 < columns.len()
                && jobs_of(columns)[i].1 < columns[jobs_of(columns)[i].0 as int],
        forall|i: int, j: int|
            0 <= i < j < jobs_of(columns).len() ==> (#[trigger] jobs_of(columns)[i]).0 < (
            #[trigger] jobs_of(columns)[j]).0 || (jobs_of(columns)[i].0 == jobs_of(columns)[j].0
                && jobs_of(columns)[i].1 < jobs_of(columns)[j].1),
    decreases columns.len(),
{
    if columns.len() > 0 {
        let rest = columns.drop_last();
        every_encoding_is_fitted_once(rest);
        let last = Seq::new(
            columns.last() as nat,
            |column: int| ((columns.len() - 1) as usize, column as usize),
        );
        let all = jobs_of(columns);
        let earlier = jobs_of(rest);
        assert(all == earlier + last);
        assert forall|stream: int, column: int|
            #![trigger columns[stream], all.contains((stream as usize, column as usize))]
            0 <= stream < columns.len() && 0 <= column < columns[stream] implies all.contains(
            (stream as usize, column as usize),
        ) by {
            if stream < rest.len() {
                assert(rest[stream] == columns[stream]);
                assert(earlier.contains((stream as usize, column as usize)));
                let i = choose|i: int|
                    0 <= i < earlier.len() && earlier[i] == (stream as usize, column as usize);
                assert(all[i] == earlier[i]);
            } else {
                assert(all[earlier.len() + column] == last[column]);
            }
        }
        assert forall|i: int| 0 <= i < all.len() implies (#[trigger] all[i]).0 < columns.len()
            && all[i].1 < columns[all[i].0 as int] by {
            if i < earlier.len() {
                assert(all[i] == earlier[i]);
                assert(rest[earlier[i].0 as int] == columns[earlier[i].0 as int]);
            } else {
                assert(all[i] == last[i - earlier.len()]);
            }
        }
        assert forall|i: int, j: int| 0 <= i < j < all.len() implies (#[trigger] all[i]).0 < (
        #[trigger] all[j]).0 || (all[i].0 == all[j].0 && all[i].1 < all[j].1) by {
            if j < earlier.len() {
                assert(all[i] == earlier[i] && all[j] == earlier[j]);
            } else if i < earlier.len() {
                assert(all[i] == earlier[i]);
                assert(all[j] == last[j - earlier.len()]);
            } else {
                assert(all[i] == last[i - earlier.len()]);
                assert(all[j] == last[j - earlier.len()]);
            }
        }
    }
}

/// Totals are sums: nothing is counted of no stream, what one stream counts of one, and streams
/// behind others add what they count.
pub proof fn totals_are_sums(before: Seq<StreamSummary>, after: Seq<StreamSummary>)
    ensures
        before.len() == 0 ==> rows_of(before) == 0 && events_of(before) == 0,
        before.len() == 1 ==> rows_of(before) == before[0].rows && events_of(before)
            == before[0].structure_events + before[0].sequence_events,
        rows_of(before + after) == rows_of(before) + rows_of(after),
        events_of(before + after) == events_of(before) + events_of(after),
    decreases after.len(),
{
    reveal_with_fuel(rows_of, 2);
    reveal_with_fuel(events_of, 2);
    if after.len() == 0 {
        assert(before + after =~= before);
    } else {
        totals_are_sums(before, after.drop_last());
        assert((before + after).drop_last() =~= before + after.drop_last());
        assert((before + after).last() == after.last());
    }
}

/// Reused objects are counted one by one, and each record keeps what it says of the bytes and
/// takes what storing them gave back.
pub proof fn stored_objects_are_counted(
    objects: Seq<ObjectRecord>,
    before: Seq<Put>,
    after: Seq<Put>,
)
    ensures
        before.len() == 0 ==> reused_count(before) == 0,
        before.len() == 1 ==> reused_count(before) == (if before[0].reused {
            1nat
        } else {
            0nat
        }),
        reused_count(before + after) == reused_count(before) + reused_count(after),
        stored(objects, before).len() == objects.len(),
        forall|i: int|
            0 <= i < objects.len() ==> {
                let kept = #[trigger] stored(objects, before)[i];
                &&& kept.role == objects[i].role && kept.path == objects[i].path && kept.key
                    == objects[i].key
                &&& kept.bytes == objects[i].bytes && kept.sha256 == objects[i].sha256
                &&& kept.crc32c == before[i].crc32c && kept.generation == before[i].generation
            },
    decreases after.len(),
{
    reveal_with_fuel(reused_count, 2);
    if after.len() == 0 {
        assert(before + after =~= before);
    } else {
        stored_objects_are_counted(objects, before, after.drop_last());
        assert((before + after).drop_last() =~= before + after.drop_last());
        assert((before + after).last() == after.last());
    }
}

/// The object of each path is published under the key that the digest of its bytes gives, with
/// the size and digest of the bytes, as a normalized object, and claims nothing of a store.
pub proof fn an_object_is_named_by_its_bytes(
    objects: Seq<ObjectRecord>,
    paths: Seq<String>,
    identities: Seq<ObjectIdentity>,
    i: int,
)
    requires
        are_normalized(objects, paths, identities),
        0 <= i < paths.len(),
    ensures
        objects.len() == paths.len(),
        objects[i].role is Normalized,
        objects[i].path@ == paths[i]@,
        objects[i].bytes == identities[i].bytes,
        objects[i].sha256@ == identities[i].sha256@,
        objects[i].key@ == object_key_of(identities[i].sha256@),
        objects[i].crc32c is None && objects[i].generation is None,
{
    assert(crate::dataset::is_record(
        objects[i],
        ObjectRole::Normalized,
        paths[i]@,
        identities[i],
    ));
}

/// A generation is published with its plan first, and with every object path and every file of
/// every stream, and nothing else; the streams follow each other.
pub proof fn a_generation_is_its_plan_and_streams(
    plan: Seq<char>,
    streams: Seq<StreamFiles>,
    next: StreamFiles,
)
    ensures
        all_paths(plan, streams).len() >= 1 && all_paths(plan, streams)[0] == plan,
        all_files(plan, streams).len() >= 1 && all_files(plan, streams)[0] == plan,
        streams.len() == 0 ==> all_paths(plan, streams).len() == 1 && all_files(
            plan,
            streams,
        ).len() == 1,
        all_paths(plan, streams.push(next)) == all_paths(plan, streams) + views(
            next.object_paths@,
        ),
        next.encoded is None ==> all_files(plan, streams.push(next)) == all_files(plan, streams)
            + views(next.tables@),
        next.encoded matches Some(encoded) ==> all_files(plan, streams.push(next)) == (all_files(
            plan,
            streams,
        ) + views(next.tables@)).push(encoded@),
    decreases streams.len(),
{
    assert(streams.push(next).drop_last() =~= streams);
    if streams.len() > 0 {
        a_generation_is_its_plan_and_streams(plan, streams.drop_last(), next);
    }
    if let Some(encoded) = next.encoded {
        assert(all_files(plan, streams) + (views(next.tables@) + seq![encoded@]) =~= (all_files(
            plan,
            streams,
        ) + views(next.tables@)).push(encoded@));
    } else {
        assert(views(next.tables@) + Seq::<Seq<char>>::empty() =~= views(next.tables@));
    }
}

/// The row of encoded columns holds the code of each column at that row, in the order of the
/// columns.
pub proof fn a_code_row_is_read_across(codes: Seq<Vec<i16>>, row: int)
    ensures
        codes_at(codes, row).len() == codes.len(),
        forall|column: int|
            0 <= column < codes.len() ==> #[trigger] codes_at(codes, row)[column]
                == codes[column]@[row],
{
}

/// The decisions of a stream's rows are bounded by the first and the last moment that its column
/// holds, whatever else stands in it.
pub proof fn decisions_are_the_moments_of_rows(cells: Seq<Option<Cell>>, first: int, last: int)
    requires
        0 <= first <= last < cells.len(),
        cells[first] matches Some(Cell::Time(_)),
        cells[last] matches Some(Cell::Time(_)),
        forall|i: int| 0 <= i < first ==> !(#[trigger] cells[i] matches Some(Cell::Time(_))),
        forall|i: int|
            last < i < cells.len() ==> !(#[trigger] cells[i] matches Some(Cell::Time(_))),
    ensures
        moments(cells).len() > 0,
        cells[first] == Some(Cell::Time(moments(cells)[0])),
        cells[last] == Some(Cell::Time(moments(cells).last())),
    decreases cells.len(),
{
    let rest = cells.drop_last();
    if last < cells.len() - 1 {
        assert(!(cells[cells.len() - 1] matches Some(Cell::Time(_))));
        decisions_are_the_moments_of_rows(rest, first, last);
    } else if first == last {
        no_moment_before(rest);
    } else {
        a_moment_is_kept_first(rest, first);
    }
}

proof fn no_moment_before(cells: Seq<Option<Cell>>)
    requires
        forall|i: int| 0 <= i < cells.len() ==> !(#[trigger] cells[i] matches Some(Cell::Time(_))),
    ensures
        moments(cells).len() == 0,
    decreases cells.len(),
{
    if cells.len() > 0 {
        assert(!(cells[cells.len() - 1] matches Some(Cell::Time(_))));
        no_moment_before(cells.drop_last());
    }
}

proof fn a_moment_is_kept_first(cells: Seq<Option<Cell>>, first: int)
    requires
        0 <= first < cells.len(),
        cells[first] matches Some(Cell::Time(_)),
        forall|i: int| 0 <= i < first ==> !(#[trigger] cells[i] matches Some(Cell::Time(_))),
    ensures
        moments(cells).len() > 0,
        cells[first] == Some(Cell::Time(moments(cells)[0])),
    decreases cells.len(),
{
    if first == cells.len() - 1 {
        no_moment_before(cells.drop_last());
    } else {
        a_moment_is_kept_first(cells.drop_last(), first);
    }
}

/// A stream without moments has no bounds.
pub proof fn no_decision_has_no_bound(cells: Seq<Option<Cell>>)
    requires
        forall|i: int| 0 <= i < cells.len() ==> !(#[trigger] cells[i] matches Some(Cell::Time(_))),
    ensures
        moments(cells).len() == 0,
{
    no_moment_before(cells);
}

/// A structure event stands in its table under the names of its values.
pub proof fn a_structure_event_stands_under_its_names(event: StructureEvent)
    ensures
        ({
            let names = structure_layout();
            let row = structure_row(event);
            &&& names.len() == 14 && row.len() == 14
            &&& names[0].0 == "event_id"@ && row[0] == Some(CellView::Int(event.event_id as i64))
            &&& names[1].0 == "event_type"@ && row[1] == Some(CellView::Text(event.event_type@))
            &&& names[2].0 == "event_direction"@ && row[2] == Some(
                CellView::Text(event.direction@),
            )
            &&& names[3].0 == "event_close_micros"@ && row[3] == Some(
                CellView::Time(event.event_close_micros),
            )
            &&& names[4].0 == "confirm_close_micros"@ && row[4] == Some(
                CellView::Time(event.confirm_close_micros),
            )
            &&& names[5].0 == "known_at_micros"@ && row[5] == Some(
                CellView::Time(event.known_at_micros),
            )
            &&& names[6].0 == "event_row"@ && row[6] == Some(CellView::Int(event.event_row as i64))
            &&& names[7].0 == "confirm_row"@ && row[7] == Some(
                CellView::Int(event.confirm_row as i64),
            )
            &&& names[8].0 == "event_candle_ordinal"@ && row[8] == Some(
                CellView::Int(event.event_candle_ordinal as i64),
            )
            &&& names[9].0 == "confirm_candle_ordinal"@ && row[9] == Some(
                CellView::Int(event.confirm_candle_ordinal as i64),
            )
            &&& names[10].0 == "price_units"@ && row[10] == Some(CellView::Int(event.price_units))
            &&& names[11].0 == "level_units"@ && row[11] == Some(CellView::Int(event.level_units))
            &&& names[12].0 == "reference"@ && row[12] == Some(CellView::Text(event.reference@))
            &&& names[13].0 == "reference_close_micros"@ && row[13] == (
            match event.reference_close_micros {
                Some(micros) => Some(CellView::Time(micros)),
                None => None,
            })
        }),
{
}

/// A sequence event stands in its table under the names of its values.
pub proof fn a_sequence_event_stands_under_its_names(event: SequenceEvent)
    ensures
        ({
            let names = sequence_layout();
            let row = sequence_row(event);
            &&& names.len() == 15 && row.len() == 15
            &&& names[0].0 == "event_id"@ && row[0] == Some(CellView::Int(event.event_id as i64))
            &&& names[1].0 == "row"@ && row[1] == Some(CellView::Int(event.row as i64))
            &&& names[2].0 == "candle_ordinal"@ && row[2] == Some(
                CellView::Int(event.candle_ordinal as i64),
            )
            &&& names[3].0 == "decision_close_micros"@ && row[3] == Some(
                CellView::Time(event.decision_close_micros),
            )
            &&& names[4].0 == "known_at_micros"@ && row[4] == Some(
                CellView::Time(event.known_at_micros),
            )
            &&& names[5].0 == "swing_event_type"@ && row[5] == Some(
                CellView::Text(event.swing_event_type@),
            )
            &&& names[6].0 == "swing_type"@ && row[6] == Some(CellView::Text(event.swing_type@))
            &&& names[7].0 == "swing_price_units"@ && row[7] == Some(
                CellView::Int(event.swing_price_units),
            )
            &&& names[8].0 == "swing_event_close_micros"@ && row[8] == Some(
                CellView::Time(event.swing_event_close_micros),
            )
            &&& names[9].0 == "swing_confirm_close_micros"@ && row[9] == Some(
                CellView::Time(event.swing_confirm_close_micros),
            )
            &&& names[10].0 == "previous_price_units"@ && row[10] == (
            match event.previous_price_units {
                Some(value) => Some(CellView::Int(value)),
                None => None,
            })
            &&& names[11].0 == "previous_event_close_micros"@ && row[11] == (
            match event.previous_event_close_micros {
                Some(micros) => Some(CellView::Time(micros)),
                None => None,
            })
            &&& names[12].0 == "previous_confirm_close_micros"@ && row[12] == (
            match event.previous_confirm_close_micros {
                Some(micros) => Some(CellView::Time(micros)),
                None => None,
            })
            &&& names[13].0 == "sequence_after"@ && row[13] == Some(
                CellView::Text(event.sequence_after@),
            )
            &&& names[14].0 == "bias_after"@ && row[14] == Some(CellView::Text(event.bias_after@))
        }),
{
}

/// The metadata of a stream's tables say whose data they hold, at which scale, of which stream,
/// by which identity and in which version.
pub proof fn metadata_say_what_a_table_holds(
    subject: TableSubject,
    name: Seq<char>,
    identity: Seq<char>,
)
    ensures
        ({
            let said = metadata_of(subject, name, identity);
            &&& said.len() == 7
            &&& said.contains(("broker"@, subject.broker@))
            &&& said.contains(("provider_symbol"@, subject.provider_symbol@))
            &&& said.contains(("price_scale"@, decimal(subject.price_digits as nat)))
            &&& said.contains(("duration_seconds"@, decimal(subject.duration_seconds as nat)))
            &&& said.contains(("offset_seconds"@, decimal(subject.offset_seconds as nat)))
            &&& said.contains((name, identity))
            &&& said.contains(
                ("feature_schema_version"@, decimal(subject.feature_schema_version as nat)),
            )
        }),
{
    let said = metadata_of(subject, name, identity);
    assert(said[0] == ("broker"@, subject.broker@));
    assert(said[1] == ("provider_symbol"@, subject.provider_symbol@));
    assert(said[2] == ("price_scale"@, decimal(subject.price_digits as nat)));
    assert(said[3] == ("duration_seconds"@, decimal(subject.duration_seconds as nat)));
    assert(said[4] == ("offset_seconds"@, decimal(subject.offset_seconds as nat)));
    assert(said[5] == (name, identity));
    assert(said[6] == (
        "feature_schema_version"@,
        decimal(subject.feature_schema_version as nat),
    ));
}

/// A value is ready exactly where there is one, it is none of the unready texts, and every flag is
/// set in its row: a number, whatever it is, is never unready by itself.
pub proof fn a_value_is_ready_by_itself_and_its_flags(
    value: Option<FeatureValue>,
    unready: Seq<String>,
    flags: Seq<Vec<Option<FeatureValue>>>,
    row: int,
)
    ensures
        ready_at(value, unready, flags, row) <==> {
            &&& value is Some
            &&& (value matches Some(FeatureValue::Text(text)) ==> forall|i: int|
                0 <= i < unready.len() ==> (#[trigger] unready[i])@ != text@)
            &&& forall|i: int|
                0 <= i < flags.len() ==> (#[trigger] flags[i])@[row] == Some(
                    FeatureValue::Bool(true),
                )
        },
        flags.len() == 0 && value is Some && !(value matches Some(FeatureValue::Text(_)))
            ==> ready_at(value, unready, flags, row),
{
    if let Some(FeatureValue::Text(text)) = value {
        position_meets(unready, text@);
        assert forall|i: int| 0 <= i < unready.len() && (#[trigger] unready[i])@
            == text@ implies views(unready).contains(text@) by {
            assert(views(unready)[i] == text@);
        }
        assert(value is Some);
    }
}

} // verus!
