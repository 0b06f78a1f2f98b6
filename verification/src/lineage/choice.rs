//! What holds of the migration in force, of the generation or catalog that is chosen, and of what
//! is reclaimed.

use crate::fetch::coverage::{HistoryCoverage, PageReceipt};
use crate::lineage::assemble::{
    facts_alike, finding_of, in_force, judging_of, root_finding, stream_finding, Catalog, Facts,
    Judging,
};
use crate::lineage::catalog::{
    finalists_of, is_cumulative, is_newer, is_newest_choice, is_superseded, newest_of, standing_of,
    Archived, Denied, Pinned, Standing,
};
use crate::lineage::days::{claim_at, claims_agree, is_claim_of, AcquisitionCoverage};
use crate::lineage::descend::{
    claims_nothing, claims_refusal, ids_of, inherited, mentioned, mentions,
};
use crate::lineage::json::{holds_text, json_of, member, member_text, view_of, Json, JsonView};
use crate::lineage::migration::{
    candle_proof, chain_refusal, consistent_proof, current_refusal, name_refusal, owned,
    record_refusal, session_of, superseded_name, terminals, MigrationMapping, MigrationRecord,
};
use crate::lineage::reclaim::{
    begins, carries, carries_all, continued_seed, in_lineage, is_carried, is_last_request,
    is_replaced, is_replacement, job_refers, job_scan, lists_text, relies_on, request_acquisition,
    PageFact, PendingJob, PlanStep, Reclamation, Replacement, Scan,
};
use crate::lineage::select::{
    ancestors_of, at_end, chosen_of, family_of, generations_of, has_predecessor, roots_of,
    Candidate,
};
use crate::search::{first_where, first_where_meets};
use crate::table::in_order;
use crate::text::{begins_with, refusal, text_of};
use vstd::prelude::*;

verus! {

/// A migration is verified exactly where its record says so and found observations, pages and
/// source files equal, its evidence is consistent, and candles were found equal where a stream is
/// replaced and not compared where none is.
pub proof fn a_verified_migration_found_everything_equal(record: MigrationRecord)
    ensures
        record.is_verified() <==> {
            let replaces_stream = exists|stream: Seq<char>| #[trigger]
                record.mapping.all_streams().contains(stream);
            &&& record.schema_version == 1
            &&& record.phase@ == "verified"@
            &&& record.equality.observations
            &&& record.equality.pages
            &&& record.equality.source_files
            &&& consistent_proof(record.evidence)
            &&& replaces_stream ==> record.mapping.v1_stream is Some && record.equality.candles
                == Some(true)
            &&& !replaces_stream ==> record.equality.candles is None
        },
{
    let streams = record.mapping.all_streams();
    if streams != Set::<Seq<char>>::empty() {
        if forall|stream: Seq<char>| !#[trigger] streams.contains(stream) {
            assert(streams =~= Set::<Seq<char>>::empty());
        }
    }
}

/// A proof about candles that names a basis found candles and profiles equal. A direct one is of a
/// product without sessions whose definition and streams are the old ones; one by reconstruction
/// is of a product in sessions, and has both definitions and the streams of both.
pub proof fn a_candle_proof_bears_out_its_basis(evidence: Json, candles: Json)
    requires
        consistent_proof(evidence),
        candle_proof(evidence) == Some(candles),
    ensures
        ({
            let basis = member_text(candles, "basis"@);
            let direct = basis == Some("direct_product_equality"@);
            let rebuilt = basis == Some("legacy_definition_reconstruction"@) && !direct;
            &&& basis is Some ==> direct || rebuilt
            &&& direct || rebuilt ==> member(candles, "equal"@) == Some(Json::Bool(true)) && member(
                candles,
                "profile_equal"@,
            ) == Some(Json::Bool(true))
            &&& basis is None ==> member(candles, "session_product_verified"@) is None && member(
                candles,
                "legacy_definition"@,
            ) is None && member(candles, "product_definition"@) is None && member(
                candles,
                "legacy_streams"@,
            ) is None && member(candles, "product_streams"@) is None
            &&& rebuilt ==> member(candles, "session_product_verified"@) == Some(Json::Bool(true))
                && (member(candles, "legacy_definition"@) matches Some(Json::Object(_)))
                && session_of(candles, "product_definition"@) is Object && (member(
                candles,
                "legacy_streams"@,
            ) matches Some(Json::Array(_))) && (member(candles, "product_streams"@) matches Some(
                Json::Array(_),
            ))
            &&& direct && basis != Some("legacy_definition_reconstruction"@) ==> member(
                candles,
                "session_product_verified"@,
            ) == Some(Json::Bool(false)) && (member(candles, "product_definition"@) matches Some(
                Json::Object(_),
            )) && session_of(candles, "product_definition"@) is Null && (member(
                candles,
                "legacy_streams"@,
            ) matches Some(Json::Array(_)))
        }),
{
}

/// Two mappings agree exactly where they name the same old generations and the same old streams.
pub proof fn agreeing_mappings_name_the_same(a: MigrationMapping, b: MigrationMapping)
    requires
        a.agrees(&b),
    ensures
        forall|name: Seq<char>| #[trigger]
            a.v1_generations@.dom().contains(name) <==> b.v1_generations@.dom().contains(name),
        forall|name: Seq<char>| #[trigger]
            a.v1_streams@.dom().contains(name) <==> b.v1_streams@.dom().contains(name),
        a.v1_stream is Some <==> b.v1_stream is Some,
        a.v1_stream matches Some(stream) ==> stream@ == b.v1_stream->0@,
        forall|name: Seq<char>| #[trigger]
            a.all_streams().contains(name) <==> a.v1_streams@.dom().contains(name) || (
            a.v1_stream matches Some(stream) && stream@ == name),
{
}

/// A migration record lies under one plain name: not empty, no step up, and without a separator.
pub proof fn a_record_lies_under_a_plain_name(name: Seq<char>, key: Seq<char>)
    ensures
        name_refusal("records/"@ + name) is None <==> name.len() > 0 && name != "."@ && name
            != ".."@ && !name.contains('/') && !name.contains('\\'),
        name_refusal(key) is None ==> begins_with(key, "records/"@),
{
    let full = "records/"@ + name;
    assert(full.subrange("records/"@.len() as int, full.len() as int) =~= name);
    assert(full.subrange(0, "records/"@.len() as int) =~= "records/"@);
    assert(full.take("records/"@.len() as int) =~= "records/"@);
}

/// A record that is not refused is verified, and what it supersedes is a verified record of the
/// same job that is not refused either: the whole chain is verified.
pub proof fn a_chain_of_migrations_is_verified(
    records: Map<Seq<char>, MigrationRecord>,
    job: Seq<char>,
    name: Seq<char>,
    previous: Seq<char>,
)
    requires
        records.dom().finite(),
        record_refusal(records, job, name) is None,
        superseded_name(records[name]) == Some(previous),
    ensures
        records[name].is_verified(),
        records.dom().contains(previous) && records[previous].job@ == job,
        records[previous].is_verified(),
        previous != name,
        chain_refusal(
            records,
            job,
            Set::empty().insert(name).insert(previous),
            records[previous],
        ) is None,
{
}

/// Where nothing refuses the migrations of a job, each of its records is verified.
pub proof fn every_record_of_a_job_is_verified(
    records: Map<Seq<char>, MigrationRecord>,
    job: Seq<char>,
    name: Seq<char>,
)
    requires
        records.dom().finite(),
        current_refusal(records, job) is None,
        records.dom().contains(name),
        records[name].job@ == job,
    ensures
        records[name].is_verified(),
        record_refusal(records, job, name) is None,
        terminals(records, job).len() == 1,
{
    let all = owned(records, job);
    assert(all.contains(name));
    assert(all.finite()) by {
        vstd::set_lib::lemma_len_subset(all, records.dom());
    }
    crate::table::every_finite_set_is_listed(all);
    let names = in_order(all);
    assert(names.contains(name));
    let refused = |name: Seq<char>| record_refusal(records, job, name) is Some;
    first_where_meets(names, refused);
    let at = choose|at: int| 0 <= at < names.len() && names[at] == name;
    if first_where(names, refused) is None {
        assert(!refused(names[at]));
    } else {
        let k = first_where(names, refused)->0;
        assert(refused(names[k]));
    }
}

/// The record in force is one of the job's that none of the job's records supersedes.
pub proof fn a_terminal_record_is_superseded_by_none(
    records: Map<Seq<char>, MigrationRecord>,
    job: Seq<char>,
    name: Seq<char>,
)
    ensures
        terminals(records, job).contains(name) <==> records.dom().contains(name)
            && records[name].job@ == job && forall|other: Seq<char>| #[trigger]
            records.dom().contains(other) && records[other].job@ == job ==> superseded_name(
                records[other],
            ) != Some(name),
{
    let all = owned(records, job);
    let last = |name: Seq<char>|
        forall|other: Seq<char>| #[trigger]
            all.contains(other) ==> superseded_name(records[other]) != Some(name);
    assert(terminals(records, job).contains(name) <==> all.contains(name) && last(name));
    if all.contains(name) && last(name) {
        assert forall|other: Seq<char>| #[trigger]
            records.dom().contains(other) && records[other].job@ == job implies superseded_name(
            records[other],
        ) != Some(name) by {
            assert(all.contains(other));
        }
    }
    if all.contains(name) && !last(name) {
        let other = choose|other: Seq<char>| #[trigger]
            all.contains(other) && superseded_name(records[other]) == Some(name);
        assert(records.dom().contains(other));
    }
}

/// What a record supersedes is the name in its evidence, and nothing where there is none.
pub proof fn supersession_is_a_name_in_the_evidence(record: MigrationRecord, name: Seq<char>)
    ensures
        superseded_name(record) == Some(name) <==> (member(
            record.evidence,
            "supersedes"@,
        ) matches Some(Json::Text(text)) && text@ == name),
{
}

/// A generation belongs to the family of a migration exactly where it continues the migration's
/// root and, where its lineage maps what it replaces, maps the same. One of another root never
/// does. The root itself must hold its mapping.
pub proof fn a_family_continues_the_root(
    generation: Seq<char>,
    lineage: Json,
    mapping: Result<MigrationMapping, String>,
    record: MigrationRecord,
)
    ensures
        ({
            let root = match member_text(lineage, "root_generation"@) {
                Some(root) => root,
                None => generation,
            };
            let maps = member(lineage, "v1_generations"@) is Some;
            let family = family_of(generation, lineage, mapping, record);
            &&& family == Ok::<bool, Seq<char>>(false) <==> root != record.v2_root@
            &&& family == Ok::<bool, Seq<char>>(true) <==> root == record.v2_root@ && (maps ==> (
            mapping matches Ok(found) && found.agrees(&record.mapping))) && (!maps ==> generation
                != record.v2_root@)
        }),
{
}

/// The generations of a job that are chosen are exactly those of the family in force, in order;
/// without a migration in force all are, and none of them may map what it replaces.
pub proof fn the_family_in_force_is_chosen(
    candidates: Seq<Candidate>,
    current: Option<MigrationRecord>,
    count: nat,
)
    requires
        count <= candidates.len(),
    ensures
        chosen_of(candidates, current, count) matches Ok(list) ==> {
            &&& forall|k: int| #[trigger]
                list.contains(k) <==> 0 <= k < count && (current matches Some(record) ==> family_of(
                    candidates[k].generation@,
                    candidates[k].lineage,
                    candidates[k].mapping,
                    record,
                ) == Ok::<bool, Seq<char>>(true))
            &&& forall|i: int, j: int| 0 <= i < j < list.len() ==> list[i] < list[j]
            &&& current is None ==> forall|k: int|
                0 <= k < count ==> member((#[trigger] candidates[k]).lineage, "v1_generations"@)
                    is None
        },
        chosen_of(candidates, current, count) is Err <==> exists|k: int|
            0 <= k < count && (match current {
                Some(record) => family_of(
                    (#[trigger] candidates[k]).generation@,
                    candidates[k].lineage,
                    candidates[k].mapping,
                    record,
                ) is Err,
                None => member(candidates[k].lineage, "v1_generations"@) is Some,
            }),
    decreases count,
{
    if count > 0 {
        the_family_in_force_is_chosen(candidates, current, (count - 1) as nat);
        let candidate = candidates[count - 1];
        if let Ok(before) = chosen_of(candidates, current, (count - 1) as nat) {
            if let Ok(list) = chosen_of(candidates, current, count) {
                if list != before {
                    assert(list == before.push(count - 1));
                    assert forall|k: int| #[trigger] list.contains(k) <==> before.contains(k) || k
                        == count - 1 by {
                        if before.contains(k) {
                            let i = choose|i: int| 0 <= i < before.len() && before[i] == k;
                            assert(list[i] == k);
                        }
                        if list.contains(k) && k != count - 1 {
                            let i = choose|i: int| 0 <= i < list.len() && list[i] == k;
                            assert(before[i] == k);
                        }
                        assert(list[list.len() - 1] == count - 1);
                    }
                    assert forall|i: int, j: int| 0 <= i < j < list.len() implies list[i]
                        < list[j] by {
                        assert(before.contains(before[i]));
                    }
                }
            } else {
                assert(candidates[count - 1] == candidate);
            }
        } else {
            let k = choose|k: int|
                0 <= k < count - 1 && (match current {
                    Some(record) => family_of(
                        (#[trigger] candidates[k]).generation@,
                        candidates[k].lineage,
                        candidates[k].mapping,
                        record,
                    ) is Err,
                    None => member(candidates[k].lineage, "v1_generations"@) is Some,
                });
            assert(candidates[k] == candidates[k]);
        }
    }
}

/// A root is a candidate whose lineage names no other of the generations.
pub proof fn a_root_names_no_other_generation(
    candidates: Seq<Candidate>,
    names: Set<Seq<char>>,
    count: nat,
)
    requires
        count <= candidates.len(),
    ensures
        forall|k: int| #[trigger]
            roots_of(candidates, names, count).contains(k) <==> 0 <= k < count && forall|
                name: Seq<char>,
            |
                names.contains(name) && #[trigger] holds_text(candidates[k].lineage, name) ==> name
                    == candidates[k].generation@,
    decreases count,
{
    if count > 0 {
        let before = roots_of(candidates, names, (count - 1) as nat);
        a_root_names_no_other_generation(candidates, names, (count - 1) as nat);
        let all = roots_of(candidates, names, count);
        assert forall|k: int| #[trigger] all.contains(k) <==> 0 <= k < count && forall|
            name: Seq<char>,
        |
            names.contains(name) && #[trigger] holds_text(candidates[k].lineage, name) ==> name
                == candidates[k].generation@ by {
            if all != before {
                if before.contains(k) {
                    let i = choose|i: int| 0 <= i < before.len() && before[i] == k;
                    assert(all[i] == k);
                }
                if all.contains(k) && k != count - 1 {
                    let i = choose|i: int| 0 <= i < all.len() && all[i] == k;
                    assert(before[i] == k);
                }
                assert(all[all.len() - 1] == count - 1);
            }
            if k == count - 1 {
                assert(has_predecessor(candidates[k], names) <==> exists|name: Seq<char>|
                    names.contains(name) && #[trigger] holds_text(candidates[k].lineage, name)
                        && name != candidates[k].generation@);
            }
        }
    }
}

/// The newest generation is no predecessor of another: it is the only one of the latest coverage
/// that the lineage of no other names.
pub proof fn the_newest_is_named_by_no_other(
    candidates: Seq<Candidate>,
    newest: Seq<char>,
    other: int,
)
    requires
        generations_of(at_end(candidates)).difference(
            ancestors_of(at_end(candidates), generations_of(at_end(candidates))),
        ) == Set::<Seq<char>>::empty().insert(newest),
        0 <= other < at_end(candidates).len(),
    ensures
        candidates.contains(at_end(candidates)[other]),
        forall|i: int|
            0 <= i < candidates.len() ==> (#[trigger] candidates[i]).last_event_time <= at_end(
                candidates,
            )[other].last_event_time,
        at_end(candidates)[other].generation@ != newest ==> !holds_text(
            at_end(candidates)[other].lineage,
            newest,
        ),
        exists|i: int|
            0 <= i < at_end(candidates).len() && (#[trigger] at_end(candidates)[i]).generation@
                == newest,
{
    let last = at_end(candidates);
    let names = generations_of(last);
    let latest = |candidate: Candidate|
        forall|i: int|
            0 <= i < candidates.len() ==> (#[trigger] candidates[i]).last_event_time
                <= candidate.last_event_time;
    candidates.lemma_filter_contains_rev(latest, last[other]);
    candidates.lemma_filter_pred(latest, other);
    assert(Set::<Seq<char>>::empty().insert(newest).contains(newest));
    assert(names.contains(newest));
    assert(!ancestors_of(last, names).contains(newest));
}

/// A catalog is newer than another exactly where it alone is daily, or both are or neither and
/// its coverage ends later.
pub proof fn a_newer_catalog_is_daily_or_ends_later(a: Archived, b: Archived)
    ensures
        a.daily && !b.daily ==> is_newer(a, b),
        !a.daily && b.daily ==> !is_newer(a, b),
        a.daily == b.daily ==> (is_newer(a, b) <==> a.entry.last_event_time
            > b.entry.last_event_time),
{
}

/// The chosen catalog is a candidate that no candidate is newer than, and its lineage names every
/// catalog that may not be opened. Where no candidate is there, or none is daily though a daily
/// one could be opened, nothing is chosen.
pub proof fn a_chosen_catalog_is_newest_and_supersedes(
    catalogs: Seq<Archived>,
    candidates: Seq<usize>,
    denied: Seq<Denied>,
    any_daily: bool,
    at: usize,
)
    requires
        is_newest_choice(catalogs, candidates, denied, any_daily, Ok(at)),
    ensures
        candidates.contains(at),
        forall|i: int|
            0 <= i < candidates.len() ==> !is_newer(
                catalogs[(#[trigger] candidates[i]) as int],
                catalogs[at as int],
            ),
        forall|k: int|
            0 <= k < denied.len() ==> catalogs[at as int].daily && holds_text(
                catalogs[at as int].entry.lineage,
                (#[trigger] denied[k]).generation@,
            ) && denied[k].generation@ != catalogs[at as int].entry.generation@,
        any_daily ==> exists|i: int|
            0 <= i < candidates.len() && catalogs[(#[trigger] candidates[i]) as int].daily,
{
    let top = newest_of(catalogs, candidates);
    let (terminal, p) = choose|terminal: Seq<char>, p: int| #[trigger]
        crate::lineage::catalog::is_choice(catalogs, top, denied, terminal, p, Ok(at));
    let finalists = finalists_of(catalogs, top, terminal);
    let wanted = |one: usize|
        crate::lineage::catalog::is_finalist(catalogs, top, terminal, one);
    let newest = |one: usize| crate::lineage::catalog::is_newest(catalogs, candidates, one);
    let open = |one: Denied| !is_superseded(catalogs[finalists[p] as int], one);
    first_where_meets(denied, open);
    assert(first_where(denied, open) is None);
    assert(finalists[p] == at);
    assert(finalists.contains(at));
    top.lemma_filter_contains_rev(wanted, at);
    assert(top.contains(at));
    let q = choose|q: int| 0 <= q < top.len() && top[q] == at;
    candidates.lemma_filter_contains_rev(newest, at);
    candidates.lemma_filter_pred(newest, q);
    assert(newest(top[q]));
    assert forall|k: int| 0 <= k < denied.len() implies catalogs[at as int].daily && holds_text(
        catalogs[at as int].entry.lineage,
        (#[trigger] denied[k]).generation@,
    ) && denied[k].generation@ != catalogs[at as int].entry.generation@ by {
        assert(!open(denied[k]));
    }
}

/// How a daily catalog stands: without a migration in force it is a candidate unless it maps what
/// it replaces; under one it is passed over where it continues another root, and otherwise is
/// verified, by the pinned root where its own lineage does not map.
pub proof fn a_catalog_stands_by_its_family(entry: Candidate, current: Option<MigrationRecord>)
    ensures
        ({
            let maps = member(entry.lineage, "v1_generations"@) is Some;
            let standing = standing_of(entry, current);
            &&& current is None ==> (standing is Err <==> maps) && (standing matches Ok(standing)
                ==> standing is Candidate)
            &&& current matches Some(record) ==> {
                let family = family_of(entry.generation@, entry.lineage, entry.mapping, record);
                &&& standing is Err <==> family is Err
                &&& standing == Ok::<Standing, Seq<char>>(Standing::Skip) <==> family == Ok::<
                    bool,
                    Seq<char>,
                >(false)
                &&& standing == Ok::<Standing, Seq<char>>(Standing::Verify { needs_root: !maps })
                    <==> family == Ok::<bool, Seq<char>>(true)
            }
        }),
{
}

/// A catalog restores a whole chain exactly where it pins the record of every migration of its
/// job.
pub proof fn a_cumulative_catalog_pins_every_record(
    records: Map<Seq<char>, MigrationRecord>,
    job: Seq<char>,
    entries: Seq<Pinned>,
    name: Seq<char>,
)
    requires
        is_cumulative(records, job, entries),
        records.dom().contains(name),
        records[name].job@ == job,
    ensures
        exists|i: int| 0 <= i < entries.len() && (#[trigger] entries[i]).key@ == "records/"@ + name,
{
    assert(crate::lineage::catalog::pins_record(entries, name));
}

/// The root that a catalog pins bears its migration out exactly where it may be opened, is the
/// migration's root, a daily one of the catalog's instrument and role, and its lineage is of the
/// family.
pub proof fn a_pinned_root_bears_out_its_migration(catalog: Catalog, record: MigrationRecord)
    ensures
        root_finding(catalog, record) is None ==> {
            &&& catalog.root matches Some(root)
            &&& root.permitted is Ok
            &&& root.manifest.generation@ == record.v2_root@
            &&& root.manifest.instrument@ == catalog.claims.instrument@
            &&& root.manifest.role == catalog.claims.role
            &&& root.manifest.layout is Some
            &&& root.lineage matches Ok(entry) && family_of(
                root.manifest.generation@,
                entry.lineage,
                entry.mapping,
                record,
            ) == Ok::<bool, Seq<char>>(true)
        },
        stream_finding(catalog, record) is Candidate ==> {
            &&& catalog.bound_stream matches Some(stream)
            &&& stream.permitted is Ok
            &&& stream.manifest.generation@ == record.v2_stream@
            &&& stream.source_generation@ == record.v2_root@
            &&& stream.manifest.instrument@ == catalog.claims.instrument@
            &&& stream.manifest.role == catalog.claims.role
            &&& stream.manifest.layout is Some
        },
{
}

/// A daily catalog is a candidate only where it may be opened, nothing refuses the migrations of
/// its job, and, under a migration in force, it is of its family, pins every record of its job,
/// and pins the migration's stream.
pub proof fn a_daily_candidate_is_borne_out(
    catalog: Catalog,
    archived: Archived,
    records: Map<Seq<char>, MigrationRecord>,
)
    requires
        finding_of(catalog, archived, records) is Candidate,
        catalog.claims.layout is Some,
    ensures
        catalog.denied is None,
        current_refusal(records, catalog.job@) is None,
        in_force(records, catalog.job@) is None ==> member(
            archived.entry.lineage,
            "v1_generations"@,
        ) is None,
        in_force(records, catalog.job@) matches Some(record) ==> {
            &&& family_of(
                archived.entry.generation@,
                archived.entry.lineage,
                archived.entry.mapping,
                record,
            ) == Ok::<bool, Seq<char>>(true)
            &&& is_cumulative(records, catalog.job@, catalog.records@)
            &&& stream_finding(catalog, record) is Candidate
            &&& member(archived.entry.lineage, "v1_generations"@) is None ==> root_finding(
                catalog,
                record,
            ) is None
        },
{
}

/// A catalog that is not daily is a candidate, and a daily one that may not be opened is passed
/// over.
pub proof fn a_closed_catalog_is_passed_over(
    catalog: Catalog,
    archived: Archived,
    records: Map<Seq<char>, MigrationRecord>,
)
    ensures
        catalog.claims.layout is None ==> finding_of(catalog, archived, records) is Candidate,
        catalog.claims.layout is Some && catalog.denied is Some ==> finding_of(
            catalog,
            archived,
            records,
        ) is Skip,
{
}

/// Once all catalogs are judged the candidates are exactly those that were found to be.
pub proof fn every_candidate_is_judged(
    catalogs: Seq<Catalog>,
    archived: Seq<Archived>,
    records: Map<Seq<char>, MigrationRecord>,
    count: nat,
)
    requires
        count <= catalogs.len(),
        count <= usize::MAX,
    ensures
        judging_of(catalogs, archived, records, count) matches Judging::Done(list) ==> forall|
            k: usize,
        | #[trigger]
            list.contains(k) <==> k < count && finding_of(
                catalogs[k as int],
                archived[k as int],
                records,
            ) is Candidate,
    decreases count,
{
    if count > 0 {
        every_candidate_is_judged(catalogs, archived, records, (count - 1) as nat);
        if let Judging::Done(before) = judging_of(
            catalogs,
            archived,
            records,
            (count - 1) as nat,
        ) {
            if let Judging::Done(list) = judging_of(catalogs, archived, records, count) {
                assert forall|k: usize| #[trigger] list.contains(k) <==> k < count && finding_of(
                    catalogs[k as int],
                    archived[k as int],
                    records,
                ) is Candidate by {
                    if list != before {
                        if before.contains(k) {
                            let i = choose|i: int| 0 <= i < before.len() && before[i] == k;
                            assert(list[i] == k);
                        }
                        if list.contains(k) && k != (count - 1) as usize {
                            let i = choose|i: int| 0 <= i < list.len() && list[i] == k;
                            assert(before[i] == k);
                        }
                        assert(list[list.len() - 1] == (count - 1) as usize);
                    }
                }
            }
        }
    }
}

/// Facts agree exactly in generation, instrument, role and layout.
pub proof fn alike_facts_agree_in_everything(a: Facts, b: Facts)
    ensures
        facts_alike(a, b) <==> a.generation@ == b.generation@ && a.instrument@ == b.instrument@
            && a.role == b.role && a.layout == b.layout,
{
}

/// Inherited claims begin with those before, and hold of each further claim one of the same
/// acquisition that says the same.
pub proof fn inherited_claims_say_the_same(
    claims: Seq<AcquisitionCoverage>,
    more: Seq<AcquisitionCoverage>,
    count: nat,
)
    requires
        count <= more.len(),
        inherited(claims, more, count) is Some,
    ensures
        inherited(claims, more, count)->0.len() >= claims.len(),
        inherited(claims, more, count)->0.take(claims.len() as int) == claims,
        forall|k: int|
            0 <= k < count ==> exists|i: int|
                #![trigger inherited(claims, more, count)->0[i]]
                0 <= i < inherited(claims, more, count)->0.len() && (claims_agree(
                    inherited(claims, more, count)->0[i],
                    #[trigger] more[k],
                ) || inherited(claims, more, count)->0[i] == more[k]),
        forall|i: int|
            claims.len() <= i < inherited(claims, more, count)->0.len() ==> more.contains(
                #[trigger] inherited(claims, more, count)->0[i],
            ),
    decreases count,
{
    if count > 0 {
        inherited_claims_say_the_same(claims, more, (count - 1) as nat);
        let before = inherited(claims, more, (count - 1) as nat)->0;
        let all = inherited(claims, more, count)->0;
        let next = more[count - 1];
        first_where_meets(before, is_claim_of(next.acquisition_id@));
        assert(all.take(claims.len() as int) =~= before.take(claims.len() as int));
        assert forall|k: int| 0 <= k < count implies exists|i: int|
            #![trigger all[i]]
            0 <= i < all.len() && (claims_agree(all[i], #[trigger] more[k]) || all[i]
                == more[k]) by {
            if k < count - 1 {
                let i = choose|i: int|
                    #![trigger before[i]]
                    0 <= i < before.len() && (claims_agree(before[i], more[k]) || before[i]
                        == more[k]);
                assert(all[i] == before[i]);
            } else {
                match claim_at(before, next.acquisition_id@) {
                    Some(at) => {
                        assert(all[at] == before[at]);
                    },
                    None => {
                        assert(all[before.len() as int] == next);
                    },
                }
            }
        }
        assert forall|i: int| claims.len() <= i < all.len() implies more.contains(
            #[trigger] all[i],
        ) by {
            if i < before.len() {
                assert(all[i] == before[i]);
            } else {
                assert(more[count - 1] == all[i]);
            }
        }
    }
}

/// A descendant's claims go together only where its own acquisition is new to them all.
pub proof fn a_descendant_claims_a_new_acquisition(
    baseline: Seq<AcquisitionCoverage>,
    superseded: Seq<AcquisitionCoverage>,
    id: Seq<char>,
    i: int,
)
    requires
        claims_refusal(baseline, superseded, id) is None,
        0 <= i < inherited(baseline, superseded, superseded.len())->0.len(),
    ensures
        inherited(baseline, superseded, superseded.len()) is Some,
        inherited(baseline, superseded, superseded.len())->0[i].acquisition_id@ != id,
{
    let list = inherited(baseline, superseded, superseded.len())->0;
    let wanted = is_claim_of(id);
    first_where_meets(list, wanted);
    assert(!wanted(list[i]));
}

/// Every acquisition whose pages are carried has a claim, those that had none an empty one.
pub proof fn every_carried_acquisition_has_a_claim(
    claims: Seq<AcquisitionCoverage>,
    before: Seq<AcquisitionCoverage>,
    ids: Seq<Seq<char>>,
    source_identity: Seq<char>,
    k: int,
)
    requires
        mentions(claims, before, ids, source_identity),
        0 <= k < ids.len(),
    ensures
        exists|i: int| 0 <= i < claims.len() && (#[trigger] claims[i]).acquisition_id@ == ids[k],
        forall|i: int|
            before.len() <= i < claims.len() ==> (#[trigger] claims[i]).verified@.len() == 0
                && claims[i].requested@.len() == 0 && claims[i].unresolved@.len() == 0
                && claims[i].shortfalls@.len() == 0 && claims[i].source_identity@
                == source_identity,
        forall|i: int| 0 <= i < before.len() ==> #[trigger] claims[i] == before[i],
{
    mentioned_holds(ids_of(before), ids, ids.len(), k);
    let names = ids_of(claims);
    let i = choose|i: int| 0 <= i < names.len() && names[i] == ids[k];
    assert(claims[i].acquisition_id@ == ids[k]);
    assert forall|i: int| 0 <= i < before.len() implies #[trigger] claims[i] == before[i] by {
        assert(claims.take(before.len() as int)[i] == claims[i]);
    }
    assert forall|i: int| before.len() <= i < claims.len() implies (
    #[trigger] claims[i]).verified@.len() == 0 && claims[i].requested@.len() == 0
        && claims[i].unresolved@.len() == 0 && claims[i].shortfalls@.len() == 0
        && claims[i].source_identity@ == source_identity by {
        assert(claims_nothing(claims[i], source_identity));
    }
}

proof fn mentioned_holds(names: Seq<Seq<char>>, more: Seq<Seq<char>>, count: nat, k: int)
    requires
        count <= more.len(),
        0 <= k < count,
    ensures
        mentioned(names, more, count).contains(more[k]),
    decreases count,
{
    let before = mentioned(names, more, (count - 1) as nat);
    let all = mentioned(names, more, count);
    if k < count - 1 {
        mentioned_holds(names, more, (count - 1) as nat, k);
        let i = choose|i: int| 0 <= i < before.len() && before[i] == more[k];
        assert(all[i] == more[k]);
    } else if !before.contains(more[k]) {
        assert(all[all.len() - 1] == more[k]);
    }
}

/// A page carries a recorded response exactly where request, intent, digest, size, rows, token and
/// receipt time are the same, and the time was recorded.
pub proof fn a_page_carries_a_response_exactly(page: PageFact, request: PageReceipt)
    ensures
        carries(page, request) <==> {
            &&& request.occurrence matches Some(asked) && page.acquisition_id@
                == asked.acquisition_id@ && page.ordinal == asked.ordinal && text_of(page.intent)
                == text_of(asked.intent)
            &&& page.payload_sha256@ == request.sha256@
            &&& page.payload_bytes == request.bytes
            &&& page.rows == request.rows
            &&& text_of(page.request_token) == text_of(request.anchor)
            &&& page.receipt_time == Some(request.receipt_time)
            &&& page.recorded
        },
{
}

/// Pages carry all recorded responses only where each that is the last of its request stands in
/// one of the pages, byte for byte.
pub proof fn every_recorded_response_is_carried(
    pages: Seq<PageFact>,
    requests: Seq<PageReceipt>,
    i: int,
)
    requires
        carries_all(pages, requests),
        0 <= i < requests.len(),
        forall|j: int|
            i < j < requests.len() ==> !((#[trigger] requests[j]).occurrence is Some
                && requests[i].occurrence is Some && requests[j].occurrence->0.acquisition_id@
                == requests[i].occurrence->0.acquisition_id@ && requests[j].occurrence->0.ordinal
                == requests[i].occurrence->0.ordinal),
    ensures
        exists|p: int|
            0 <= p < pages.len() && (#[trigger] pages[p]).payload_sha256@ == requests[i].sha256@
                && pages[p].payload_bytes == requests[i].bytes && carries(pages[p], requests[i]),
{
    assert(is_last_request(requests, i));
    assert(is_carried(pages, requests[i]));
    let p = choose|p: int| 0 <= p < pages.len() && carries(#[trigger] pages[p], requests[i]);
    assert(pages[p].payload_sha256@ == requests[i].sha256@);
}

/// A retired generation is replaced only by a verified daily one of the same broker, symbol and
/// role, in its lineage, that carries every recorded response.
pub proof fn a_replacement_is_verified_and_complete(
    found: Replacement,
    generation: Seq<char>,
    seed: Seq<char>,
    coverage: HistoryCoverage,
    requests: Seq<PageReceipt>,
)
    ensures
        is_replacement(found, generation, seed, coverage, requests) <==> {
            &&& found.layout is Some
            &&& found.broker@ == coverage.broker@
            &&& found.provider_symbol@ == coverage.provider_symbol@
            &&& found.role == coverage.role
            &&& found.verified
            &&& carries_all(found.pages@, requests)
            &&& in_lineage(found.lineage, generation, seed)
        },
        in_lineage(found.lineage, generation, seed) <==> member_text(
            found.lineage,
            "root_generation"@,
        ) == Some(seed) || continued_seed(found.lineage) == Some(seed) || lists_text(
            found.lineage,
            "ancestors"@,
            generation,
        ) || lists_text(found.lineage, "ancestors"@, seed),
{
}

/// Without a seed, or where a recorded response does not tell its request, nothing is replaced.
pub proof fn nothing_is_replaced_without_identity(
    found: Seq<Result<Replacement, String>>,
    generation: Seq<char>,
    coverage: HistoryCoverage,
    requests: Seq<PageReceipt>,
)
    ensures
        is_replaced(found, generation, coverage, requests) ==> coverage.seed is Some && (forall|
            i: int,
        |
            0 <= i < requests.len() ==> (#[trigger] requests[i]).occurrence is Some) && exists|
            k: int,
        |
            0 <= k < found.len() && (#[trigger] found[k] matches Ok(replacement)
                && replacement.verified && carries_all(replacement.pages@, requests)),
{
    if is_replaced(found, generation, coverage, requests) {
        let k = choose|k: int|
            0 <= k < found.len() && (#[trigger] found[k] matches Ok(replacement) && is_replacement(
                replacement,
                generation,
                coverage.seed->0.generation@,
                coverage,
                requests,
            ));
        assert(found[k] matches Ok(replacement) && replacement.verified);
    }
}

/// A plan is surveyed only where something is left of it, its deletions are proven, and the
/// receipt closes its acquisition: it is not pending, and names the plan's intent and generation.
/// Progress is removed only where it is of that intent and its very bytes are those that were
/// pinned.
pub proof fn a_plan_is_surveyed_only_where_proven(
    plan: Reclamation,
    receipt: Seq<u8>,
    proven: bool,
    header: Option<&[u8]>,
    remove_progress: bool,
)
    requires
        begins(plan, receipt, proven, header, Ok(PlanStep::Survey { remove_progress })),
    ensures
        proven,
        exists|key: Seq<char>| #[trigger]
            plan.candidates@.dom().contains(key) && !plan.reclaimed@.dom().contains(key),
        exists|closing: Json|
            json_of(receipt) == Ok::<JsonView, Seq<char>>(#[trigger] view_of(closing)) && member(
                closing,
                "pending"@,
            ) == Some(Json::Bool(false)) && member_text(closing, "intent"@) == Some(plan.intent@)
                && member_text(closing, "dataset_generation"@) == Some(plan.generation@),
        remove_progress ==> (header matches Some(bytes) && plan.pending_header_sha256 is Some
            && plan.pending_header_sha256->0@ == crate::digest::hex(
            crate::digest::sha256(bytes@),
        ) && exists|progress: Json|
            json_of(bytes@) == Ok::<JsonView, Seq<char>>(#[trigger] view_of(progress))
                && member_text(progress, "intent"@) == Some(plan.intent@)),
{
    if forall|key: Seq<char>| !(#[trigger] plan.candidates@.dom().contains(key)
        && !plan.reclaimed@.dom().contains(key)) {
        assert(plan.left() =~= Set::<Seq<char>>::empty());
    }
    let view = json_of(receipt)->Ok_0;
    let closing = choose|closing: Json| #[trigger]
        view_of(closing) == view && (if !plan.is_closed_by(closing) {
            refusal(
                Ok::<PlanStep, String>(PlanStep::Survey { remove_progress }),
            ) == Some("reclamation receipt does not close this acquisition"@)
        } else if !proven {
            Ok::<PlanStep, String>(PlanStep::Survey { remove_progress }) == Ok::<PlanStep, String>(
                PlanStep::Skip,
            )
        } else {
            match header {
                None => Ok::<PlanStep, String>(PlanStep::Survey { remove_progress }) == Ok::<
                    PlanStep,
                    String,
                >(PlanStep::Survey { remove_progress: false }),
                Some(bytes) => match json_of(bytes@) {
                    Err(message) => refusal(
                        Ok::<PlanStep, String>(PlanStep::Survey { remove_progress }),
                    ) == Some(message),
                    Ok(view) => exists|progress: Json| #[trigger]
                        view_of(progress) == view && Ok::<PlanStep, String>(
                            PlanStep::Survey { remove_progress },
                        ) == Ok::<PlanStep, String>(
                            PlanStep::Survey { remove_progress: plan.owns(bytes@, progress) },
                        ),
                },
            }
        });
    assert(plan.is_closed_by(closing));
}

/// A request of another acquisition that refers to an object relies on it; a request of one's own
/// does not.
pub proof fn only_other_acquisitions_rely(
    request: Json,
    acquisitions: Set<Seq<char>>,
    key: Seq<char>,
)
    ensures
        relies_on(request, acquisitions, key) <==> crate::lineage::json::refers_to(request, key)
            && !(request_acquisition(request) is Some && acquisitions.contains(
            request_acquisition(request)->0,
        )),
{
}

/// A job lets a reclamation go on exactly where no response of it was left unresolved and, where
/// it has a header, header and lines all parse. What its header or a line refers to is pinned.
pub proof fn a_job_pins_what_it_refers_to(job: PendingJob, key: Seq<char>)
    ensures
        job_scan(job) == Ok::<Scan, Seq<char>>(Scan::Continue) <==> (forall|i: int|
            0 <= i < job.names@.len() ==> !begins_with(
                (#[trigger] job.names@[i])@,
                "unresolved-received-"@,
            )) && (job.header matches Some(header) ==> json_of(header@) is Ok && forall|i: int|
            0 <= i < job.lines@.len() ==> json_of((#[trigger] job.lines@[i])@) is Ok),
        job.header is None ==> !job_refers(job, key),
        job.header matches Some(header) ==> (job_refers(job, key)
            <==> crate::lineage::reclaim::bytes_refer(header@, key) || exists|i: int|
            0 <= i < job.lines@.len() && crate::lineage::reclaim::bytes_refer(
                (#[trigger] job.lines@[i])@,
                key,
            )),
{
}

} // verus!
