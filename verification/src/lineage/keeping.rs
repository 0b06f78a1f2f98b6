//! What holds of everything that is kept: which snapshots stay, which days are written anew, and
//! what the provenance of an import says.

use crate::fetch::coverage::{OccurrenceIdentity, PageReceipt, SeedLineage};
use crate::fetch::rows::DailyBar;
use crate::lineage::catalog::{bound_alike, is_cumulative, pins, pins_record, Bound, Pinned};
use crate::lineage::days::{DayFamily, DayInventoryEntry};
use crate::lineage::descend::continues_lineage;
use crate::lineage::document::Original;
use crate::lineage::json::{
    json_of, member, member_integer, member_set, member_text, refers_to, view_of, Json, JsonView,
};
use crate::lineage::migration::MigrationRecord;
use crate::lineage::occurrences::is_retained;
use crate::lineage::reclaim::{
    acquisitions_of, bytes_refer, manifest_refers, receipt_relies, record_relies, relies_on,
};
use crate::lineage::snapshots::{
    is_stored_day, keeps_day, superseded_among, supersedes, PageDay, Snapshot,
};
use crate::lineage::sources::{
    day_said, days_said, entry_said, has_entry, offset_said, record_of, source_refusal,
    tells_collection, tells_day,
};
use crate::lineage::writing::{observes, placed, reads_back, Placement};
use crate::search::first_where_meets;
use crate::text::{finishes_with, text_of};
use vstd::prelude::*;

verus! {

/// A newer snapshot retains a day exactly where the day stores nothing, or the first stored day of
/// its date is the same object or holds every page of it.
pub proof fn a_day_is_kept_by_its_pages(old: PageDay, new: Seq<PageDay>)
    ensures
        old.object is None ==> keeps_day(old, new),
        old.object is Some && keeps_day(old, new) ==> exists|at: int|
            0 <= at < new.len() && (#[trigger] new[at]).object is Some && new[at].date@ == old.date@
                && (text_of(new[at].object) == text_of(old.object) || forall|i: int|
                0 <= i < old.pages@.len() ==> is_retained(#[trigger] old.pages@[i], new[at].pages@)),
        old.object is Some && (forall|at: int|
            0 <= at < new.len() && (#[trigger] new[at]).object is Some ==> new[at].date@
                != old.date@) ==> !keeps_day(old, new),
        (exists|at: int|
            0 <= at < new.len() && (#[trigger] new[at]).object is Some && new[at].date@
                == old.date@) && (forall|at: int|
            0 <= at < new.len() && (#[trigger] new[at]).object is Some && new[at].date@
                == old.date@ ==> text_of(new[at].object) == text_of(old.object) || forall|i: int|
                0 <= i < old.pages@.len() ==> is_retained(#[trigger] old.pages@[i], new[at].pages@))
            ==> keeps_day(old, new),
{
    let wanted = is_stored_day(old.date@);
    first_where_meets(new, wanted);
    match crate::search::first_where(new, wanted) {
        Some(at) => {
            assert(new[at].object is Some && new[at].date@ == old.date@);
        },
        None => {
            assert forall|at: int| 0 <= at < new.len() && (#[trigger] new[at]).object
                is Some implies new[at].date@ != old.date@ by {
                assert(!wanted(new[at]));
            }
        },
    }
}

/// A snapshot supersedes another exactly where both continue one known intent, and it has at
/// least its rows, reaches at least as far both ways, and retains each of its days.
pub proof fn a_snapshot_supersedes_what_it_holds(new: Snapshot, old: Snapshot)
    ensures
        supersedes(new, old) <==> {
            &&& new.intent is Some && old.intent is Some
            &&& new.intent->0@ == old.intent->0@
            &&& new.rows >= old.rows
            &&& new.first <= old.first
            &&& new.last >= old.last
            &&& forall|i: int|
                0 <= i < old.days@.len() ==> keeps_day(#[trigger] old.days@[i], new.days@)
        },
{
}

/// The snapshots that one supersedes are listed in order, each once, and no other is.
pub proof fn every_superseded_snapshot_is_listed(
    new: Snapshot,
    list: Seq<Snapshot>,
    count: nat,
    at: int,
)
    ensures
        superseded_among(new, list, count).contains(at) <==> 0 <= at < count && supersedes(
            new,
            list[at],
        ),
        forall|i: int, j: int|
            0 <= i < j < superseded_among(new, list, count).len() ==> #[trigger] superseded_among(
                new,
                list,
                count,
            )[i] < #[trigger] superseded_among(new, list, count)[j],
    decreases count,
{
    if count > 0 {
        let fewer = (count - 1) as nat;
        every_superseded_snapshot_is_listed(new, list, fewer, at);
        let before = superseded_among(new, list, fewer);
        let all = superseded_among(new, list, count);
        if all.contains(at) {
            let k = choose|k: int| 0 <= k < all.len() && all[k] == at;
            if k < before.len() {
                assert(before[k] == at);
                assert(before.contains(at));
            }
        }
        if 0 <= at < count && supersedes(new, list[at]) {
            if at < fewer {
                let k = choose|k: int| 0 <= k < before.len() && before[k] == at;
                assert(all[k] == at);
            } else {
                assert(all[all.len() - 1] == at);
            }
        }
        assert forall|i: int, j: int| 0 <= i < j < all.len() implies #[trigger] all[i]
            < #[trigger] all[j] by {
            if j < before.len() {
                assert(before[i] < before[j]);
            } else {
                every_superseded_snapshot_is_listed(new, list, fewer, all[i]);
                assert(before[i] == all[i]);
                assert(before.contains(all[i]));
            }
        }
    }
}

/// A day of the baseline is kept exactly where it holds the observations of the date, with as many
/// rows from the same first moment to the same last one; a day that is written replaces the
/// baseline's day of the date, where there is one.
pub proof fn a_day_is_written_where_it_changed(
    days: Seq<DayInventoryEntry>,
    date: Seq<char>,
    rows: nat,
    first: i64,
    last: i64,
    placement: Placement,
)
    requires
        placed(days, date, rows, first, last, placement),
    ensures
        (placement matches Placement::Kept(at) ==> at < days.len() && days[at as int].family
            == DayFamily::Observations && days[at as int].date@ == date && days[at as int].rows
            == rows && days[at as int].first_time == Some(first) && days[at as int].last_time
            == Some(last)),
        (placement matches Placement::Written(Some(at)) ==> at < days.len()
            && days[at as int].family == DayFamily::Observations && days[at as int].date@ == date
            && !(days[at as int].rows == rows && days[at as int].first_time == Some(first)
            && days[at as int].last_time == Some(last))),
        (placement matches Placement::Written(None) ==> forall|i: int|
            0 <= i < days.len() && (#[trigger] days[i]).family == DayFamily::Observations
                ==> days[i].date@ != date),
{
    let wanted = observes(date);
    first_where_meets(days, wanted);
    if crate::search::first_where(days, wanted) is None {
        assert forall|i: int| 0 <= i < days.len() && (#[trigger] days[i]).family
            == DayFamily::Observations implies days[i].date@ != date by {
            assert(!wanted(days[i]));
        }
    }
}

/// Bars read back exactly where there are as many, each with the columns that were written.
pub proof fn bars_read_back_column_by_column(
    written: Seq<DailyBar>,
    read: Seq<DailyBar>,
)
    ensures
        reads_back(written, read) <==> {
            &&& written.len() == read.len()
            &&& forall|i: int|
                0 <= i < written.len() ==> {
                    &&& text_of((#[trigger] written[i]).symbol) == text_of(read[i].symbol)
                    &&& written[i].symbol_id == read[i].symbol_id
                    &&& written[i].timestamp_utc == read[i].timestamp_utc
                    &&& written[i].unix_utc_s == read[i].unix_utc_s
                    &&& written[i].server_time_s == read[i].server_time_s
                    &&& written[i].open == read[i].open
                    &&& written[i].high == read[i].high
                    &&& written[i].low == read[i].low
                    &&& written[i].close == read[i].close
                    &&& written[i].volume == read[i].volume
                    &&& written[i].period_s == read[i].period_s
                }
        },
{
    if written.len() == read.len() && forall|i: int|
        0 <= i < written.len() ==> {
            &&& text_of((#[trigger] written[i]).symbol) == text_of(read[i].symbol)
            &&& written[i].symbol_id == read[i].symbol_id
            &&& written[i].timestamp_utc == read[i].timestamp_utc
            &&& written[i].unix_utc_s == read[i].unix_utc_s
            &&& written[i].server_time_s == read[i].server_time_s
            &&& written[i].open == read[i].open
            &&& written[i].high == read[i].high
            &&& written[i].low == read[i].low
            &&& written[i].close == read[i].close
            &&& written[i].volume == read[i].volume
            &&& written[i].period_s == read[i].period_s
        } {
        assert(reads_back(written, read));
    }
}

/// An object of the provenance speaks of a day exactly where its path ends as that of metadata
/// does; one that speaks of nothing is never refused, and one that does not decode, or names no
/// day where it speaks of one, always is.
pub proof fn provenance_is_refused_where_it_says_nothing(original: Original)
    ensures
        tells_day(original) <==> original.object.role is Provenance && finishes_with(
            original.object.path@,
            ".meta.json"@,
        ),
        tells_collection(original) ==> original.object.role is Provenance,
        source_refusal(original) is None <==> {
            ||| !tells_day(original) && !tells_collection(original)
            ||| json_of(original.content@) is Ok && (tells_day(original) ==> member_text(
                record_of(original.content@),
                "date"@,
            ) is Some)
        },
{
}

/// Whether an object speaks of a day.
pub open spec fn speaks_of(original: Original, date: Seq<char>) -> bool {
    tells_day(original) && member_text(record_of(original.content@), "date"@)->0 == date
}

/// A day is known exactly where some object speaks of it, and what is known of it is the four
/// flags of the last that does.
pub proof fn the_last_word_on_a_day_stands(
    originals: Seq<Original>,
    count: nat,
    date: Seq<char>,
)
    requires
        count <= originals.len(),
    ensures
        days_said(originals, count).dom().contains(date) <==> exists|i: int|
            0 <= i < count && speaks_of(#[trigger] originals[i], date),
        forall|i: int|
            0 <= i < count && speaks_of(#[trigger] originals[i], date) && (forall|j: int|
                i < j < count ==> !speaks_of(#[trigger] originals[j], date)) ==> {
                let known = days_said(originals, count)[date];
                let said = record_of(originals[i].content@);
                &&& known.complete == member_set(said, "complete"@)
                &&& known.clipped_by_retention == member_set(said, "clipped_by_retention"@)
                &&& known.clipped_by_now == member_set(said, "clipped_by_now"@)
                &&& known.market_closed == member_set(said, "market_closed"@)
            },
    decreases count,
{
    if count > 0 {
        let fewer = (count - 1) as nat;
        the_last_word_on_a_day_stands(originals, fewer, date);
        let last = originals[count - 1];
        let before = days_said(originals, fewer);
        let all = days_said(originals, count);
        if speaks_of(last, date) {
            assert(all[date] == day_said(last.content@));
        } else {
            assert(all.dom().contains(date) == before.dom().contains(date));
            assert(before.dom().contains(date) ==> all[date] == before[date]);
        }
        assert forall|i: int|
            0 <= i < count && speaks_of(#[trigger] originals[i], date) && (forall|j: int|
                i < j < count ==> !speaks_of(#[trigger] originals[j], date)) implies {
            let known = all[date];
            let said = record_of(originals[i].content@);
            &&& known.complete == member_set(said, "complete"@)
            &&& known.clipped_by_retention == member_set(said, "clipped_by_retention"@)
            &&& known.clipped_by_now == member_set(said, "clipped_by_now"@)
            &&& known.market_closed == member_set(said, "market_closed"@)
        } by {
            if i < fewer {
                assert(!speaks_of(originals[count - 1], date));
                assert(before.dom().contains(date));
            }
        }
    }
}

/// The provider's offset is that of the last record of a shared collection that gives one; where
/// none does, there is none.
pub proof fn the_last_offset_stands(
    originals: Seq<Original>,
    count: nat,
)
    requires
        count <= originals.len(),
    ensures
        forall|i: int|
            0 <= i < count && gives_offset(#[trigger] originals[i]) is Some && (forall|j: int|
                i < j < count ==> gives_offset(#[trigger] originals[j]) is None) ==> offset_said(
                originals,
                count,
            ) == gives_offset(originals[i]),
        (forall|i: int| 0 <= i < count ==> gives_offset(#[trigger] originals[i]) is None)
            ==> offset_said(originals, count) is None,
    decreases count,
{
    if count > 0 {
        let fewer = (count - 1) as nat;
        the_last_offset_stands(originals, fewer);
        assert forall|i: int|
            0 <= i < count && gives_offset(#[trigger] originals[i]) is Some && (forall|j: int|
                i < j < count ==> gives_offset(#[trigger] originals[j]) is None) implies offset_said(
            originals,
            count,
        ) == gives_offset(originals[i]) by {
            if i < fewer {
                assert(gives_offset(originals[count - 1]) is None);
            }
        }
        if forall|i: int| 0 <= i < count ==> gives_offset(#[trigger] originals[i]) is None {
            assert(gives_offset(originals[count - 1]) is None);
        }
    }
}

/// The offset that an object gives.
pub open spec fn gives_offset(original: Original) -> Option<int> {
    if tells_collection(original) {
        member_integer(record_of(original.content@), "server_timestamp_offset_seconds"@)
    } else {
        None
    }
}

/// An object that is no record of a shared collection has no entry, and every object has the entry
/// that it says.
pub proof fn only_collections_have_entries(
    original: Original,
    symbol: Seq<char>,
)
    ensures
        !tells_collection(original) ==> (has_entry(original, symbol) <==> original.entry is None),
        has_entry(original, symbol) && original.entry is Some ==> tells_collection(original)
            && entry_said(original, symbol) is Some,
        has_entry(original, symbol) && original.entry is None ==> entry_said(original, symbol)
            is None,
{
}

/// An entry pins an object by its key, its size and its digest, all three; two manifests are bound
/// alike exactly where generation, instrument, role and layout are; and a catalog is cumulative
/// exactly where it pins every record of its job under the record's name.
pub proof fn a_catalog_pins_by_key_size_and_digest(
    entry: Pinned,
    key: Seq<char>,
    bytes: u64,
    sha256: Seq<char>,
    a: Bound<'_>,
    b: Bound<'_>,
    records: Map<Seq<char>, MigrationRecord>,
    job: Seq<char>,
    entries: Seq<Pinned>,
)
    ensures
        pins(entry, key, bytes, sha256) ==> entry.key@ == key && entry.bytes == bytes
            && entry.sha256@ == sha256,
        pins(entry, entry.key@, entry.bytes, entry.sha256@),
        bound_alike(a, b) <==> a.generation@ == b.generation@ && a.instrument@ == b.instrument@
            && a.role == b.role && a.layout == b.layout,
        is_cumulative(records, job, entries) <==> forall|name: Seq<char>| #[trigger]
            records.dom().contains(name) && records[name].job@ == job ==> exists|i: int|
                0 <= i < entries.len() && (#[trigger] entries[i]).key@ == "records/"@ + name,
{
    if is_cumulative(records, job, entries) {
        assert forall|name: Seq<char>| #[trigger]
            records.dom().contains(name) && records[name].job@ == job implies exists|i: int|
            0 <= i < entries.len() && (#[trigger] entries[i]).key@ == "records/"@ + name by {
            assert(pins_record(entries, name));
        }
    }
    if forall|name: Seq<char>| #[trigger]
        records.dom().contains(name) && records[name].job@ == job ==> exists|i: int|
            0 <= i < entries.len() && (#[trigger] entries[i]).key@ == "records/"@ + name {
        assert forall|name: Seq<char>| #[trigger]
            records.dom().contains(name) && records[name].job@ == job implies pins_record(
            entries,
            name,
        ) by {
            assert(exists|i: int|
                0 <= i < entries.len() && (#[trigger] entries[i]).key@ == "records/"@ + name);
        }
    }
}

/// A continued lineage names its parent, keeps its root, where it has one, says by which
/// acquisition, for which intent and from which seed it continues, and leaves everything else as
/// it was.
pub proof fn a_continued_lineage_says_how(
    lineage: Json,
    before: Json,
    baseline: Seq<char>,
    superseded: Seq<String>,
    acquisition: OccurrenceIdentity,
    seed: Option<SeedLineage>,
    name: Seq<char>,
)
    requires
        continues_lineage(lineage, before, baseline, superseded, acquisition, seed),
    ensures
        member_text(lineage, "parent_generation"@) == Some(baseline),
        member_text(before, "root_generation"@) is Some ==> member_text(
            lineage,
            "root_generation"@,
        ) == member_text(before, "root_generation"@),
        member_text(before, "root_generation"@) is None ==> member_text(
            lineage,
            "root_generation"@,
        ) == Some(baseline),
        member(lineage, "continuation"@) is Some,
        member_text(member(lineage, "continuation"@)->0, "acquisition_id"@) == Some(
            acquisition.acquisition_id@,
        ),
        (acquisition.intent matches Some(intent) ==> member_text(
            member(lineage, "continuation"@)->0,
            "intent"@,
        ) == Some(intent@)),
        acquisition.intent is None ==> member(member(lineage, "continuation"@)->0, "intent"@)
            == Some(Json::Null),
        (seed matches Some(seed) ==> member(
            member(lineage, "continuation"@)->0,
            "seed"@,
        ) is Some && member_text(
            member(member(lineage, "continuation"@)->0, "seed"@)->0,
            "generation"@,
        ) == Some(seed.generation@) && member_text(
            member(member(lineage, "continuation"@)->0, "seed"@)->0,
            "source_identity"@,
        ) == Some(seed.source_identity@)),
        seed is None ==> member(member(lineage, "continuation"@)->0, "seed"@) == Some(Json::Null),
        name != "ancestors"@ && name != "parent_generation"@ && name != "root_generation"@ && name
            != "continuation"@ ==> member(lineage, name) == member(before, name),
        (member(lineage, "ancestors"@) matches Some(Json::Array(names)) && forall|i: int|
            0 <= i < names@.len() ==> #[trigger] names@[i] is Text),
{
}

/// The acquisitions of responses are those that some response names.
pub proof fn acquisitions_are_those_of_responses(requests: Seq<PageReceipt>, id: Seq<char>)
    ensures
        acquisitions_of(requests).contains(id) <==> exists|i: int|
            0 <= i < requests.len() && (#[trigger] requests[i]).occurrence is Some
                && requests[i].occurrence->0.acquisition_id@ == id,
{
}

/// Bytes refer to a key only through a value that they decode to and that refers to it: what does
/// not decode refers to nothing, and a manifest refers to nothing but through its objects.
pub proof fn what_does_not_decode_refers_to_nothing(
    bytes: Seq<u8>,
    key: Seq<char>,
    value: Json,
    acquisitions: Set<Seq<char>>,
)
    ensures
        json_of(bytes) is Err ==> !bytes_refer(bytes, key) && !manifest_refers(bytes, key)
            && !receipt_relies(bytes, acquisitions, key),
        json_of(bytes) == Ok::<JsonView, Seq<char>>(view_of(value)) && refers_to(value, key)
            ==> bytes_refer(bytes, key),
        bytes_refer(bytes, key) ==> exists|found: Json|
            json_of(bytes) == Ok::<JsonView, Seq<char>>(#[trigger] view_of(found)) && refers_to(
                found,
                key,
            ),
        manifest_refers(bytes, key) ==> exists|found: Json|
            json_of(bytes) == Ok::<JsonView, Seq<char>>(#[trigger] view_of(found)) && (member(
                found,
                "objects"@,
            ) matches Some(objects) && refers_to(objects, key)),
        receipt_relies(bytes, acquisitions, key) ==> exists|found: Json|
            json_of(bytes) == Ok::<JsonView, Seq<char>>(#[trigger] view_of(found)) && (member(
                found,
                "requests"@,
            ) matches Some(Json::Array(requests)) && exists|i: int|
                0 <= i < requests@.len() && relies_on(#[trigger] requests@[i], acquisitions, key)),
{
    if receipt_relies(bytes, acquisitions, key) {
        let found = choose|found: Json|
            json_of(bytes) == Ok::<JsonView, Seq<char>>(#[trigger] view_of(found))
                && record_relies(found, acquisitions, key);
        assert(json_of(bytes) == Ok::<JsonView, Seq<char>>(view_of(found)));
    }
}

} // verus!
