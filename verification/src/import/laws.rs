//! What holds of every import: which files are accepted, what they amount to, how they are
//! planned, and where they may lie.

use crate::dataset::{Input, ObjectIdentity, ObjectRecord, ObjectRole};
use crate::import::bars::{
    all_rows, first_unlisted, gathered, wrong_bars, BarSummary, DataSummary,
};
use crate::import::collection::{
    beside, declares, first_lacking, first_repeat, planned_paths, ListedFile, PlannedFile,
};
use crate::import::daily::{
    daily_name, unplannable, with_file, wrong_metadata, DailyMetadata, DayFiles, METADATA_SUFFIX,
    PARQUET_SUFFIX,
};
use crate::import::paths::{
    beneath, beneath_any, escaped, hex_numeral, holds_control, overlaps_any, wrong_dir, wrong_file,
    wrong_root, ResolvedPath,
};
use crate::import::publish::{are_inputs, are_records, first_changed};
use crate::lineage::json::{member_integer, member_text, Json};
use vstd::prelude::*;

verus! {

/// Data and data after them hold the rows of both, start where the first start and end where the
/// last end.
pub proof fn more_data_come_after(before: DataSummary, more: DataSummary)
    requires
        before.rows + more.rows <= u64::MAX,
    ensures
        before.extended(more).rows == before.rows + more.rows,
        before.first_event_micros is Some ==> before.extended(more).first_event_micros
            == before.first_event_micros,
        before.first_event_micros is None ==> before.extended(more).first_event_micros
            == more.first_event_micros,
        more.last_event_micros is Some ==> before.extended(more).last_event_micros
            == more.last_event_micros,
        more.last_event_micros is None ==> before.extended(more).last_event_micros
            == before.last_event_micros,
{
}

/// Retained files are accepted exactly where each has the size and the digest that are listed in
/// its place.
pub proof fn retained_files_are_the_listed_ones(
    records: Seq<ObjectRecord>,
    listed: Seq<ListedFile>,
    n: int,
)
    ensures
        first_unlisted(records, listed, n) is None <==> forall|i: int|
            0 <= i < n ==> (#[trigger] records[i]).bytes == listed[i].bytes && records[i].sha256@
                == listed[i].sha256@,
    decreases n,
{
    if n > 0 {
        retained_files_are_the_listed_ones(records, listed, n - 1);
        if first_unlisted(records, listed, n) is None {
            assert forall|i: int| 0 <= i < n implies (#[trigger] records[i]).bytes
                == listed[i].bytes && records[i].sha256@ == listed[i].sha256@ by {
                if i < n - 1 {
                    assert(records[i].bytes == listed[i].bytes);
                }
            }
        } else if first_unlisted(records, listed, n - 1) is None {
            assert(records[n - 1].bytes != listed[n - 1].bytes || records[n - 1].sha256@
                != listed[n - 1].sha256@);
        }
    }
}

/// What accepted files amount to: the rows of all of them, from the first bar of the first file
/// that has one to the last bar of the last file that has one; and the interval contract is
/// everywhere exactly where every file holds it.
pub proof fn files_amount_to_all_of_them(
    listed: Seq<ListedFile>,
    summaries: Seq<BarSummary>,
    n: int,
)
    requires
        0 <= n <= summaries.len(),
        all_rows(summaries.take(n)) <= u64::MAX,
        gathered(listed, summaries, n).2 is None,
    ensures
        gathered(listed, summaries, n).0.rows == all_rows(summaries.take(n)),
        gathered(listed, summaries, n).1 <==> forall|i: int|
            0 <= i < n ==> (#[trigger] summaries[i]).embedded_interval,
        gathered(listed, summaries, n).0.first_event_micros is None <==> forall|i: int|
            0 <= i < n ==> (#[trigger] summaries[i]).data.first_event_micros is None,
        gathered(listed, summaries, n).0.last_event_micros is None <==> forall|i: int|
            0 <= i < n ==> (#[trigger] summaries[i]).data.last_event_micros is None,
        forall|i: int|
            0 <= i < n && (#[trigger] summaries[i]).data.first_event_micros is Some && (forall|
                j: int,
            |
                0 <= j < i ==> (#[trigger] summaries[j]).data.first_event_micros is None)
                ==> gathered(listed, summaries, n).0.first_event_micros
                == summaries[i].data.first_event_micros,
        forall|i: int|
            0 <= i < n && (#[trigger] summaries[i]).data.last_event_micros is Some && (forall|
                j: int,
            |
                i < j < n ==> (#[trigger] summaries[j]).data.last_event_micros is None)
                ==> gathered(listed, summaries, n).0.last_event_micros
                == summaries[i].data.last_event_micros,
        forall|i: int| 0 <= i < n ==> (#[trigger] summaries[i]).data.rows == listed[i].rows,
    decreases n,
{
    if n > 0 {
        assert(summaries.take(n).drop_last() == summaries.take(n - 1));
        assert(summaries.take(n).last() == summaries[n - 1]);
        assert(all_rows(summaries.take(n)) == all_rows(summaries.take(n - 1))
            + summaries[n - 1].data.rows);
        files_amount_to_all_of_them(listed, summaries, n - 1);
        let before = gathered(listed, summaries, n - 1);
        let total = gathered(listed, summaries, n);
        let data = summaries[n - 1].data;
        assert(total.0 == before.0.extended(data));
        assert(total.1 == (before.1 && summaries[n - 1].embedded_interval));
        if before.1 && summaries[n - 1].embedded_interval {
            assert forall|i: int| 0 <= i < n implies (#[trigger] summaries[i]).embedded_interval by {
                if i < n - 1 {
                    assert(summaries[i].embedded_interval);
                }
            }
        }
        if total.0.first_event_micros is None {
            assert forall|i: int| 0 <= i < n implies (#[trigger] summaries[i]).data
                .first_event_micros is None by {
                if i < n - 1 {
                    assert(summaries[i].data.first_event_micros is None);
                }
            }
        }
        if total.0.last_event_micros is None {
            assert forall|i: int| 0 <= i < n implies (#[trigger] summaries[i]).data
                .last_event_micros is None by {
                if i < n - 1 {
                    assert(summaries[i].data.last_event_micros is None);
                }
            }
        }
        assert forall|i: int|
            0 <= i < n && (#[trigger] summaries[i]).data.first_event_micros is Some && (forall|
                j: int,
            |
                0 <= j < i ==> (#[trigger] summaries[j]).data.first_event_micros is None) implies total.0.first_event_micros
            == summaries[i].data.first_event_micros by {
            if i < n - 1 {
                assert(before.0.first_event_micros == summaries[i].data.first_event_micros);
            } else {
                assert(before.0.first_event_micros is None);
            }
        }
        assert forall|i: int|
            0 <= i < n && (#[trigger] summaries[i]).data.last_event_micros is Some && (forall|
                j: int,
            |
                i < j < n ==> (#[trigger] summaries[j]).data.last_event_micros is None) implies total.0.last_event_micros
            == summaries[i].data.last_event_micros by {
            if i < n - 1 {
                assert(summaries[n - 1].data.last_event_micros is None);
                assert forall|j: int| i < j < n - 1 implies (#[trigger] summaries[j]).data
                    .last_event_micros is None by {
                    assert(summaries[j].data.last_event_micros is None);
                }
                assert(before.0.last_event_micros == summaries[i].data.last_event_micros);
            }
        }
        assert forall|i: int| 0 <= i < n implies (#[trigger] summaries[i]).data.rows
            == listed[i].rows by {
            if i < n - 1 {
                assert(summaries[i].data.rows == listed[i].rows);
            }
        }
    } else {
        assert(summaries.take(0).len() == 0);
    }
}

/// Files that each hold the listed rows, have their bars in order and follow each other in time
/// are accepted together.
pub proof fn files_in_order_are_accepted(
    listed: Seq<ListedFile>,
    summaries: Seq<BarSummary>,
    n: int,
)
    requires
        0 <= n <= summaries.len(),
        all_rows(summaries.take(n)) <= u64::MAX,
        forall|i: int| 0 <= i < n ==> (#[trigger] summaries[i]).data.rows == listed[i].rows,
        forall|i: int, j: int|
            0 <= i < j < n && (#[trigger] summaries[i]).data.last_event_micros is Some && (
            #[trigger] summaries[j]).data.first_event_micros is Some
                ==> summaries[i].data.last_event_micros->0
                < summaries[j].data.first_event_micros->0,
    ensures
        gathered(listed, summaries, n).2 is None,
    decreases n,
{
    if n > 0 {
        assert(summaries.take(n).drop_last() == summaries.take(n - 1));
        assert(summaries.take(n).last() == summaries[n - 1]);
        files_in_order_are_accepted(listed, summaries, n - 1);
        let before = gathered(listed, summaries, n - 1);
        last_is_of_a_file(listed, summaries, n - 1);
        if before.0.last_event_micros is Some {
            let i = choose|i: int|
                0 <= i < n - 1 && (#[trigger] summaries[i]).data.last_event_micros
                    == before.0.last_event_micros;
            assert(summaries[i].data.last_event_micros is Some);
            assert(summaries[n - 1].data.rows == listed[n - 1].rows);
        }
    }
}

proof fn last_is_of_a_file(listed: Seq<ListedFile>, summaries: Seq<BarSummary>, n: int)
    ensures
        gathered(listed, summaries, n).0.last_event_micros is Some ==> exists|i: int|
            0 <= i < n && (#[trigger] summaries[i]).data.last_event_micros == gathered(
                listed,
                summaries,
                n,
            ).0.last_event_micros,
    decreases n,
{
    if n > 0 {
        last_is_of_a_file(listed, summaries, n - 1);
        assert(summaries[n - 1].data.last_event_micros
            == summaries[n - 1].data.last_event_micros);
    }
}

/// A dataset whose files are accepted holds exactly the recorded number of rows.
pub proof fn a_dataset_holds_the_recorded_rows(
    instrument: Seq<char>,
    listed: Seq<ListedFile>,
    summaries: Seq<BarSummary>,
    canonical_rows: u64,
)
    requires
        all_rows(summaries) <= u64::MAX,
    ensures
        wrong_bars(instrument, listed, summaries, canonical_rows) is None ==> all_rows(summaries)
            == canonical_rows,
        gathered(listed, summaries, summaries.len() as int).2 is None && all_rows(summaries)
            == canonical_rows ==> wrong_bars(instrument, listed, summaries, canonical_rows) is None,
{
    let n = summaries.len() as int;
    assert(summaries.take(n) == summaries);
    if gathered(listed, summaries, n).2 is None {
        files_amount_to_all_of_them(listed, summaries, n);
    }
}

/// What is kept beside the listed files is every walked file whose path is not listed, as
/// provenance, and nothing else.
pub proof fn what_is_beside_is_provenance(
    walked: Seq<PlannedFile>,
    listed: Seq<PlannedFile>,
    file: PlannedFile,
)
    ensures
        beside(walked, listed).contains(file) <==> {
            &&& file.role == ObjectRole::Provenance
            &&& !planned_paths(listed).contains(file.path@)
            &&& exists|j: int|
                0 <= j < walked.len() && (#[trigger] walked[j]).path == file.path
                    && walked[j].absolute == file.absolute
        },
    decreases walked.len(),
{
    if walked.len() > 0 {
        let fewer = walked.drop_last();
        let last = walked.last();
        what_is_beside_is_provenance(fewer, listed, file);
        let rest = beside(fewer, listed);
        let all = beside(walked, listed);
        let kept = PlannedFile { role: ObjectRole::Provenance, ..last };
        if all.contains(file) {
            let i = choose|i: int| 0 <= i < all.len() && all[i] == file;
            if i < rest.len() {
                assert(rest[i] == file);
                assert(rest.contains(file));
                let j = choose|j: int|
                    0 <= j < fewer.len() && (#[trigger] fewer[j]).path == file.path
                        && fewer[j].absolute == file.absolute;
                assert(walked[j] == fewer[j]);
            } else {
                assert(walked[walked.len() - 1].path == file.path);
            }
        }
        if file.role == ObjectRole::Provenance && !planned_paths(listed).contains(file.path@)
            && exists|j: int|
            0 <= j < walked.len() && (#[trigger] walked[j]).path == file.path && walked[j].absolute
                == file.absolute {
            let j = choose|j: int|
                0 <= j < walked.len() && (#[trigger] walked[j]).path == file.path
                    && walked[j].absolute == file.absolute;
            if j < fewer.len() {
                assert(fewer[j] == walked[j]);
                assert(rest.contains(file));
                let i = choose|i: int| 0 <= i < rest.len() && rest[i] == file;
                assert(all[i] == file);
            } else {
                assert(kept == file);
                assert(all[all.len() - 1] == file);
            }
        }
    }
}

/// Paths are refused exactly where one stands twice.
pub proof fn a_repeat_is_a_path_that_stands_twice(paths: Seq<Seq<char>>)
    ensures
        first_repeat(paths) is None <==> paths.no_duplicates(),
        first_repeat(paths) matches Some(at) ==> 0 <= at < paths.len() && exists|i: int|
            0 <= i < at && #[trigger] paths[i] == paths[at],
    decreases paths.len(),
{
    if paths.len() > 0 {
        let fewer = paths.drop_last();
        a_repeat_is_a_path_that_stands_twice(fewer);
        if let Some(at) = first_repeat(fewer) {
            let i = choose|i: int| 0 <= i < at && #[trigger] fewer[i] == fewer[at];
            assert(paths[i] == fewer[i] && paths[at] == fewer[at]);
            assert(paths[i] == paths[at]);
        } else if fewer.contains(paths.last()) {
            let i = choose|i: int| 0 <= i < fewer.len() && fewer[i] == paths.last();
            assert(paths[i] == paths[paths.len() - 1]);
        } else {
            assert forall|i: int, j: int|
                0 <= i < paths.len() && 0 <= j < paths.len() && i != j implies paths[i]
                != paths[j] by {
                if i < fewer.len() && j < fewer.len() {
                    assert(fewer[i] != fewer[j]);
                } else if i < fewer.len() {
                    assert(fewer[i] == paths[i]);
                    assert(fewer.contains(fewer[i]));
                } else {
                    assert(fewer[j] == paths[j]);
                    assert(fewer.contains(fewer[j]));
                }
            }
        }
    }
}

/// A declared contract is taken exactly where all its seven members are there, and what is taken
/// of it is each of them.
pub proof fn a_contract_lacks_no_member(declared: Json)
    ensures
        first_lacking(declared) is None <==> {
            &&& member_text(declared, "closed"@) is Some
            &&& member_text(declared, "frequency"@) is Some
            &&& member_text(declared, "interval"@) is Some
            &&& member_text(declared, "label"@) is Some
            &&& member_integer(declared, "offset_seconds"@) is Some
            &&& member_text(declared, "origin"@) is Some
            &&& member_text(declared, "timestamp_semantics"@) is Some
        },
        first_lacking(declared) matches Some(name) ==> member_text(declared, name) is None
            || member_integer(declared, name) is None,
{
}

/// Two contracts that one declaration yields say the same.
pub proof fn a_declaration_yields_one_contract(
    declared: Json,
    provenance: Seq<char>,
    one: crate::dataset::IntervalContract,
    other: crate::dataset::IntervalContract,
)
    requires
        declares(declared, provenance, one),
        declares(declared, provenance, other),
    ensures
        one.closed@ == other.closed@,
        one.frequency@ == other.frequency@,
        one.interval@ == other.interval@,
        one.label@ == other.label@,
        one.offset_seconds == other.offset_seconds,
        one.origin@ == other.origin@,
        one.timestamp_semantics@ == other.timestamp_semantics@,
        one.provenance@ == provenance && other.provenance@ == provenance,
{
}

/// The name of a day's file is the instrument's name, an underscore, a date of ten bytes and one
/// of the two suffixes; every such name is read back as its date and its kind.
pub proof fn a_daily_name_is_built_from_its_date(
    name: Seq<char>,
    file_name: Seq<char>,
    date: Seq<char>,
)
    ensures
        daily_name(name, file_name) == Some((date, true)) ==> file_name == name + "_"@ + date
            + PARQUET_SUFFIX@ && vstd::utf8::encode_utf8(date).len() == 10,
        daily_name(name, file_name) == Some((date, false)) ==> file_name == name + "_"@ + date
            + METADATA_SUFFIX@ && vstd::utf8::encode_utf8(date).len() == 10,
        vstd::utf8::encode_utf8(date).len() == 10 ==> daily_name(
            name,
            name + "_"@ + date + PARQUET_SUFFIX@,
        ) == Some((date, true)),
        vstd::utf8::encode_utf8(date).len() == 10 ==> daily_name(
            name,
            name + "_"@ + date + METADATA_SUFFIX@,
        ) == Some((date, false)),
{
    reveal_strlit("_ticks.parquet");
    reveal_strlit("_ticks.meta.json");
    let prefix = name + "_"@;
    if let Some((found, is_parquet)) = daily_name(name, file_name) {
        let rest = file_name.skip(prefix.len() as int);
        assert(file_name == prefix + rest);
        let suffix = if is_parquet {
            PARQUET_SUFFIX@
        } else {
            METADATA_SUFFIX@
        };
        assert(rest == found + suffix);
        assert(file_name == name + "_"@ + found + suffix);
    }
    let parquet = name + "_"@ + date + PARQUET_SUFFIX@;
    assert(parquet.subrange(0, prefix.len() as int) == prefix);
    assert(parquet.skip(prefix.len() as int) == date + PARQUET_SUFFIX@);
    let rest = date + PARQUET_SUFFIX@;
    assert(rest.subrange(0, rest.len() - PARQUET_SUFFIX@.len()) == date);
    assert(rest.subrange(rest.len() - PARQUET_SUFFIX@.len(), rest.len() as int) == PARQUET_SUFFIX@);
    let metadata = name + "_"@ + date + METADATA_SUFFIX@;
    assert(metadata.subrange(0, prefix.len() as int) == prefix);
    assert(metadata.skip(prefix.len() as int) == date + METADATA_SUFFIX@);
    let rest = date + METADATA_SUFFIX@;
    assert(rest.subrange(0, rest.len() - METADATA_SUFFIX@.len()) == date);
    assert(rest.subrange(rest.len() - METADATA_SUFFIX@.len(), rest.len() as int)
        == METADATA_SUFFIX@);
    assert(rest.last() == 'n');
    assert(PARQUET_SUFFIX@.last() == 't');
    if crate::text::finishes_with(rest, PARQUET_SUFFIX@) {
        let end = rest.subrange(rest.len() - PARQUET_SUFFIX@.len(), rest.len() as int);
        assert(end.last() == rest.last());
    }
}

/// A noted file becomes the day's source or its provenance, and the other file of the day stays.
pub proof fn a_noted_file_keeps_the_other(
    before: DayFiles,
    now: DayFiles,
    file_name: Seq<char>,
    absolute: Seq<char>,
)
    ensures
        with_file(before, now, true, file_name, absolute) ==> now.metadata == before.metadata
            && now.parquet is Some && now.parquet->0.role == ObjectRole::Source
            && now.parquet->0.path@ == file_name && now.parquet->0.absolute@ == absolute,
        with_file(before, now, false, file_name, absolute) ==> now.parquet == before.parquet
            && now.metadata is Some && now.metadata->0.role == ObjectRole::Provenance
            && now.metadata->0.path@ == file_name && now.metadata->0.absolute@ == absolute,
{
}

/// A day is planned exactly where its date is one of the calendar and it has a metadata file; its
/// metadata are accepted exactly where they record the calendar, the date and the symbol, and no
/// ticks where there is no file of them.
pub proof fn a_day_is_planned_by_its_metadata(
    dir: Seq<char>,
    date: Seq<char>,
    start: Option<i64>,
    files: DayFiles,
    symbol: Option<Seq<char>>,
    metadata: Seq<char>,
    parquet: Option<PlannedFile>,
    record: DailyMetadata,
)
    ensures
        unplannable(dir, date, start, files) is None <==> start is Some && files.metadata is Some,
        wrong_metadata(symbol, date, metadata, parquet, record) is None <==> {
            &&& record.calendar@ == "UTC"@
            &&& record.date@ == date
            &&& symbol is None || symbol == Some(record.symbol@)
            &&& parquet is Some || record.ticks == 0
        },
{
}

/// A path lies beneath a directory exactly where it is the directory's components with others
/// after them.
pub proof fn beneath_is_the_directory_and_more(path: Seq<Seq<char>>, dir: Seq<Seq<char>>)
    ensures
        beneath(path, dir) <==> exists|rest: Seq<Seq<char>>| path == #[trigger] (dir + rest),
        beneath(dir, dir),
{
    if beneath(path, dir) {
        assert(path == dir + path.skip(dir.len() as int));
    }
    if exists|rest: Seq<Seq<char>>| path == #[trigger] (dir + rest) {
        let rest = choose|rest: Seq<Seq<char>>| path == #[trigger] (dir + rest);
        assert(path.take(dir.len() as int) == dir);
    }
    assert(dir.take(dir.len() as int) == dir);
}

/// A source is accepted exactly where it was not declared before and lies in none of the places
/// that the import writes to; a directory, exactly where it lies beneath the root and neither
/// holds nor lies in such a place; a file, exactly where it lies beneath the root and in none of
/// them.
pub proof fn a_source_lies_apart(
    relative: Seq<char>,
    path: ResolvedPath,
    root: ResolvedPath,
    roots: Seq<ResolvedPath>,
    protected: Seq<ResolvedPath>,
)
    ensures
        wrong_root(path, roots, protected) is None <==> {
            &&& forall|i: int| 0 <= i < roots.len() ==> (#[trigger] roots[i])@ != path@
            &&& forall|i: int|
                0 <= i < protected.len() ==> !beneath(path@, (#[trigger] protected[i])@)
        },
        wrong_dir(relative, path, root, protected) is None <==> {
            &&& beneath(path@, root@)
            &&& forall|i: int|
                0 <= i < protected.len() ==> !beneath(path@, (#[trigger] protected[i])@)
                    && !beneath(protected[i]@, path@)
        },
        wrong_file(relative, path, root, protected) is None <==> {
            &&& beneath(path@, root@)
            &&& forall|i: int|
                0 <= i < protected.len() ==> !beneath(path@, (#[trigger] protected[i])@)
        },
        beneath_any(path@, protected) ==> overlaps_any(path@, protected),
{
}

/// A text holds a control character exactly where one of its characters comes before the space or
/// is the one after the tilde.
pub proof fn a_control_character_is_unprinted(text: Seq<char>)
    ensures
        holds_control(text) <==> exists|i: int|
            0 <= i < text.len() && ((#[trigger] text[i] as u32) <= 31 || text[i] as u32 == 127),
{
    if holds_control(text) {
        let i = choose|i: int|
            0 <= i < text.len() && crate::import::paths::is_control(#[trigger] text[i]);
        assert((text[i] as u32) <= 31 || text[i] as u32 == 127);
    }
    if exists|i: int|
        0 <= i < text.len() && ((#[trigger] text[i] as u32) <= 31 || text[i] as u32 == 127) {
        let i = choose|i: int|
            0 <= i < text.len() && ((#[trigger] text[i] as u32) <= 31 || text[i] as u32 == 127);
        assert(crate::import::paths::is_control(text[i]));
    }
}

/// A text without control characters, quotes and backslashes, all of it of ASCII, is shown as it
/// is; and what is shown of a text is what is shown of its parts.
pub proof fn a_plain_text_is_shown_as_it_is(text: Seq<char>)
    ensures
        (forall|i: int|
            0 <= i < text.len() ==> 0x20 <= (#[trigger] text[i]) as u32 && text[i] as u32 <= 0x7e
                && text[i] != '\'' && text[i] != '"' && text[i] != '\\') ==> escaped(text) == text,
    decreases text.len(),
{
    if text.len() > 0 {
        a_plain_text_is_shown_as_it_is(text.drop_last());
        if forall|i: int|
            0 <= i < text.len() ==> 0x20 <= (#[trigger] text[i]) as u32 && text[i] as u32 <= 0x7e
                && text[i] != '\'' && text[i] != '"' && text[i] != '\\' {
            assert forall|i: int| 0 <= i < text.len() - 1 implies 0x20 <= (
            #[trigger] text.drop_last()[i]) as u32 && text.drop_last()[i] as u32 <= 0x7e
                && text.drop_last()[i] != '\'' && text.drop_last()[i] != '"'
                && text.drop_last()[i] != '\\' by {
                assert(text.drop_last()[i] == text[i]);
            }
            assert(text.last() == text[text.len() - 1]);
            assert(escaped(text) == text.drop_last() + seq![text.last()]);
            assert(text.drop_last() + seq![text.last()] == text);
        }
    }
}

/// The numeral of a number in base sixteen is never empty, and takes one more digit for each
/// factor of sixteen.
pub proof fn a_numeral_grows_by_sixteens(value: nat)
    ensures
        hex_numeral(value).len() >= 1,
        value < 16 ==> hex_numeral(value).len() == 1,
        value >= 16 ==> hex_numeral(value).len() == hex_numeral(value / 16).len() + 1
            && hex_numeral(value).drop_last() == hex_numeral(value / 16)
            && hex_numeral(value).last() == hex_numeral(value % 16)[0],
    decreases value,
{
    if value >= 16 {
        a_numeral_grows_by_sixteens(value / 16);
        assert(hex_numeral(value).drop_last() == hex_numeral(value / 16));
        assert(value % 16 < 16);
    }
}

/// Nothing has changed since it was parsed exactly where every object of a parsed file still has
/// the digest that was parsed; otherwise the file that is named is a parsed one that changed.
pub proof fn parsed_files_are_unchanged(
    objects: Seq<ObjectRecord>,
    parsed: Seq<(String, String)>,
)
    ensures
        first_changed(objects, parsed) is None <==> forall|i: int, j: int|
            0 <= i < parsed.len() && 0 <= j < objects.len() && (#[trigger] objects[j]).path@ == (
            #[trigger] parsed[i]).0@ ==> objects[j].sha256@ == parsed[i].1@,
        first_changed(objects, parsed) matches Some(path) ==> exists|i: int, j: int|
            0 <= i < parsed.len() && 0 <= j < objects.len() && (#[trigger] objects[j]).path@ == path
                && (#[trigger] parsed[i]).0@ == path && objects[j].sha256@ != parsed[i].1@,
    decreases parsed.len(),
{
    if parsed.len() > 0 {
        let rest = parsed.skip(1);
        parsed_files_are_unchanged(objects, rest);
        if crate::import::publish::changed(objects, parsed[0]) {
            let j = choose|j: int|
                0 <= j < objects.len() && (#[trigger] objects[j]).path@ == parsed[0].0@
                    && objects[j].sha256@ != parsed[0].1@;
            assert(objects[j].path@ == parsed[0].0@);
        } else if let Some(path) = first_changed(objects, rest) {
            let (i, j) = choose|i: int, j: int|
                0 <= i < rest.len() && 0 <= j < objects.len() && (#[trigger] objects[j]).path@
                    == path && (#[trigger] rest[i]).0@ == path && objects[j].sha256@ != rest[i].1@;
            assert(rest[i] == parsed[i + 1]);
            assert(objects[j].path@ == path && parsed[i + 1].0@ == path);
        } else {
            assert forall|i: int, j: int|
                0 <= i < parsed.len() && 0 <= j < objects.len() && (#[trigger] objects[j]).path@
                    == (#[trigger] parsed[i]).0@ implies objects[j].sha256@ == parsed[i].1@ by {
                if i > 0 {
                    assert(rest[i - 1] == parsed[i]);
                }
            }
        }
    }
}

/// Each file has its record, with its role, its path and its identity, in its place, and its
/// input, with the place where it lies.
pub proof fn every_file_is_recorded_and_named(
    objects: Seq<ObjectRecord>,
    inputs: Seq<Input>,
    files: Seq<PlannedFile>,
    identities: Seq<ObjectIdentity>,
    at: int,
)
    requires
        are_records(objects, files, identities),
        are_inputs(inputs, files, identities),
        0 <= at < files.len(),
    ensures
        objects.len() == files.len() && inputs.len() == files.len(),
        objects[at].role == files[at].role,
        objects[at].path@ == files[at].path@,
        objects[at].bytes == identities[at].bytes,
        objects[at].sha256@ == identities[at].sha256@,
        inputs[at].path@ == files[at].absolute@,
        inputs[at].bytes == objects[at].bytes,
        inputs[at].sha256@ == objects[at].sha256@,
{
    assert(inputs[at].bytes == identities[at].bytes);
    assert(objects[at].path@ == files[at].path@);
}

} // verus!
