//! A collection of bar files: one dataset per asset, with the files that its manifest lists, and
//! everything else beside them as provenance.

use crate::dataset::{IntervalContract, ObjectRole};
use crate::lineage::json::{find_integer, find_text, member_integer, member_text, Json};
use crate::text::{join3, join4, refusal, same_text};
use vstd::prelude::*;
use vstd::string::*;

verus! {

/// The period of the one bar interval contract that is admitted.
pub const BAR_PERIOD_S: u16 = 5;

/// One input file of a dataset before it is retained.
#[derive(Debug)]
pub struct PlannedFile {
    pub role: ObjectRole,
    /// Relative to the dataset's root; files of the collection begin with `collection/`.
    pub path: String,
    /// Where the file lies.
    pub absolute: String,
}

impl Clone for PlannedFile {
    fn clone(&self) -> (copy: Self)
        ensures
            copy == *self,
    {
        PlannedFile {
            role: self.role,
            path: self.path.clone(),
            absolute: self.absolute.clone(),
        }
    }
}

/// A file that a manifest lists, with its recorded identity and rows.
#[derive(Debug)]
pub struct ListedFile {
    pub path: String,
    pub bytes: u64,
    pub rows: u64,
    pub sha256: String,
}

/// The paths of planned files.
pub open spec fn planned_paths(files: Seq<PlannedFile>) -> Seq<Seq<char>> {
    files.map_values(|file: PlannedFile| file.path@)
}

/// Whether planned files hold a path.
pub fn holds_path(files: &Vec<PlannedFile>, path: &str) -> (held: bool)
    ensures
        held == planned_paths(files@).contains(path@),
{
    let mut i: usize = 0;
    while i < files.len()
        invariant
            i <= files@.len(),
            forall|j: int| 0 <= j < i ==> #[trigger] planned_paths(files@)[j] != path@,
        decreases files@.len() - i,
    {
        if same_text(files[i].path.as_str(), path) {
            assert(planned_paths(files@)[i as int] == path@);
            return true;
        }
        i = i + 1;
    }
    false
}

/// A manifest lists a file once.
pub fn check_listed(listed: &Vec<PlannedFile>, path: &str, manifest: &str) -> (result: Result<
    (),
    String,
>)
    ensures
        refusal(result) == if planned_paths(listed@).contains(path@) {
            Some(manifest@ + " lists "@ + path@ + " twice"@)
        } else {
            None
        },
{
    if holds_path(listed, path) {
        return Err(join4(manifest, " lists ", path, " twice"));
    }
    Ok(())
}

/// The files beside the listed ones, as provenance.
pub open spec fn beside(walked: Seq<PlannedFile>, listed: Seq<PlannedFile>) -> Seq<PlannedFile>
    decreases walked.len(),
{
    if walked.len() == 0 {
        Seq::empty()
    } else {
        let rest = beside(walked.drop_last(), listed);
        if planned_paths(listed).contains(walked.last().path@) {
            rest
        } else {
            rest.push(PlannedFile { role: ObjectRole::Provenance, ..walked.last() })
        }
    }
}

/// The first place whose path stood before it.
pub open spec fn first_repeat(paths: Seq<Seq<char>>) -> Option<int>
    decreases paths.len(),
{
    if paths.len() == 0 {
        None
    } else {
        match first_repeat(paths.drop_last()) {
            Some(at) => Some(at),
            None => if paths.drop_last().contains(paths.last()) {
                Some(paths.len() - 1)
            } else {
                None
            },
        }
    }
}

/// All files of an asset: those that are listed, those beside them, and the collection's.
pub open spec fn all_planned(
    listed: Seq<PlannedFile>,
    walked: Seq<PlannedFile>,
    collection: Seq<PlannedFile>,
) -> Seq<PlannedFile> {
    listed + beside(walked, listed) + collection
}

fn append_files(files: &mut Vec<PlannedFile>, more: &Vec<PlannedFile>)
    ensures
        final(files)@ == old(files)@ + more@,
{
    let ghost before = files@;
    let mut i: usize = 0;
    assert(files@ =~= before + more@.take(0));
    while i < more.len()
        invariant
            i <= more@.len(),
            files@ == before + more@.take(i as int),
        decreases more@.len() - i,
    {
        files.push(more[i].clone());
        i = i + 1;
        assert(files@ =~= before + more@.take(i as int));
    }
    assert(more@.take(i as int) =~= more@);
}

proof fn repeat_stays(paths: Seq<Seq<char>>, n: int)
    requires
        0 <= n <= paths.len(),
        first_repeat(paths.take(n)) is Some,
    ensures
        first_repeat(paths) == first_repeat(paths.take(n)),
    decreases paths.len(),
{
    if n < paths.len() {
        assert(paths.drop_last().take(n) =~= paths.take(n));
        repeat_stays(paths.drop_last(), n);
    } else {
        assert(paths.take(n) =~= paths);
    }
}

/// The inventory of an asset. `listed` are the files that its manifest lists, `walked` all files
/// beneath its root, `collection` the manifest and the declared provenance of the collection.
pub fn inventory(
    asset: &str,
    listed: &Vec<PlannedFile>,
    walked: &Vec<PlannedFile>,
    collection: &Vec<PlannedFile>,
) -> (result: Result<Vec<PlannedFile>, String>)
    ensures
        ({
            let files = all_planned(listed@, walked@, collection@);
            match first_repeat(planned_paths(files)) {
                Some(at) => refusal(result) == Some(
                    asset@ + ": object path "@ + files[at].path@ + " is inventoried twice"@,
                ),
                None => result is Ok && result->Ok_0@ == files,
            }
        }),
{
    let mut files: Vec<PlannedFile> = Vec::new();
    append_files(&mut files, listed);
    let mut i: usize = 0;
    assert(files@ =~= listed@ + beside(walked@.take(0), listed@));
    while i < walked.len()
        invariant
            i <= walked@.len(),
            files@ == listed@ + beside(walked@.take(i as int), listed@),
        decreases walked@.len() - i,
    {
        assert(walked@.take(i + 1).drop_last() =~= walked@.take(i as int));
        if !holds_path(listed, walked[i].path.as_str()) {
            files.push(
                PlannedFile {
                    role: ObjectRole::Provenance,
                    path: walked[i].path.clone(),
                    absolute: walked[i].absolute.clone(),
                },
            );
        }
        i = i + 1;
        assert(files@ =~= listed@ + beside(walked@.take(i as int), listed@));
    }
    assert(walked@.take(i as int) =~= walked@);
    append_files(&mut files, collection);
    let ghost paths = planned_paths(files@);
    let mut seen: Vec<PlannedFile> = Vec::new();
    let mut k: usize = 0;
    assert(planned_paths(seen@) =~= paths.take(0));
    while k < files.len()
        invariant
            k <= files@.len(),
            files@ == all_planned(listed@, walked@, collection@),
            paths == planned_paths(files@),
            planned_paths(seen@) == paths.take(k as int),
            first_repeat(paths.take(k as int)) is None,
        decreases files@.len() - k,
    {
        assert(paths.take(k + 1).drop_last() =~= paths.take(k as int));
        assert(paths.take(k + 1).last() == files@[k as int].path@);
        if holds_path(&seen, files[k].path.as_str()) {
            proof {
                repeat_stays(paths, k + 1);
            }
            let mut message = join3(asset, ": object path ", files[k].path.as_str());
            message.append(" is inventoried twice");
            return Err(message);
        }
        let ghost had = seen@;
        seen.push(files[k].clone());
        k = k + 1;
        assert(planned_paths(seen@) =~= planned_paths(had).push(files@[k - 1].path@));
        assert(planned_paths(seen@) =~= paths.take(k as int));
    }
    assert(paths.take(k as int) =~= paths);
    Ok(files)
}

proof fn no_repeat_no_duplicates(paths: Seq<Seq<char>>)
    requires
        first_repeat(paths) is None,
    ensures
        paths.no_duplicates(),
    decreases paths.len(),
{
    if paths.len() > 0 {
        let rest = paths.drop_last();
        no_repeat_no_duplicates(rest);
        assert forall|i: int, j: int| 0 <= i < j < paths.len() implies paths[i] != paths[j] by {
            if j == paths.len() - 1 {
                assert(rest[i] == paths[i]);
                if paths[i] == paths[j] {
                    assert(rest.contains(paths.last()));
                }
            } else {
                assert(rest[i] == paths[i] && rest[j] == paths[j]);
            }
        }
    }
}

proof fn beside_holds(walked: Seq<PlannedFile>, listed: Seq<PlannedFile>, at: int)
    requires
        0 <= at < walked.len(),
        !planned_paths(listed).contains(walked[at].path@),
    ensures
        planned_paths(beside(walked, listed)).contains(walked[at].path@),
    decreases walked.len(),
{
    let all = beside(walked, listed);
    if at == walked.len() - 1 {
        assert(planned_paths(all)[all.len() - 1] == walked[at].path@);
    } else {
        let rest = walked.drop_last();
        assert(rest[at] == walked[at]);
        beside_holds(rest, listed, at);
        let had = beside(rest, listed);
        let j = choose|j: int|
            0 <= j < planned_paths(had).len() && planned_paths(had)[j] == walked[at].path@;
        assert(all[j] == had[j]);
        assert(planned_paths(all)[j] == walked[at].path@);
    }
}

/// An accepted inventory names every path once, and leaves out no file beneath the asset's root.
pub proof fn an_inventory_names_every_file_once(
    listed: Seq<PlannedFile>,
    walked: Seq<PlannedFile>,
    collection: Seq<PlannedFile>,
    at: int,
)
    requires
        first_repeat(planned_paths(all_planned(listed, walked, collection))) is None,
        0 <= at < walked.len(),
    ensures
        planned_paths(all_planned(listed, walked, collection)).no_duplicates(),
        planned_paths(all_planned(listed, walked, collection)).contains(walked[at].path@),
{
    let all = all_planned(listed, walked, collection);
    let paths = planned_paths(all);
    let path = walked[at].path@;
    no_repeat_no_duplicates(paths);
    if planned_paths(listed).contains(path) {
        let j = choose|j: int|
            0 <= j < planned_paths(listed).len() && planned_paths(listed)[j] == path;
        assert(all[j] == listed[j]);
        assert(paths[j] == path);
    } else {
        beside_holds(walked, listed, at);
        let more = beside(walked, listed);
        let j = choose|j: int|
            0 <= j < planned_paths(more).len() && planned_paths(more)[j] == path;
        assert(all[listed.len() + j] == more[j]);
        assert(paths[listed.len() + j] == path);
    }
}

/// The symbol identifier of an asset: the expected one, or else the recorded one.
pub fn symbol_id(
    expected: Option<i32>,
    recorded: Option<i32>,
    manifest: &str,
    asset: &str,
) -> (result: Result<i32, String>)
    ensures
        match result {
            Ok(id) => expected == Some(id) || (expected is None && recorded == Some(id)),
            Err(_) => expected is None && recorded is None,
        },
        refusal(result) == if expected is None && recorded is None {
            Some(
                manifest@ + ": the collection manifest records no symbol identifier for "@ + asset@,
            )
        } else {
            None
        },
{
    match expected {
        Some(id) => Ok(id),
        None => match recorded {
            Some(id) => Ok(id),
            None => Err(
                join3(
                    manifest,
                    ": the collection manifest records no symbol identifier for ",
                    asset,
                ),
            ),
        },
    }
}

/// How a member that an interval contract lacks is reported.
pub open spec fn lacking(asset: Seq<char>, name: Seq<char>) -> Seq<char> {
    asset + ": interval contract `"@ + name + "` is missing"@
}

fn missing(asset: &str, name: &str) -> (message: String)
    ensures
        message@ == lacking(asset@, name@),
{
    join4(asset, ": interval contract `", name, "` is missing")
}

fn contract_text(declared: &Json, asset: &str, name: &str) -> (result: Result<String, String>)
    ensures
        match member_text(*declared, name@) {
            Some(text) => result is Ok && result->Ok_0@ == text,
            None => refusal(result) == Some(lacking(asset@, name@)),
        },
{
    match find_text(declared, name) {
        Some(text) => Ok(text.to_owned()),
        None => Err(missing(asset, name)),
    }
}

/// The first member that an interval contract lacks.
pub open spec fn first_lacking(declared: Json) -> Option<Seq<char>> {
    if member_text(declared, "closed"@) is None {
        Some("closed"@)
    } else if member_text(declared, "frequency"@) is None {
        Some("frequency"@)
    } else if member_text(declared, "interval"@) is None {
        Some("interval"@)
    } else if member_text(declared, "label"@) is None {
        Some("label"@)
    } else if member_integer(declared, "offset_seconds"@) is None {
        Some("offset_seconds"@)
    } else if member_text(declared, "origin"@) is None {
        Some("origin"@)
    } else if member_text(declared, "timestamp_semantics"@) is None {
        Some("timestamp_semantics"@)
    } else {
        None
    }
}

/// Whether a contract says what was declared.
pub open spec fn declares(
    declared: Json,
    provenance: Seq<char>,
    contract: IntervalContract,
) -> bool {
    &&& member_text(declared, "closed"@) == Some(contract.closed@)
    &&& member_text(declared, "frequency"@) == Some(contract.frequency@)
    &&& member_text(declared, "interval"@) == Some(contract.interval@)
    &&& member_text(declared, "label"@) == Some(contract.label@)
    &&& member_integer(declared, "offset_seconds"@) == Some(contract.offset_seconds as int)
    &&& member_text(declared, "origin"@) == Some(contract.origin@)
    &&& member_text(declared, "timestamp_semantics"@) == Some(contract.timestamp_semantics@)
    &&& contract.provenance@ == provenance
}

/// The interval contract that an asset declares.
pub fn interval_contract(asset: &str, declared: &Json, provenance: &str) -> (result: Result<
    IntervalContract,
    String,
>)
    ensures
        match first_lacking(*declared) {
            Some(name) => refusal(result) == Some(lacking(asset@, name)),
            None => result is Ok && declares(*declared, provenance@, result->Ok_0),
        },
{
    let closed = match contract_text(declared, asset, "closed") {
        Ok(text) => text,
        Err(reason) => {
            return Err(reason);
        },
    };
    let frequency = match contract_text(declared, asset, "frequency") {
        Ok(text) => text,
        Err(reason) => {
            return Err(reason);
        },
    };
    let interval = match contract_text(declared, asset, "interval") {
        Ok(text) => text,
        Err(reason) => {
            return Err(reason);
        },
    };
    let label = match contract_text(declared, asset, "label") {
        Ok(text) => text,
        Err(reason) => {
            return Err(reason);
        },
    };
    let offset_seconds: i64 = match find_integer(declared, "offset_seconds") {
        Some(offset) => offset,
        None => {
            return Err(missing(asset, "offset_seconds"));
        },
    };
    let origin = match contract_text(declared, asset, "origin") {
        Ok(text) => text,
        Err(reason) => {
            return Err(reason);
        },
    };
    let timestamp_semantics = match contract_text(declared, asset, "timestamp_semantics") {
        Ok(text) => text,
        Err(reason) => {
            return Err(reason);
        },
    };
    Ok(
        IntervalContract {
            closed,
            frequency,
            interval,
            label,
            offset_seconds,
            origin,
            timestamp_semantics,
            provenance: provenance.to_owned(),
        },
    )
}

/// A contract that is not the approved one is refused in the asset's name; `reason` is why it is
/// not, if it is not.
pub fn check_contract(asset: &str, reason: &Option<String>) -> (result: Result<(), String>)
    ensures
        refusal(result) == match *reason {
            Some(reason) => Some(asset@ + ": "@ + reason@),
            None => None,
        },
{
    match reason {
        Some(reason) => Err(join3(asset, ": ", reason.as_str())),
        None => Ok(()),
    }
}

/// What every file of an asset must be.
#[derive(Debug)]
pub struct BarExpectation {
    pub symbol: String,
    pub symbol_id: Option<i32>,
    pub period_s: u16,
    pub server_offset_s: Option<i64>,
    pub metadata_required: bool,
    pub interval: IntervalContract,
}

/// What every file of an asset must be: bars of the admitted period, of the asset's symbol, at
/// the collection's clock offset.
pub fn expectation(
    asset: &str,
    symbol_id: i32,
    server_offset_s: i64,
    interval: IntervalContract,
) -> (expected: BarExpectation)
    ensures
        expected.symbol@ == asset@,
        expected.symbol_id == Some(symbol_id),
        expected.period_s == BAR_PERIOD_S,
        expected.server_offset_s == Some(server_offset_s),
        expected.metadata_required == (interval.provenance@ == "manifest_and_parquet_metadata"@),
        expected.interval == interval,
{
    let required: bool = metadata_required(interval.provenance.as_str());
    BarExpectation {
        symbol: asset.to_owned(),
        symbol_id: Some(symbol_id),
        period_s: BAR_PERIOD_S,
        server_offset_s: Some(server_offset_s),
        metadata_required: required,
        interval,
    }
}

/// Whether the files of an asset must repeat its interval contract: where that is where it is
/// said to come from.
pub fn metadata_required(provenance: &str) -> (required: bool)
    ensures
        required == (provenance@ == "manifest_and_parquet_metadata"@),
{
    same_text(provenance, "manifest_and_parquet_metadata")
}

} // verus!
