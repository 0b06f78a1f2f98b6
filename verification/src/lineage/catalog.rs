//! The choice of an archived catalog: the verified migration family first, then coverage and
//! lineage. What may not be opened is passed over only where lineage proves it superseded.

use crate::dataset::Layout;
use crate::lineage::json::{find_member, holds_text, lineage_references};
use crate::lineage::migration::MigrationRecord;
use crate::lineage::select::{
    all_ancestors, ancestors_of, answered, family_of, generations_of, is_mapped, migration_family,
    record_behind, terminal_generation, terminal_refusal, Candidate,
};
use crate::live::rows::{position, position_of};
use crate::market::DatasetRole;
use crate::search::{first_where, first_where_absent, first_where_found};
use crate::table::Table;
use crate::text::{
    bytes_before_irreflexive, join, precedes, refusal, same_text, text_before, text_order,
};
use vstd::prelude::*;
use vstd::string::*;

verus! {

/// An object that a catalog pins by its length and digest.
#[derive(Debug)]
pub struct Pinned {
    pub key: String,
    pub bytes: u64,
    pub sha256: String,
}

/// Whether a catalog's object is this one.
pub open spec fn pins(entry: Pinned, key: Seq<char>, bytes: u64, sha256: Seq<char>) -> bool {
    entry.key@ == key && entry.bytes == bytes && entry.sha256@ == sha256
}

/// Finds the lineage of a manifest in the closure that a catalog pins.
pub fn find_lineage(objects: &Vec<Pinned>, key: &str, bytes: u64, sha256: &str) -> (found: Result<
    usize,
    String,
>)
    ensures
        match found {
            Ok(at) => first_where(objects@, |entry: Pinned| pins(entry, key@, bytes, sha256@))
                == Some(at as int) && at < objects@.len(),
            Err(message) => first_where(
                objects@,
                |entry: Pinned| pins(entry, key@, bytes, sha256@),
            ) is None && message@ == "archive: lineage lies outside pinned catalog closure"@,
        },
{
    let ghost wanted = |entry: Pinned| pins(entry, key@, bytes, sha256@);
    let mut i: usize = 0;
    while i < objects.len()
        invariant
            i <= objects@.len(),
            wanted == (|entry: Pinned| pins(entry, key@, bytes, sha256@)),
            forall|j: int| 0 <= j < i ==> !wanted(#[trigger] objects@[j]),
        decreases objects@.len() - i,
    {
        if same_text(objects[i].key.as_str(), key) && objects[i].bytes == bytes && same_text(
            objects[i].sha256.as_str(),
            sha256,
        ) {
            proof {
                first_where_found(objects@, wanted, i as int);
            }
            return Ok(i);
        }
        i = i + 1;
    }
    proof {
        first_where_absent(objects@, wanted);
    }
    Err("archive: lineage lies outside pinned catalog closure".to_owned())
}

/// What a manifest or a stream binds itself to.
#[derive(Debug, Clone, Copy)]
pub struct Bound<'a> {
    pub generation: &'a str,
    pub instrument: &'a str,
    pub role: DatasetRole,
    pub layout: Option<Layout>,
}

/// Whether two say the same.
pub open spec fn bound_alike(a: Bound, b: Bound) -> bool {
    &&& a.generation@ == b.generation@
    &&& a.instrument@ == b.instrument@
    &&& a.role == b.role
    &&& a.layout == b.layout
}

fn alike(a: Bound<'_>, b: Bound<'_>) -> (same: bool)
    ensures
        same == bound_alike(a, b),
{
    let same_layout: bool = match (a.layout, b.layout) {
        (Some(x), Some(y)) => x == y,
        (None, None) => true,
        _ => false,
    };
    same_text(a.generation, b.generation) && same_text(a.instrument, b.instrument) && a.role
        == b.role && same_layout
}

/// Checks the manifest that a catalog names.
pub fn check_manifest(manifest: Bound<'_>, catalog: Bound<'_>) -> (checked: Result<(), String>)
    ensures
        refusal(checked) == (if bound_alike(manifest, catalog) {
            None
        } else {
            Some("archive: catalog disagrees with lineage manifest"@)
        }),
{
    if !alike(manifest, catalog) {
        return Err("archive: catalog disagrees with lineage manifest".to_owned());
    }
    Ok(())
}

/// Checks the root of a migration that a catalog pins.
pub fn check_root(root: Bound<'_>, manifest: Bound<'_>, record: &MigrationRecord) -> (checked:
    Result<(), String>)
    ensures
        refusal(checked) == (if root.generation@ == record.v2_root@ && root.instrument@
            == manifest.instrument@ && root.role == manifest.role && root.layout is Some {
            None
        } else {
            Some("catalog migration root binding mismatch"@)
        }),
{
    if !same_text(root.generation, record.v2_root.as_str()) || !same_text(
        root.instrument,
        manifest.instrument,
    ) || root.role != manifest.role || root.layout.is_none() {
        return Err("catalog migration root binding mismatch".to_owned());
    }
    Ok(())
}

/// Checks that a migration's stream belongs to its daily continuation root.
pub fn check_stream(
    stream: Bound<'_>,
    source_generation: &str,
    manifest: Bound<'_>,
    record: &MigrationRecord,
) -> (checked: Result<(), String>)
    ensures
        refusal(checked) == (if stream.generation@ == record.v2_stream@ && source_generation@
            == record.v2_root@ && stream.instrument@ == manifest.instrument@ && stream.role
            == manifest.role && stream.layout is Some {
            None
        } else {
            Some("migration stream does not bind its daily continuation root"@)
        }),
{
    if !same_text(stream.generation, record.v2_stream.as_str()) || !same_text(
        source_generation,
        record.v2_root.as_str(),
    ) || !same_text(stream.instrument, manifest.instrument) || stream.role != manifest.role
        || stream.layout.is_none() {
        return Err("migration stream does not bind its daily continuation root".to_owned());
    }
    Ok(())
}

/// Whether a catalog pins a record.
pub open spec fn pins_record(entries: Seq<Pinned>, name: Seq<char>) -> bool {
    exists|i: int| 0 <= i < entries.len() && (#[trigger] entries[i]).key@ == "records/"@ + name
}

/// Whether a catalog pins every record of its job: only then it restores the whole chain.
pub open spec fn is_cumulative(
    records: Map<Seq<char>, MigrationRecord>,
    job: Seq<char>,
    entries: Seq<Pinned>,
) -> bool {
    forall|name: Seq<char>| #[trigger]
        records.dom().contains(name) && records[name].job@ == job ==> pins_record(entries, name)
}

fn pinned(entries: &Vec<Pinned>, name: &str) -> (found: bool)
    ensures
        found == pins_record(entries@, name@),
{
    let key = join("records/", name);
    let mut i: usize = 0;
    while i < entries.len()
        invariant
            i <= entries@.len(),
            key@ == "records/"@ + name@,
            forall|j: int| 0 <= j < i ==> (#[trigger] entries@[j]).key@ != "records/"@ + name@,
        decreases entries@.len() - i,
    {
        if same_text(entries[i].key.as_str(), key.as_str()) {
            assert(entries@[i as int].key@ == "records/"@ + name@);
            return true;
        }
        i = i + 1;
    }
    false
}

/// Whether a catalog pins every record of its job.
pub fn cumulative(records: &Table<MigrationRecord>, job: &str, entries: &Vec<Pinned>) -> (whole:
    bool)
    ensures
        whole == is_cumulative(records@, job@, entries@),
{
    let count: usize = records.len();
    let ghost keys = records.keys();
    let mut i: usize = 0;
    while i < count
        invariant
            i <= count,
            keys == records.keys(),
            count == keys.len(),
            crate::table::lists(keys, records@.dom()),
            forall|j: int| 0 <= j < count ==> records@.dom().contains(#[trigger] keys[j]),
            forall|j: int|
                0 <= j < i && records@[#[trigger] keys[j]].job@ == job@ ==> pins_record(
                    entries@,
                    keys[j],
                ),
        decreases count - i,
    {
        let (name, record) = records.at(i);
        if same_text(record.job.as_str(), job) && !pinned(entries, name) {
            assert(records@.dom().contains(name@));
            return false;
        }
        i = i + 1;
    }
    proof {
        assert forall|name: Seq<char>| #[trigger]
            records@.dom().contains(name) && records@[name].job@ == job@ implies pins_record(
            entries@,
            name,
        ) by {
            assert(keys.to_set().contains(name));
            let j = choose|j: int| 0 <= j < count && keys[j] == name;
            assert(records@[keys[j]].job@ == job@);
        }
    }
    true
}

/// How a daily catalog stands before its closure is looked at.
#[derive(Debug, Clone, Copy, PartialEq, Eq, Structural)]
pub enum Standing {
    /// It is a candidate.
    Candidate,
    /// It belongs to another family.
    Skip,
    /// It belongs to the migration in force, which its closure must bear out; where its lineage
    /// does not repeat the mapping, the pinned root must.
    Verify { needs_root: bool },
}

/// How a daily catalog stands under the migration in force, or why nothing can be chosen.
pub open spec fn standing_of(
    entry: Candidate,
    current: Option<MigrationRecord>,
) -> Result<Standing, Seq<char>> {
    match current {
        None => if is_mapped(entry.lineage) {
            Err("verified migration evidence is not archived for "@ + entry.generation@)
        } else {
            Ok(Standing::Candidate)
        },
        Some(record) => match family_of(entry.generation@, entry.lineage, entry.mapping, record) {
            Err(message) => Err(message),
            Ok(false) => Ok(Standing::Skip),
            Ok(true) => Ok(Standing::Verify { needs_root: !is_mapped(entry.lineage) }),
        },
    }
}

/// How a daily catalog stands under the migration in force.
pub fn standing(entry: &Candidate, current: Option<&MigrationRecord>) -> (found: Result<
    Standing,
    String,
>)
    ensures
        answered(found) == standing_of(*entry, record_behind(current)),
{
    let mapped: bool = find_member(&entry.lineage, "v1_generations").is_some();
    match current {
        None => if mapped {
            Err(
                join(
                    "verified migration evidence is not archived for ",
                    entry.generation.as_str(),
                ),
            )
        } else {
            Ok(Standing::Candidate)
        },
        Some(record) => match migration_family(
            entry.generation.as_str(),
            &entry.lineage,
            &entry.mapping,
            record,
        ) {
            Err(message) => Err(message),
            Ok(belongs) => if belongs {
                Ok(Standing::Verify { needs_root: !mapped })
            } else {
                Ok(Standing::Skip)
            },
        },
    }
}

/// Where a catalog pins the root of the migration; `generations` are the manifests that it pins.
pub fn pinned_root(generations: &Vec<String>, record: &MigrationRecord) -> (found: Result<
    usize,
    String,
>)
    ensures
        match found {
            Ok(at) => position_of(generations@, record.v2_root@) == Some(at as int),
            Err(message) => position_of(generations@, record.v2_root@) is None && message@
                == "catalog omits the verified migration root"@,
        },
{
    match position(generations, record.v2_root.as_str()) {
        Some(at) => Ok(at),
        None => Err("catalog omits the verified migration root".to_owned()),
    }
}

/// A catalog that was read: whether it is daily, and its generation with coverage and lineage.
#[derive(Debug)]
pub struct Archived {
    pub daily: bool,
    pub entry: Candidate,
}

/// A catalog that may not be opened, and why.
#[derive(Debug)]
pub struct Denied {
    pub generation: String,
    pub reason: String,
}

/// Whether a catalog comes before another: daily ones first, then by the end of coverage.
pub open spec fn is_newer(a: Archived, b: Archived) -> bool {
    (a.daily && !b.daily) || (a.daily == b.daily && a.entry.last_event_time
        > b.entry.last_event_time)
}

/// Whether none of the candidates is newer than a catalog.
pub open spec fn is_newest(catalogs: Seq<Archived>, candidates: Seq<usize>, at: usize) -> bool {
    forall|i: int|
        0 <= i < candidates.len() ==> !is_newer(
            catalogs[(#[trigger] candidates[i]) as int],
            catalogs[at as int],
        )
}

/// The newest candidates.
pub open spec fn newest_of(catalogs: Seq<Archived>, candidates: Seq<usize>) -> Seq<usize> {
    candidates.filter(|at: usize| is_newest(catalogs, candidates, at))
}

/// The entries of catalogs.
pub open spec fn entries_of(catalogs: Seq<Archived>, list: Seq<usize>) -> Seq<Candidate> {
    list.map_values(|at: usize| catalogs[at as int].entry)
}

/// Whether a catalog is the one to choose among finalists: no name comes after its own, and it
/// is the last of that name.
pub open spec fn is_last_named(catalogs: Seq<Archived>, finalists: Seq<usize>, p: int) -> bool {
    &&& 0 <= p < finalists.len()
    &&& forall|q: int|
        0 <= q < finalists.len() ==> !text_before(
            catalogs[finalists[p] as int].entry.generation@,
            catalogs[(#[trigger] finalists[q]) as int].entry.generation@,
        )
    &&& forall|q: int|
        p < q < finalists.len() ==> catalogs[(#[trigger] finalists[q]) as int].entry.generation@
            != catalogs[finalists[p] as int].entry.generation@
}

/// Whether the lineage of the chosen catalog proves that a denied one is superseded.
pub open spec fn is_superseded(chosen: Archived, denied: Denied) -> bool {
    chosen.daily && holds_text(chosen.entry.lineage, denied.generation@) && denied.generation@
        != chosen.entry.generation@
}

/// Why no catalog can be chosen.
pub open spec fn early_refusal(
    catalogs: Seq<Archived>,
    candidates: Seq<usize>,
    denied: Seq<Denied>,
    any_daily: bool,
) -> Option<Seq<char>> {
    if candidates.len() == 0 && denied.len() > 0 {
        Some(denied[0].reason@)
    } else if candidates.len() == 0 || (any_daily && forall|i: int|
        0 <= i < candidates.len() ==> !catalogs[(#[trigger] candidates[i]) as int].daily) {
        Some("drive: no archived catalog for the verified migration continuation"@)
    } else {
        None
    }
}

/// The finalists: the newest candidates, of which daily ones must be the only descendant.
pub open spec fn is_finalist(
    catalogs: Seq<Archived>,
    top: Seq<usize>,
    terminal: Seq<char>,
    at: usize,
) -> bool {
    !catalogs[top[0] as int].daily || catalogs[at as int].entry.generation@ == terminal
}

fn newest_candidates(catalogs: &Vec<Archived>, candidates: &Vec<usize>) -> (top: Vec<usize>)
    requires
        candidates@.len() > 0,
        forall|i: int| 0 <= i < candidates@.len() ==> #[trigger] candidates@[i] < catalogs@.len(),
    ensures
        top@ == newest_of(catalogs@, candidates@),
        top@.len() > 0,
        forall|i: int| 0 <= i < top@.len() ==> #[trigger] top@[i] < catalogs@.len(),
{
    let mut best: usize = candidates[0];
    let mut k: usize = 1;
    while k < candidates.len()
        invariant
            1 <= k <= candidates@.len(),
            forall|i: int|
                0 <= i < candidates@.len() ==> #[trigger] candidates@[i] < catalogs@.len(),
            best < catalogs@.len(),
            exists|i: int| 0 <= i < k && #[trigger] candidates@[i] == best,
            forall|i: int|
                0 <= i < k ==> !is_newer(
                    catalogs@[(#[trigger] candidates@[i]) as int],
                    catalogs@[best as int],
                ),
        decreases candidates@.len() - k,
    {
        let a = &catalogs[candidates[k]];
        let b = &catalogs[best];
        if (a.daily && !b.daily) || (a.daily == b.daily && a.entry.last_event_time
            > b.entry.last_event_time) {
            best = candidates[k];
            assert(candidates@[k as int] == best);
        }
        k = k + 1;
    }
    let ghost newest = |at: usize| is_newest(catalogs@, candidates@, at);
    let mut top: Vec<usize> = Vec::new();
    let mut i: usize = 0;
    assert(candidates@.take(0).filter(newest) =~= Seq::empty()) by {
        reveal(Seq::filter);
    }
    while i < candidates.len()
        invariant
            i <= candidates@.len(),
            forall|j: int|
                0 <= j < candidates@.len() ==> #[trigger] candidates@[j] < catalogs@.len(),
            best < catalogs@.len(),
            newest == (|at: usize| is_newest(catalogs@, candidates@, at)),
            exists|j: int| 0 <= j < candidates@.len() && #[trigger] candidates@[j] == best,
            is_newest(catalogs@, candidates@, best),
            top@ == candidates@.take(i as int).filter(newest),
            forall|j: int| 0 <= j < top@.len() ==> #[trigger] top@[j] < catalogs@.len(),
            (exists|j: int| 0 <= j < i && #[trigger] candidates@[j] == best) ==> top@.len() > 0,
        decreases candidates@.len() - i,
    {
        let at: usize = candidates[i];
        proof {
            assert(candidates@.take(i + 1) =~= candidates@.take(i as int).push(at));
            candidates@.take(i as int).lemma_filter_push(at, newest);
        }
        let a = &catalogs[at];
        let b = &catalogs[best];
        let equal_rank: bool = a.daily == b.daily && a.entry.last_event_time
            == b.entry.last_event_time;
        proof {
            assert(newest(at) == equal_rank) by {
                if newest(at) {
                    let j = choose|j: int|
                        0 <= j < candidates@.len() && #[trigger] candidates@[j] == best;
                    assert(!is_newer(catalogs@[candidates@[j] as int], catalogs@[at as int]));
                    assert(!is_newer(
                        catalogs@[candidates@[i as int] as int],
                        catalogs@[best as int],
                    ));
                }
                if equal_rank {
                    assert forall|j: int| 0 <= j < candidates@.len() implies !is_newer(
                        catalogs@[(#[trigger] candidates@[j]) as int],
                        catalogs@[at as int],
                    ) by {
                        assert(!is_newer(
                            catalogs@[candidates@[j] as int],
                            catalogs@[best as int],
                        ));
                    }
                }
            }
        }
        if equal_rank {
            top.push(at);
        }
        i = i + 1;
    }
    assert(candidates@.take(i as int) =~= candidates@);
    top
}

fn last_named(catalogs: &Vec<Archived>, finalists: &Vec<usize>) -> (p: usize)
    requires
        finalists@.len() > 0,
        forall|i: int| 0 <= i < finalists@.len() ==> #[trigger] finalists@[i] < catalogs@.len(),
    ensures
        is_last_named(catalogs@, finalists@, p as int),
{
    let mut p: usize = 0;
    let mut i: usize = 1;
    proof {
        bytes_before_irreflexive(
            vstd::utf8::encode_utf8(catalogs@[finalists@[0] as int].entry.generation@),
        );
    }
    while i < finalists.len()
        invariant
            1 <= i <= finalists@.len(),
            p < i,
            forall|j: int|
                0 <= j < finalists@.len() ==> #[trigger] finalists@[j] < catalogs@.len(),
            forall|q: int|
                0 <= q < i ==> !text_before(
                    catalogs@[finalists@[p as int] as int].entry.generation@,
                    catalogs@[(#[trigger] finalists@[q]) as int].entry.generation@,
                ),
            forall|q: int|
                p < q < i ==> catalogs@[(#[trigger] finalists@[q]) as int].entry.generation@
                    != catalogs@[finalists@[p as int] as int].entry.generation@,
        decreases finalists@.len() - i,
    {
        let ghost best = catalogs@[finalists@[p as int] as int].entry.generation@;
        let ghost next = catalogs@[finalists@[i as int] as int].entry.generation@;
        let later: bool = !precedes(
            catalogs[finalists[i]].entry.generation.as_str(),
            catalogs[finalists[p]].entry.generation.as_str(),
        );
        proof {
            text_order(next, best, next);
            if later {
                assert forall|q: int| 0 <= q < i + 1 implies !text_before(
                    next,
                    catalogs@[(#[trigger] finalists@[q]) as int].entry.generation@,
                ) by {
                    let other = catalogs@[finalists@[q] as int].entry.generation@;
                    text_order(best, next, other);
                    text_order(next, other, best);
                    text_order(best, other, next);
                    if q < i {
                        assert(!text_before(best, other));
                    }
                }
            } else {
                text_order(best, next, best);
            }
        }
        if later {
            p = i;
        }
        i = i + 1;
    }
    p
}

/// Whether an answer is the finalist at `p`, or the reason of the first denied catalog that its
/// lineage does not prove superseded.
pub open spec fn is_choice(
    catalogs: Seq<Archived>,
    top: Seq<usize>,
    denied: Seq<Denied>,
    terminal: Seq<char>,
    p: int,
    chosen: Result<usize, Seq<char>>,
) -> bool {
    let finalists = finalists_of(catalogs, top, terminal);
    let entries = entries_of(catalogs, top);
    let names = generations_of(entries);
    &&& catalogs[top[0] as int].daily ==> names.difference(ancestors_of(entries, names))
        == Set::empty().insert(terminal)
    &&& is_last_named(catalogs, finalists, p)
    &&& match first_where(
        denied,
        |one: Denied| !is_superseded(catalogs[finalists[p] as int], one),
    ) {
        Some(k) => chosen == Err::<usize, Seq<char>>(denied[k].reason@),
        None => chosen == Ok::<usize, Seq<char>>(finalists[p]),
    }
}

/// Whether an answer is the newest candidate, or why none can be chosen.
pub open spec fn is_newest_choice(
    catalogs: Seq<Archived>,
    candidates: Seq<usize>,
    denied: Seq<Denied>,
    any_daily: bool,
    chosen: Result<usize, Seq<char>>,
) -> bool {
    match early_refusal(catalogs, candidates, denied, any_daily) {
        Some(message) => chosen == Err::<usize, Seq<char>>(message),
        None => {
            let top = newest_of(catalogs, candidates);
            let entries = entries_of(catalogs, top);
            let names = generations_of(entries);
            let blocked = terminal_refusal(names, ancestors_of(entries, names));
            if catalogs[top[0] as int].daily && blocked is Some {
                chosen == Err::<usize, Seq<char>>(blocked->0)
            } else {
                exists|terminal: Seq<char>, p: int| #[trigger]
                    is_choice(catalogs, top, denied, terminal, p, chosen)
            }
        },
    }
}

/// Chooses among archived catalogs: `candidates` are those that may be chosen, by their indices,
/// and `any_daily` says whether a daily one could be opened.
pub fn newest_catalog(
    catalogs: &Vec<Archived>,
    candidates: &Vec<usize>,
    denied: &Vec<Denied>,
    any_daily: bool,
) -> (chosen: Result<usize, String>)
    requires
        forall|i: int| 0 <= i < candidates@.len() ==> #[trigger] candidates@[i] < catalogs@.len(),
    ensures
        is_newest_choice(catalogs@, candidates@, denied@, any_daily, answered(chosen)),
{
    if candidates.len() == 0 {
        if denied.len() > 0 {
            return Err(denied[0].reason.clone());
        }
        return Err(
            "drive: no archived catalog for the verified migration continuation".to_owned(),
        );
    }
    let mut has_daily: bool = false;
    let mut i: usize = 0;
    while i < candidates.len()
        invariant
            i <= candidates@.len(),
            forall|j: int|
                0 <= j < candidates@.len() ==> #[trigger] candidates@[j] < catalogs@.len(),
            has_daily == !(forall|j: int|
                0 <= j < i ==> !catalogs@[(#[trigger] candidates@[j]) as int].daily),
        decreases candidates@.len() - i,
    {
        if catalogs[candidates[i]].daily {
            has_daily = true;
            assert(catalogs@[candidates@[i as int] as int].daily);
        }
        i = i + 1;
    }
    if any_daily && !has_daily {
        return Err(
            "drive: no archived catalog for the verified migration continuation".to_owned(),
        );
    }
    let top = newest_candidates(catalogs, candidates);
    let ghost entries = entries_of(catalogs@, top@);
    let daily: bool = catalogs[top[0]].daily;
    let mut terminal = String::new();
    if daily {
        let mut last: Vec<&Candidate> = Vec::new();
        let mut names: Table<()> = Table::new();
        let mut k: usize = 0;
        assert(names@.dom() =~= generations_of(entries.take(0)));
        while k < top.len()
            invariant
                k <= top@.len(),
                entries == entries_of(catalogs@, top@),
                forall|j: int| 0 <= j < top@.len() ==> #[trigger] top@[j] < catalogs@.len(),
                last@.len() == k,
                forall|j: int| 0 <= j < k ==> #[trigger] entries[j] == *last@[j],
                names@.dom() == generations_of(entries.take(k as int)),
            decreases top@.len() - k,
        {
            let entry: &Candidate = &catalogs[top[k]].entry;
            let ghost before = entries.take(k as int);
            let ghost after = entries.take(k + 1);
            last.push(entry);
            names.insert(entry.generation.clone(), ());
            assert(entries[k as int] == *entry);
            assert forall|name: Seq<char>| generations_of(after).contains(name)
                == names@.dom().contains(name) by {
                if generations_of(before).contains(name) {
                    let j = choose|j: int|
                        0 <= j < before.len() && (#[trigger] before[j]).generation@ == name;
                    assert(after[j].generation@ == name);
                }
                if generations_of(after).contains(name) {
                    let j = choose|j: int|
                        0 <= j < after.len() && (#[trigger] after[j]).generation@ == name;
                    if j < k {
                        assert(before[j].generation@ == name);
                    }
                }
                assert(after[k as int].generation@ == entry.generation@);
            }
            k = k + 1;
            assert(names@.dom() =~= generations_of(entries.take(k as int)));
        }
        assert(entries.take(k as int) =~= entries);
        let ancestors = all_ancestors(&last, &names, Ghost(entries));
        match terminal_generation(&names, &ancestors) {
            Ok(name) => {
                terminal = name;
            },
            Err(message) => {
                return Err(message);
            },
        }
        assert(generations_of(entries).contains(terminal@)) by {
            assert(names@.dom().difference(ancestors@.dom()).contains(terminal@));
        }
    }
    let ghost wanted = |at: usize| is_finalist(catalogs@, top@, terminal@, at);
    let mut finalists: Vec<usize> = Vec::new();
    let mut m: usize = 0;
    assert(top@.take(0).filter(wanted) =~= Seq::empty()) by {
        reveal(Seq::filter);
    }
    while m < top.len()
        invariant
            m <= top@.len(),
            top@.len() > 0,
            daily == catalogs@[top@[0] as int].daily,
            wanted == (|at: usize| is_finalist(catalogs@, top@, terminal@, at)),
            forall|j: int| 0 <= j < top@.len() ==> #[trigger] top@[j] < catalogs@.len(),
            finalists@ == top@.take(m as int).filter(wanted),
            forall|j: int|
                0 <= j < finalists@.len() ==> #[trigger] finalists@[j] < catalogs@.len(),
            (exists|j: int| 0 <= j < m && wanted(#[trigger] top@[j])) ==> finalists@.len() > 0,
        decreases top@.len() - m,
    {
        let at: usize = top[m];
        proof {
            assert(top@.take(m + 1) =~= top@.take(m as int).push(at));
            top@.take(m as int).lemma_filter_push(at, wanted);
        }
        if !daily || same_text(catalogs[at].entry.generation.as_str(), terminal.as_str()) {
            finalists.push(at);
        }
        m = m + 1;
    }
    proof {
        assert(top@.take(m as int) =~= top@);
        assert(finalists@ == finalists_of(catalogs@, top@, terminal@));
        if daily {
            let j = choose|j: int|
                0 <= j < entries.len() && (#[trigger] entries[j]).generation@ == terminal@;
            assert(wanted(top@[j]));
        } else {
            assert(wanted(top@[0]));
        }
    }
    let p: usize = last_named(catalogs, &finalists);
    let selected: usize = finalists[p];
    let chosen = &catalogs[selected];
    let ghost unproved = |one: Denied| !is_superseded(catalogs@[selected as int], one);
    let mut d: usize = 0;
    while d < denied.len()
        invariant
            d <= denied@.len(),
            selected < catalogs@.len(),
            *chosen == catalogs@[selected as int],
            finalists@ == finalists_of(catalogs@, top@, terminal@),
            is_last_named(catalogs@, finalists@, p as int),
            finalists@[p as int] == selected,
            unproved == (|one: Denied| !is_superseded(catalogs@[selected as int], one)),
            forall|j: int| 0 <= j < d ==> !unproved(#[trigger] denied@[j]),
            top@ == newest_of(catalogs@, candidates@),
            entries == entries_of(catalogs@, top@),
            daily == catalogs@[top@[0] as int].daily,
            daily ==> generations_of(entries).difference(
                ancestors_of(entries, generations_of(entries)),
            ) == Set::empty().insert(terminal@),
            daily ==> terminal_refusal(
                generations_of(entries),
                ancestors_of(entries, generations_of(entries)),
            ) is None,
            early_refusal(catalogs@, candidates@, denied@, any_daily) is None,
        decreases denied@.len() - d,
    {
        let mut names: Table<()> = Table::new();
        names.insert(denied[d].generation.clone(), ());
        let found = lineage_references(
            &chosen.entry.lineage,
            &names,
            chosen.entry.generation.as_str(),
        );
        let superseded: bool = chosen.daily && found.contains(denied[d].generation.as_str());
        assert(superseded == is_superseded(*chosen, denied@[d as int]));
        if !superseded {
            proof {
                first_where_found(denied@, unproved, d as int);
                assert(is_choice(
                    catalogs@,
                    top@,
                    denied@,
                    terminal@,
                    p as int,
                    Err(denied@[d as int].reason@),
                ));
            }
            return Err(denied[d].reason.clone());
        }
        d = d + 1;
    }
    proof {
        first_where_absent(denied@, unproved);
        assert(is_choice(catalogs@, top@, denied@, terminal@, p as int, Ok(selected)));
    }
    Ok(selected)
}

/// The finalists among the newest candidates.
pub open spec fn finalists_of(
    catalogs: Seq<Archived>,
    top: Seq<usize>,
    terminal: Seq<char>,
) -> Seq<usize> {
    top.filter(|at: usize| is_finalist(catalogs, top, terminal, at))
}

/// A catalog that may not be opened is never passed over for lower coverage alone: it is only
/// where the chosen one's lineage names it.
pub proof fn denied_catalogs_are_never_passed_over_silently(
    chosen: Archived,
    denied: Seq<Denied>,
    k: int,
)
    requires
        first_where(denied, |one: Denied| !is_superseded(chosen, one)) is None,
        0 <= k < denied.len(),
    ensures
        chosen.daily,
        holds_text(chosen.entry.lineage, denied[k].generation@),
{
    crate::search::first_where_meets(denied, |one: Denied| !is_superseded(chosen, one));
}

} // verus!
