//! The choice of a daily generation: by verified migration family, by coverage, and by lineage.

use crate::digest::{digest, hex, sha256};
use crate::lineage::json::{
    find_member, find_text, holds_text, json_of, lineage_references, member, member_text, parse,
    view_of, Json,
};
use crate::lineage::migration::{MigrationMapping, MigrationRecord};
use crate::table::Table;
use crate::text::{join, refusal, same_text};
use vstd::prelude::*;
use vstd::string::*;

verus! {

/// A daily generation that may be chosen, with its lineage and the mapping that it holds.
#[derive(Debug)]
pub struct Candidate {
    pub generation: String,
    pub last_event_time: i64,
    pub lineage: Json,
    pub mapping: Result<MigrationMapping, String>,
}

/// Whether a lineage maps generations that it replaces.
pub open spec fn is_mapped(lineage: Json) -> bool {
    member(lineage, "v1_generations"@) is Some
}

/// The root that a generation continues: its own where the lineage names none.
pub open spec fn logical_root(generation: Seq<char>, lineage: Json) -> Seq<char> {
    match member_text(lineage, "root_generation"@) {
        Some(root) => root,
        None => generation,
    }
}

/// Whether a generation belongs to the family of a migration, or why that cannot be.
pub open spec fn family_of(
    generation: Seq<char>,
    lineage: Json,
    mapping: Result<MigrationMapping, String>,
    record: MigrationRecord,
) -> Result<bool, Seq<char>> {
    if logical_root(generation, lineage) != record.v2_root@ {
        Ok(false)
    } else if is_mapped(lineage) {
        match mapping {
            Err(message) => Err(message@),
            Ok(mapping) => if mapping.agrees(&record.mapping) {
                Ok(true)
            } else {
                Err("selected migration root disagrees with verified mapping"@)
            },
        }
    } else if generation == record.v2_root@ {
        Err("verified migration root is missing its mapping"@)
    } else {
        Ok(true)
    }
}

/// The answer of a decision that can be refused.
pub open spec fn answered<T>(result: Result<T, String>) -> Result<T, Seq<char>> {
    match result {
        Ok(value) => Ok(value),
        Err(message) => Err(message@),
    }
}

/// Decides whether a generation belongs to the family of a migration.
pub fn migration_family(
    generation: &str,
    lineage: &Json,
    mapping: &Result<MigrationMapping, String>,
    record: &MigrationRecord,
) -> (family: Result<bool, String>)
    ensures
        answered(family) == family_of(generation@, *lineage, *mapping, *record),
{
    let root: &str = match find_text(lineage, "root_generation") {
        Some(root) => root,
        None => generation,
    };
    if !same_text(root, record.v2_root.as_str()) {
        return Ok(false);
    }
    if find_member(lineage, "v1_generations").is_some() {
        match mapping {
            Err(message) => Err(message.clone()),
            Ok(mapping) => if mapping.same_as(&record.mapping) {
                Ok(true)
            } else {
                Err("selected migration root disagrees with verified mapping".to_owned())
            },
        }
    } else if same_text(generation, record.v2_root.as_str()) {
        Err("verified migration root is missing its mapping".to_owned())
    } else {
        Ok(true)
    }
}

/// The lineage of a generation as its bytes give it; a generation without one has an empty
/// lineage.
pub fn read_lineage(bytes: Option<&[u8]>) -> (lineage: Result<Json, String>)
    ensures
        match bytes {
            None => lineage matches Ok(Json::Object(members)) && members@.len() == 0,
            Some(bytes) => match json_of(bytes@) {
                Err(message) => refusal(lineage) == Some(message),
                Ok(view) => lineage matches Ok(value) && view_of(value) == view,
            },
        },
{
    match bytes {
        None => Ok(Json::Object(Vec::new())),
        Some(bytes) => parse(bytes),
    }
}

/// What a name stands for once a record was read under it. A name always stands for the same
/// contents, in canonical text.
pub open spec fn keeps_record(
    records: Map<Seq<char>, MigrationRecord>,
    texts: Map<Seq<char>, String>,
    name: Seq<char>,
    record: MigrationRecord,
    text: String,
    taken: Result<(), String>,
    records_after: Map<Seq<char>, MigrationRecord>,
    texts_after: Map<Seq<char>, String>,
) -> bool {
    if texts.dom().contains(name) && texts[name]@ != text@ {
        &&& refusal(taken) == Some("conflicting migration record bytes: "@ + name)
        &&& records_after == records
        &&& texts_after == texts
    } else {
        &&& taken is Ok
        &&& records_after == records.insert(name, record)
        &&& texts_after == texts.insert(name, text)
    }
}

/// Whether a document is a migration record at all: it names the root that it verified.
pub open spec fn is_migration(document: Json) -> bool {
    member(document, "v2_root"@) is Some
}

/// Takes a document that was read under a name. One that is no migration record is passed over;
/// of one that is, `decoded` is the record, or why it cannot be decoded, and `text` the canonical
/// text of that record.
pub fn insert_migration(
    records: &mut Table<MigrationRecord>,
    texts: &mut Table<String>,
    name: &str,
    bytes: &[u8],
    decoded: Result<MigrationRecord, String>,
    text: String,
) -> (taken: Result<(), String>)
    ensures
        match json_of(bytes@) {
            Err(message) => {
                &&& refusal(taken) == Some(message)
                &&& final(records)@ == old(records)@
                &&& final(texts)@ == old(texts)@
            },
            Ok(view) => exists|document: Json| #[trigger]
                view_of(document) == view && (if !is_migration(document) {
                    &&& taken is Ok
                    &&& final(records)@ == old(records)@
                    &&& final(texts)@ == old(texts)@
                } else {
                    match decoded {
                        Err(message) => {
                            &&& refusal(taken) == Some(message@)
                            &&& final(records)@ == old(records)@
                            &&& final(texts)@ == old(texts)@
                        },
                        Ok(record) => keeps_record(
                            old(records)@,
                            old(texts)@,
                            name@,
                            record,
                            text,
                            taken,
                            final(records)@,
                            final(texts)@,
                        ),
                    }
                }),
        },
{
    let document = match parse(bytes) {
        Ok(document) => document,
        Err(message) => {
            return Err(message);
        },
    };
    if find_member(&document, "v2_root").is_none() {
        assert(view_of(document) == json_of(bytes@)->Ok_0);
        return Ok(());
    }
    assert(is_migration(document));
    let record = match decoded {
        Ok(record) => record,
        Err(message) => {
            assert(view_of(document) == json_of(bytes@)->Ok_0);
            return Err(message);
        },
    };
    let conflict: bool = match texts.get(name) {
        Some(existing) => !same_text(existing.as_str(), text.as_str()),
        None => false,
    };
    assert(view_of(document) == json_of(bytes@)->Ok_0);
    if conflict {
        return Err(join("conflicting migration record bytes: ", name));
    }
    records.insert(name.to_owned(), record);
    texts.insert(name.to_owned(), text);
    Ok(())
}

/// Which of the first `count` candidates are chosen, by their indices, or why none can be.
pub open spec fn chosen_of(
    candidates: Seq<Candidate>,
    current: Option<MigrationRecord>,
    count: nat,
) -> Result<Seq<int>, Seq<char>>
    decreases count,
{
    if count == 0 {
        Ok(Seq::empty())
    } else {
        let candidate = candidates[count - 1];
        match chosen_of(candidates, current, (count - 1) as nat) {
            Err(message) => Err(message),
            Ok(before) => match current {
                Some(record) => match family_of(
                    candidate.generation@,
                    candidate.lineage,
                    candidate.mapping,
                    record,
                ) {
                    Err(message) => Err(message),
                    Ok(true) => Ok(before.push(count - 1)),
                    Ok(false) => Ok(before),
                },
                None => if is_mapped(candidate.lineage) {
                    Err("missing verified migration evidence for "@ + candidate.generation@)
                } else {
                    Ok(before.push(count - 1))
                },
            },
        }
    }
}

proof fn choice_refusal_stands(
    candidates: Seq<Candidate>,
    current: Option<MigrationRecord>,
    count: nat,
    total: nat,
)
    requires
        count <= total,
        chosen_of(candidates, current, count) is Err,
    ensures
        chosen_of(candidates, current, total) == chosen_of(candidates, current, count),
    decreases total,
{
    if count < total {
        choice_refusal_stands(candidates, current, count, (total - 1) as nat);
    }
}

/// The record behind a reference.
pub open spec fn record_behind(current: Option<&MigrationRecord>) -> Option<MigrationRecord> {
    match current {
        Some(record) => Some(*record),
        None => None,
    }
}

/// Indices as integers.
pub open spec fn as_ints(list: Seq<usize>) -> Seq<int> {
    list.map_values(|at: usize| at as int)
}

/// Chooses the daily generations of a job: those of the migration family in force; without one,
/// those that replace nothing.
pub fn selected_daily(candidates: &Vec<Candidate>, current: Option<&MigrationRecord>) -> (chosen:
    Result<Vec<usize>, String>)
    ensures
        match chosen_of(candidates@, record_behind(current), candidates@.len()) {
            Ok(list) => chosen matches Ok(found) && as_ints(found@) == list,
            Err(message) => refusal(chosen) == Some(message),
        },
        chosen matches Ok(found) ==> forall|i: int|
            0 <= i < found@.len() ==> #[trigger] found@[i] < candidates@.len(),
{
    let mut found: Vec<usize> = Vec::new();
    let ghost record = record_behind(current);
    let mut i: usize = 0;
    assert(as_ints(found@) =~= Seq::empty());
    while i < candidates.len()
        invariant
            i <= candidates@.len(),
            record == record_behind(current),
            chosen_of(candidates@, record, i as nat) == Ok::<Seq<int>, Seq<char>>(
                as_ints(found@),
            ),
            forall|j: int| 0 <= j < found@.len() ==> #[trigger] found@[j] < candidates@.len(),
        decreases candidates@.len() - i,
    {
        let candidate = &candidates[i];
        let ghost before = as_ints(found@);
        let belongs: Result<bool, String> = match current {
            Some(record) => migration_family(
                candidate.generation.as_str(),
                &candidate.lineage,
                &candidate.mapping,
                record,
            ),
            None => if find_member(&candidate.lineage, "v1_generations").is_some() {
                Err(
                    join(
                        "missing verified migration evidence for ",
                        candidate.generation.as_str(),
                    ),
                )
            } else {
                Ok(true)
            },
        };
        match belongs {
            Ok(true) => {
                found.push(i);
                assert(as_ints(found@) =~= before.push(i as int));
            },
            Ok(false) => {},
            Err(message) => {
                proof {
                    choice_refusal_stands(
                        candidates@,
                        record,
                        (i + 1) as nat,
                        candidates@.len(),
                    );
                }
                return Err(message);
            },
        }
        i = i + 1;
    }
    Ok(found)
}

/// The chosen generation through which a migration's mapping is verified: the root itself, or
/// else the first that maps what it replaces.
pub open spec fn is_proof_of(
    at: int,
    candidates: Seq<Candidate>,
    chosen: Seq<usize>,
    record: MigrationRecord,
) -> bool {
    let is_root = |i: int| candidates[chosen[i] as int].generation@ == record.v2_root@;
    let maps = |i: int| is_mapped(candidates[chosen[i] as int].lineage);
    &&& 0 <= at < chosen.len()
    &&& if exists|i: int| 0 <= i < chosen.len() && #[trigger] is_root(i) {
        is_root(at) && forall|i: int| 0 <= i < at ==> !#[trigger] is_root(i)
    } else {
        maps(at) && forall|i: int| 0 <= i < at ==> !#[trigger] maps(i)
    }
}

/// Finds the chosen generation through which a migration's mapping is verified.
pub fn migration_proof(candidates: &Vec<Candidate>, chosen: &Vec<usize>, record: &MigrationRecord) -> (
found: Result<usize, String>)
    requires
        forall|i: int| 0 <= i < chosen@.len() ==> #[trigger] chosen@[i] < candidates@.len(),
    ensures
        match found {
            Ok(at) => is_proof_of(at as int, candidates@, chosen@, *record),
            Err(message) => message@
                == "verified migration continuation root and descendants are absent"@ && forall|
                i: int,
            |
                0 <= i < chosen@.len() ==> candidates@[(#[trigger] chosen@[i]) as int].generation@
                    != record.v2_root@ && !is_mapped(candidates@[chosen@[i] as int].lineage),
        },
{
    let ghost is_root = |i: int| candidates@[chosen@[i] as int].generation@ == record.v2_root@;
    let ghost maps = |i: int| is_mapped(candidates@[chosen@[i] as int].lineage);
    let mut i: usize = 0;
    while i < chosen.len()
        invariant
            i <= chosen@.len(),
            is_root == (|i: int|
                candidates@[chosen@[i] as int].generation@ == record.v2_root@),
            forall|j: int| 0 <= j < chosen@.len() ==> #[trigger] chosen@[j] < candidates@.len(),
            forall|j: int| 0 <= j < i ==> !#[trigger] is_root(j),
        decreases chosen@.len() - i,
    {
        if same_text(candidates[chosen[i]].generation.as_str(), record.v2_root.as_str()) {
            assert(is_root(i as int));
            return Ok(i);
        }
        i = i + 1;
    }
    let mut k: usize = 0;
    while k < chosen.len()
        invariant
            k <= chosen@.len(),
            is_root == (|i: int|
                candidates@[chosen@[i] as int].generation@ == record.v2_root@),
            maps == (|i: int| is_mapped(candidates@[chosen@[i] as int].lineage)),
            forall|j: int| 0 <= j < chosen@.len() ==> #[trigger] chosen@[j] < candidates@.len(),
            forall|j: int| 0 <= j < chosen@.len() ==> !#[trigger] is_root(j),
            forall|j: int| 0 <= j < k ==> !#[trigger] maps(j),
        decreases chosen@.len() - k,
    {
        if find_member(&candidates[chosen[k]].lineage, "v1_generations").is_some() {
            assert(maps(k as int));
            return Ok(k);
        }
        k = k + 1;
    }
    assert forall|i: int| 0 <= i < chosen@.len() implies candidates@[(
    #[trigger] chosen@[i]) as int].generation@ != record.v2_root@ && !is_mapped(
        candidates@[chosen@[i] as int].lineage,
    ) by {
        assert(!is_root(i));
        assert(!maps(i));
    }
    Err("verified migration continuation root and descendants are absent".to_owned())
}

/// The generations of candidates.
pub open spec fn generations_of(candidates: Seq<Candidate>) -> Set<Seq<char>> {
    Set::new(
        |name: Seq<char>|
            exists|i: int| 0 <= i < candidates.len() && (#[trigger] candidates[i]).generation@ == name,
    )
}

/// Whether a candidate's lineage names another of the generations.
pub open spec fn has_predecessor(candidate: Candidate, names: Set<Seq<char>>) -> bool {
    exists|name: Seq<char>|
        names.contains(name) && #[trigger] holds_text(candidate.lineage, name) && name
            != candidate.generation@
}

/// The candidates without a predecessor among the first `count`, by their indices.
pub open spec fn roots_of(candidates: Seq<Candidate>, names: Set<Seq<char>>, count: nat) -> Seq<int>
    decreases count,
{
    if count == 0 {
        Seq::empty()
    } else {
        let before = roots_of(candidates, names, (count - 1) as nat);
        if has_predecessor(candidates[count - 1], names) {
            before
        } else {
            before.push(count - 1)
        }
    }
}

/// The roots that lineages name.
pub open spec fn logical_roots(candidates: Seq<Candidate>) -> Set<Seq<char>> {
    Set::new(
        |name: Seq<char>|
            exists|i: int|
                0 <= i < candidates.len() && member_text(
                    (#[trigger] candidates[i]).lineage,
                    "root_generation"@,
                ) == Some(name),
    )
}

fn generation_names(candidates: &Vec<Candidate>) -> (names: Table<()>)
    ensures
        names@.dom() == generations_of(candidates@),
{
    let mut names: Table<()> = Table::new();
    let mut i: usize = 0;
    assert(names@.dom() =~= generations_of(candidates@.take(0)));
    while i < candidates.len()
        invariant
            i <= candidates@.len(),
            names@.dom() == generations_of(candidates@.take(i as int)),
        decreases candidates@.len() - i,
    {
        let ghost before = candidates@.take(i as int);
        let ghost after = candidates@.take(i + 1);
        names.insert(candidates[i].generation.clone(), ());
        assert forall|name: Seq<char>| generations_of(after).contains(name)
            == names@.dom().contains(name) by {
            if generations_of(before).contains(name) {
                let j = choose|j: int|
                    0 <= j < before.len() && (#[trigger] before[j]).generation@ == name;
                assert(after[j].generation@ == name);
            }
            if generations_of(after).contains(name) {
                let j = choose|j: int|
                    0 <= j < after.len() && (#[trigger] after[j]).generation@ == name;
                if j < i {
                    assert(before[j].generation@ == name);
                }
            }
            assert(after[i as int].generation@ == candidates@[i as int].generation@);
        }
        i = i + 1;
        assert(names@.dom() =~= generations_of(candidates@.take(i as int)));
    }
    assert(candidates@.take(i as int) =~= candidates@);
    names
}

fn named_roots(candidates: &Vec<Candidate>) -> (names: Table<()>)
    ensures
        names@.dom() == logical_roots(candidates@),
{
    let mut names: Table<()> = Table::new();
    let mut i: usize = 0;
    assert(names@.dom() =~= logical_roots(candidates@.take(0)));
    while i < candidates.len()
        invariant
            i <= candidates@.len(),
            names@.dom() == logical_roots(candidates@.take(i as int)),
        decreases candidates@.len() - i,
    {
        let ghost before = candidates@.take(i as int);
        let ghost after = candidates@.take(i + 1);
        if let Some(root) = find_text(&candidates[i].lineage, "root_generation") {
            names.insert(root.to_owned(), ());
        }
        assert forall|name: Seq<char>| logical_roots(after).contains(name)
            == names@.dom().contains(name) by {
            if logical_roots(before).contains(name) {
                let j = choose|j: int|
                    0 <= j < before.len() && member_text(
                        (#[trigger] before[j]).lineage,
                        "root_generation"@,
                    ) == Some(name);
                assert(after[j] == before[j]);
            }
            if logical_roots(after).contains(name) {
                let j = choose|j: int|
                    0 <= j < after.len() && member_text(
                        (#[trigger] after[j]).lineage,
                        "root_generation"@,
                    ) == Some(name);
                if j < i {
                    assert(before[j] == after[j]);
                }
            }
            assert(after[i as int] == candidates@[i as int]);
        }
        i = i + 1;
        assert(names@.dom() =~= logical_roots(candidates@.take(i as int)));
    }
    assert(candidates@.take(i as int) =~= candidates@);
    names
}

/// Chooses the seed that a job continues: the only generation without a predecessor, where all
/// lineages name one root.
pub fn root(candidates: &Vec<Candidate>, instrument: &str) -> (found: Result<Option<usize>, String>)
    ensures
        ({
            let roots = roots_of(
                candidates@,
                generations_of(candidates@),
                candidates@.len(),
            );
            if candidates@.len() == 0 {
                found == Ok::<Option<usize>, String>(None)
            } else if roots.len() != 1 || logical_roots(candidates@).len() > 1 {
                refusal(found) == Some(
                    instrument@
                        + ": multiple daily continuation roots; an unambiguous migration binding is required"@,
                )
            } else {
                found matches Ok(Some(at)) && at == roots[0]
            }
        }),
{
    if candidates.len() == 0 {
        return Ok(None);
    }
    let names = generation_names(candidates);
    let logical = named_roots(candidates);
    let mut roots: Vec<usize> = Vec::new();
    let mut i: usize = 0;
    assert(as_ints(roots@) =~= roots_of(candidates@, generations_of(candidates@), 0));
    while i < candidates.len()
        invariant
            i <= candidates@.len(),
            names@.dom() == generations_of(candidates@),
            as_ints(roots@) == roots_of(candidates@, generations_of(candidates@), i as nat),
        decreases candidates@.len() - i,
    {
        let candidate = &candidates[i];
        let ghost before = as_ints(roots@);
        let found = lineage_references(
            &candidate.lineage,
            &names,
            candidate.generation.as_str(),
        );
        let free: bool = found.is_empty();
        proof {
            if free {
                assert forall|name: Seq<char>|
                    !(names@.dom().contains(name) && #[trigger] holds_text(
                        candidate.lineage,
                        name,
                    ) && name != candidate.generation@) by {
                    assert(!found@.dom().contains(name));
                }
            } else {
                assert(found@.dom() != Set::<Seq<char>>::empty());
                assert(exists|name: Seq<char>| found@.dom().contains(name)) by {
                    if forall|name: Seq<char>| !found@.dom().contains(name) {
                        assert(found@.dom() =~= Set::<Seq<char>>::empty());
                    }
                }
                let witness = choose|name: Seq<char>| found@.dom().contains(name);
                assert(holds_text(candidate.lineage, witness));
                assert(has_predecessor(candidates@[i as int], names@.dom()));
            }
        }
        if free {
            roots.push(i);
            assert(as_ints(roots@) =~= before.push(i as int));
        }
        i = i + 1;
    }
    if roots.len() != 1 || logical.len() > 1 {
        return Err(
            join(
                instrument,
                ": multiple daily continuation roots; an unambiguous migration binding is required",
            ),
        );
    }
    assert(as_ints(roots@)[0] == roots@[0]);
    Ok(Some(roots[0]))
}

/// Why there is no single newest generation.
pub open spec fn terminal_refusal(
    generations: Set<Seq<char>>,
    ancestors: Set<Seq<char>>,
) -> Option<Seq<char>> {
    let last = generations.difference(ancestors);
    if last.len() == 0 {
        Some("archive: cyclic daily lineage at newest coverage"@)
    } else if last.len() > 1 {
        Some(
            "archive: ambiguous daily lineage at equal coverage; no unique descendant is proved"@,
        )
    } else {
        None
    }
}

/// The only generation that is no ancestor.
pub fn terminal_generation(generations: &Table<()>, ancestors: &Table<()>) -> (newest: Result<
    String,
    String,
>)
    ensures
        refusal(newest) == terminal_refusal(generations@.dom(), ancestors@.dom()),
        newest matches Ok(newest) ==> generations@.dom().difference(ancestors@.dom())
            == Set::empty().insert(newest@),
{
    let count: usize = generations.len();
    let ghost keys = generations.keys();
    let ghost last = generations@.dom().difference(ancestors@.dom());
    let mut found: Table<()> = Table::new();
    let mut i: usize = 0;
    assert(found@.dom() =~= keys.take(0).to_set().intersect(last));
    while i < count
        invariant
            i <= count,
            keys == generations.keys(),
            count == keys.len(),
            last == generations@.dom().difference(ancestors@.dom()),
            forall|j: int| 0 <= j < count ==> generations@.dom().contains(#[trigger] keys[j]),
            found@.dom() == keys.take(i as int).to_set().intersect(last),
        decreases count - i,
    {
        let ghost before = keys.take(i as int);
        let ghost after = keys.take(i + 1);
        let (name, _) = generations.at(i);
        assert(after =~= before.push(name@));
        assert forall|text: Seq<char>| after.to_set().contains(text) == (
        before.to_set().contains(text) || text == name@) by {
            if before.contains(text) {
                let j = choose|j: int| 0 <= j < before.len() && before[j] == text;
                assert(after[j] == text);
            }
            if text == name@ {
                assert(after[i as int] == text);
            }
        }
        if !ancestors.contains(name) {
            found.insert(name.to_owned(), ());
        }
        i = i + 1;
        assert(found@.dom() =~= after.to_set().intersect(last));
    }
    proof {
        assert(keys.take(i as int) =~= keys);
        assert(keys.to_set() =~= generations@.dom());
        assert(found@.dom() =~= last);
    }
    let total: usize = found.len();
    if total == 0 {
        return Err("archive: cyclic daily lineage at newest coverage".to_owned());
    }
    if total > 1 {
        return Err(
            "archive: ambiguous daily lineage at equal coverage; no unique descendant is proved".to_owned(),
        );
    }
    let (name, _) = found.at(0);
    proof {
        assert(found.keys().to_set() =~= found@.dom());
        assert forall|text: Seq<char>| last.contains(text) == (text == name@) by {
            if last.contains(text) {
                assert(found.keys().to_set().contains(text));
                let j = choose|j: int| 0 <= j < found.keys().len() && found.keys()[j] == text;
                assert(j == 0);
            }
            assert(found.keys().contains(found.keys()[0]));
        }
        assert(last =~= Set::empty().insert(name@));
    }
    Ok(name.to_owned())
}

/// Confirms that lineage bytes are those that a manifest pins.
pub fn confirm_bytes(bytes: &[u8], expected_bytes: u64, expected_sha256: &str) -> (confirmed: Result<
    (),
    String,
>)
    ensures
        refusal(confirmed) == (if bytes@.len() == expected_bytes && hex(sha256(bytes@))
            == expected_sha256@ {
            None
        } else {
            Some("archive: lineage bytes disagree with the pinned manifest"@)
        }),
{
    let found = digest(bytes);
    if bytes.len() as u64 != expected_bytes || !same_text(found.as_str(), expected_sha256) {
        return Err("archive: lineage bytes disagree with the pinned manifest".to_owned());
    }
    Ok(())
}

/// The predecessors that lineages name among the generations.
pub open spec fn ancestors_of(candidates: Seq<Candidate>, names: Set<Seq<char>>) -> Set<Seq<char>> {
    Set::new(
        |name: Seq<char>|
            names.contains(name) && exists|i: int|
                0 <= i < candidates.len() && holds_text(
                    (#[trigger] candidates[i]).lineage,
                    name,
                ) && name != candidates[i].generation@,
    )
}

/// The predecessors that lineages name among the generations.
pub(crate) fn all_ancestors(candidates: &Vec<&Candidate>, names: &Table<()>, Ghost(plain): Ghost<Seq<Candidate>>) -> (
ancestors: Table<()>)
    requires
        plain.len() == candidates@.len(),
        forall|i: int| 0 <= i < plain.len() ==> #[trigger] plain[i] == *candidates@[i],
    ensures
        ancestors@.dom() == ancestors_of(plain, names@.dom()),
{
    let mut ancestors: Table<()> = Table::new();
    let mut i: usize = 0;
    assert(ancestors@.dom() =~= ancestors_of(plain.take(0), names@.dom()));
    while i < candidates.len()
        invariant
            i <= candidates@.len(),
            plain.len() == candidates@.len(),
            forall|j: int| 0 <= j < plain.len() ==> #[trigger] plain[j] == *candidates@[j],
            ancestors@.dom() == ancestors_of(plain.take(i as int), names@.dom()),
        decreases candidates@.len() - i,
    {
        let ghost before = plain.take(i as int);
        let ghost after = plain.take(i + 1);
        let candidate: &Candidate = candidates[i];
        assert(*candidate == plain[i as int]);
        let found = lineage_references(
            &candidate.lineage,
            names,
            candidate.generation.as_str(),
        );
        let ghost earlier = ancestors@.dom();
        extend(&mut ancestors, &found);
        assert forall|name: Seq<char>| ancestors_of(after, names@.dom()).contains(name)
            == ancestors@.dom().contains(name) by {
            assert(ancestors@.dom().contains(name) == (earlier.contains(name)
                || found@.dom().contains(name)));
            if earlier.contains(name) {
                let j = choose|j: int|
                    0 <= j < before.len() && holds_text((#[trigger] before[j]).lineage, name)
                        && name != before[j].generation@;
                assert(after[j] == before[j]);
            }
            if ancestors_of(after, names@.dom()).contains(name) {
                let j = choose|j: int|
                    0 <= j < after.len() && holds_text((#[trigger] after[j]).lineage, name) && name
                        != after[j].generation@;
                if j < i {
                    assert(before[j] == after[j]);
                }
            }
            assert(after[i as int] == *candidate);
        }
        i = i + 1;
        assert(ancestors@.dom() =~= ancestors_of(plain.take(i as int), names@.dom()));
    }
    assert(plain.take(i as int) =~= plain);
    ancestors
}

fn extend(all: &mut Table<()>, more: &Table<()>)
    ensures
        final(all)@.dom() == old(all)@.dom().union(more@.dom()),
{
    let ghost start = all@.dom();
    let count: usize = more.len();
    let ghost keys = more.keys();
    let mut i: usize = 0;
    assert(all@.dom() =~= start.union(keys.take(0).to_set()));
    while i < count
        invariant
            i <= count,
            keys == more.keys(),
            count == keys.len(),
            all@.dom() == start.union(keys.take(i as int).to_set()),
        decreases count - i,
    {
        let ghost before = keys.take(i as int);
        let ghost after = keys.take(i + 1);
        let (name, _) = more.at(i);
        all.insert(name.to_owned(), ());
        assert(after =~= before.push(name@));
        assert forall|text: Seq<char>| after.to_set().contains(text) == (
        before.to_set().contains(text) || text == name@) by {
            if before.contains(text) {
                let j = choose|j: int| 0 <= j < before.len() && before[j] == text;
                assert(after[j] == text);
            }
            if text == name@ {
                assert(after[i as int] == text);
            }
        }
        i = i + 1;
        assert(all@.dom() =~= start.union(after.to_set()));
    }
    proof {
        assert(keys.take(i as int) =~= keys);
        assert(keys.to_set() =~= more@.dom());
    }
}

/// The candidates with the latest end of coverage.
pub open spec fn at_end(candidates: Seq<Candidate>) -> Seq<Candidate> {
    candidates.filter(
        |candidate: Candidate|
            forall|i: int|
                0 <= i < candidates.len() ==> (#[trigger] candidates[i]).last_event_time
                    <= candidate.last_event_time,
    )
}

/// The newest generation: the one that is no ancestor among those with the latest coverage.
pub fn newest_from(candidates: &Vec<Candidate>) -> (newest: Result<String, String>)
    ensures
        ({
            let last = at_end(candidates@);
            let names = generations_of(last);
            &&& refusal(newest) == (if candidates@.len() == 0 {
                Some("pipeline: no daily-v2 dataset"@)
            } else {
                terminal_refusal(names, ancestors_of(last, names))
            })
            &&& newest matches Ok(newest) ==> names.difference(ancestors_of(last, names))
                == Set::empty().insert(newest@)
        }),
{
    if candidates.len() == 0 {
        return Err("pipeline: no daily-v2 dataset".to_owned());
    }
    let mut end: i64 = candidates[0].last_event_time;
    let mut k: usize = 1;
    while k < candidates.len()
        invariant
            1 <= k <= candidates@.len(),
            forall|j: int| 0 <= j < k ==> (#[trigger] candidates@[j]).last_event_time <= end,
            exists|j: int| 0 <= j < k && (#[trigger] candidates@[j]).last_event_time == end,
        decreases candidates@.len() - k,
    {
        if candidates[k].last_event_time > end {
            end = candidates[k].last_event_time;
            assert(candidates@[k as int].last_event_time == end);
        }
        k = k + 1;
    }
    let ghost latest = |candidate: Candidate|
        forall|i: int|
            0 <= i < candidates@.len() ==> (#[trigger] candidates@[i]).last_event_time
                <= candidate.last_event_time;
    let mut last: Vec<&Candidate> = Vec::new();
    let mut names: Table<()> = Table::new();
    let ghost mut plain: Seq<Candidate> = Seq::empty();
    let mut i: usize = 0;
    proof {
        assert(candidates@.take(0).filter(latest) =~= Seq::empty()) by {
            reveal(Seq::filter);
        }
        assert(names@.dom() =~= generations_of(plain));
    }
    while i < candidates.len()
        invariant
            i <= candidates@.len(),
            latest == (|candidate: Candidate|
                forall|i: int|
                    0 <= i < candidates@.len() ==> (#[trigger] candidates@[i]).last_event_time
                        <= candidate.last_event_time),
            forall|j: int|
                0 <= j < candidates@.len() ==> (#[trigger] candidates@[j]).last_event_time <= end,
            exists|j: int|
                0 <= j < candidates@.len() && (#[trigger] candidates@[j]).last_event_time == end,
            plain == candidates@.take(i as int).filter(latest),
            plain.len() == last@.len(),
            forall|j: int| 0 <= j < plain.len() ==> #[trigger] plain[j] == *last@[j],
            names@.dom() == generations_of(plain),
        decreases candidates@.len() - i,
    {
        let candidate: &Candidate = &candidates[i];
        let ghost before = plain;
        proof {
            assert(candidates@.take(i + 1) =~= candidates@.take(i as int).push(*candidate));
            candidates@.take(i as int).lemma_filter_push(*candidate, latest);
            let top = choose|j: int|
                0 <= j < candidates@.len() && (#[trigger] candidates@[j]).last_event_time == end;
            assert(latest(*candidate) == (candidate.last_event_time == end)) by {
                if latest(*candidate) {
                    assert(candidates@[top].last_event_time <= candidate.last_event_time);
                    assert(candidates@[i as int].last_event_time <= end);
                }
            }
        }
        if candidate.last_event_time == end {
            last.push(candidate);
            names.insert(candidate.generation.clone(), ());
            proof {
                plain = before.push(*candidate);
                assert forall|name: Seq<char>| generations_of(plain).contains(name)
                    == names@.dom().contains(name) by {
                    if generations_of(before).contains(name) {
                        let j = choose|j: int|
                            0 <= j < before.len() && (#[trigger] before[j]).generation@ == name;
                        assert(plain[j].generation@ == name);
                    }
                    if generations_of(plain).contains(name) {
                        let j = choose|j: int|
                            0 <= j < plain.len() && (#[trigger] plain[j]).generation@ == name;
                        if j < before.len() {
                            assert(before[j].generation@ == name);
                        }
                    }
                    assert(plain[before.len() as int].generation@ == candidate.generation@);
                }
                assert(names@.dom() =~= generations_of(plain));
            }
        }
        i = i + 1;
    }
    assert(candidates@.take(i as int) =~= candidates@);
    assert(plain == at_end(candidates@));
    let ancestors = all_ancestors(&last, &names, Ghost(plain));
    terminal_generation(&names, &ancestors)
}

} // verus!
