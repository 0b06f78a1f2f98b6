//! Migration records: which of them are verified, and which one is in force.

use crate::lineage::json::{equal, find_member, find_text, member, member_text, same, Json};
use crate::search::{first_where, first_where_absent, first_where_found};
use crate::table::{in_order, lists, same_names, Table};
use crate::text::{begins_with, decimal, join, refusal, same_optional, same_text, starts_with, text_of};
use vstd::prelude::*;
use vstd::string::*;

verus! {

/// The old generations and streams that one daily continuation root replaces.
#[derive(Debug)]
pub struct MigrationMapping {
    pub v1_generations: Table<()>,
    pub v1_stream: Option<String>,
    pub v1_streams: Table<()>,
}

impl MigrationMapping {
    /// All replaced streams.
    pub open spec fn all_streams(&self) -> Set<Seq<char>> {
        match self.v1_stream {
            Some(stream) => self.v1_streams@.dom().insert(stream@),
            None => self.v1_streams@.dom(),
        }
    }

    /// All replaced streams.
    pub fn streams(&self) -> (streams: Table<()>)
        ensures
            streams@.dom() == self.all_streams(),
    {
        let mut streams: Table<()> = Table::new();
        let count: usize = self.v1_streams.len();
        let ghost keys = self.v1_streams.keys();
        let mut i: usize = 0;
        assert(streams@.dom() =~= keys.take(0).to_set());
        while i < count
            invariant
                i <= count,
                keys == self.v1_streams.keys(),
                count == keys.len(),
                streams@.dom() == keys.take(i as int).to_set(),
            decreases count - i,
        {
            let (name, _) = self.v1_streams.at(i);
            let ghost before = keys.take(i as int);
            let ghost after = keys.take(i + 1);
            streams.insert(name.to_owned(), ());
            assert(after =~= before.push(name@));
            assert forall|text: Seq<char>| after.to_set().contains(text)
                == streams@.dom().contains(text) by {
                if before.contains(text) {
                    let j = choose|j: int| 0 <= j < before.len() && before[j] == text;
                    assert(after[j] == text);
                }
                assert(before.to_set().contains(text) == before.contains(text));
                assert(after[i as int] == name@);
            }
            assert(streams@.dom() =~= after.to_set());
            i = i + 1;
        }
        proof {
            assert(keys.take(i as int) =~= keys);
            assert(keys.to_set() =~= self.v1_streams@.dom());
        }
        if let Some(stream) = &self.v1_stream {
            streams.insert(stream.clone(), ());
        }
        assert(streams@.dom() =~= self.all_streams());
        streams
    }

    /// Whether two mappings name the same generations and streams.
    pub open spec fn agrees(&self, other: &MigrationMapping) -> bool {
        &&& self.v1_generations@.dom() == other.v1_generations@.dom()
        &&& text_of(self.v1_stream) == text_of(other.v1_stream)
        &&& self.v1_streams@.dom() == other.v1_streams@.dom()
    }

    /// Whether two mappings name the same generations and streams.
    pub fn same_as(&self, other: &MigrationMapping) -> (same_mapping: bool)
        ensures
            same_mapping == self.agrees(other),
    {
        same_names(&self.v1_generations, &other.v1_generations) && same_optional(
            &self.v1_stream,
            &other.v1_stream,
        ) && same_names(&self.v1_streams, &other.v1_streams)
    }
}

/// What a migration proved equal. Without an old stream there are no candles to compare.
#[derive(Debug, Clone, Copy)]
pub struct MigrationEquality {
    pub observations: bool,
    pub pages: bool,
    pub source_files: bool,
    pub candles: Option<bool>,
}

/// The record of one migration, with its further evidence.
#[derive(Debug)]
pub struct MigrationRecord {
    pub schema_version: u32,
    pub job: String,
    pub phase: String,
    pub mapping: MigrationMapping,
    pub v2_root: String,
    pub v2_stream: String,
    pub equality: MigrationEquality,
    pub evidence: Json,
    pub predecessor_jobs: Vec<String>,
    pub storage_aliases: Vec<String>,
}

/// The proof about candles in some evidence.
pub open spec fn candle_proof(evidence: Json) -> Option<Json> {
    match member(evidence, "proofs"@) {
        Some(proofs) => member(proofs, "candles"@),
        None => None,
    }
}

/// Whether a member is this flag.
pub open spec fn is_flag(value: Json, name: Seq<char>, flag: bool) -> bool {
    member(value, name) matches Some(Json::Bool(found)) && found == flag
}

/// Whether a member is there and is an object.
pub open spec fn is_object(value: Json, name: Seq<char>) -> bool {
    member(value, name) matches Some(Json::Object(_))
}

/// Whether a member is there and is an array.
pub open spec fn is_array(value: Json, name: Seq<char>) -> bool {
    member(value, name) matches Some(Json::Array(_))
}

/// The session of a definition.
pub open spec fn session_of(value: Json, name: Seq<char>) -> Json {
    match member(value, name) {
        Some(definition) => match member(definition, "session"@) {
            Some(session) => session,
            None => Json::Null,
        },
        None => Json::Null,
    }
}

/// Whether two members are equal; one that is missing is null.
pub open spec fn equal_members(value: Json, a: Seq<char>, b: Seq<char>) -> bool {
    let left = match member(value, a) {
        Some(found) => found,
        None => Json::Null,
    };
    let right = match member(value, b) {
        Some(found) => found,
        None => Json::Null,
    };
    equal(left, right)
}

/// Whether a proof about candles says nothing of sessions, as proofs from before them do.
pub open spec fn predates_sessions(candles: Json) -> bool {
    &&& member(candles, "basis"@) is None
    &&& member(candles, "session_product_verified"@) is None
    &&& member(candles, "legacy_definition"@) is None
    &&& member(candles, "product_definition"@) is None
    &&& member(candles, "legacy_streams"@) is None
    &&& member(candles, "product_streams"@) is None
}

/// Whether a proof about candles compares the product directly.
pub open spec fn proves_directly(candles: Json) -> bool {
    &&& is_flag(candles, "equal"@, true)
    &&& is_flag(candles, "profile_equal"@, true)
    &&& is_flag(candles, "session_product_verified"@, false)
    &&& is_object(candles, "product_definition"@)
    &&& session_of(candles, "product_definition"@) is Null
    &&& equal_members(candles, "legacy_definition"@, "product_definition"@)
    &&& is_array(candles, "legacy_streams"@)
    &&& equal_members(candles, "legacy_streams"@, "product_streams"@)
}

/// Whether a proof about candles reconstructs the old definition beside a product in sessions.
pub open spec fn proves_by_reconstruction(candles: Json) -> bool {
    &&& is_flag(candles, "equal"@, true)
    &&& is_flag(candles, "profile_equal"@, true)
    &&& is_flag(candles, "session_product_verified"@, true)
    &&& is_object(candles, "legacy_definition"@)
    &&& session_of(candles, "product_definition"@) is Object
    &&& is_array(candles, "legacy_streams"@)
    &&& is_array(candles, "product_streams"@)
}

/// Whether the proof about candles is consistent with its basis.
pub open spec fn consistent_proof(evidence: Json) -> bool {
    match candle_proof(evidence) {
        None => true,
        Some(candles) => match member_text(candles, "basis"@) {
            None => predates_sessions(candles),
            Some(basis) => if basis == "legacy_definition_reconstruction"@ {
                proves_by_reconstruction(candles)
            } else if basis == "direct_product_equality"@ {
                proves_directly(candles)
            } else {
                false
            },
        },
    }
}

fn flag_is(value: &Json, name: &str, flag: bool) -> (found: bool)
    ensures
        found == is_flag(*value, name@, flag),
{
    match find_member(value, name) {
        Some(Json::Bool(held)) => *held == flag,
        _ => false,
    }
}

fn object_at(value: &Json, name: &str) -> (found: bool)
    ensures
        found == is_object(*value, name@),
{
    match find_member(value, name) {
        Some(Json::Object(_)) => true,
        _ => false,
    }
}

fn array_at(value: &Json, name: &str) -> (found: bool)
    ensures
        found == is_array(*value, name@),
{
    match find_member(value, name) {
        Some(Json::Array(_)) => true,
        _ => false,
    }
}

fn present(value: &Json, name: &str) -> (found: bool)
    ensures
        found == (member(*value, name@) is Some),
{
    find_member(value, name).is_some()
}

fn same_members(value: &Json, a: &str, b: &str) -> (same_value: bool)
    ensures
        same_value == equal_members(*value, a@, b@),
{
    let null = Json::Null;
    let left: &Json = match find_member(value, a) {
        Some(found) => found,
        None => &null,
    };
    let right: &Json = match find_member(value, b) {
        Some(found) => found,
        None => &null,
    };
    same(left, right)
}

/// Whether the session of a definition is missing, and whether it is an object.
fn session(value: &Json, name: &str) -> (found: (bool, bool))
    ensures
        found.0 == (session_of(*value, name@) is Null),
        found.1 == (session_of(*value, name@) is Object),
{
    match find_member(value, name) {
        Some(definition) => match find_member(definition, "session") {
            Some(Json::Null) => (true, false),
            Some(Json::Object(_)) => (false, true),
            Some(_) => (false, false),
            None => (true, false),
        },
        None => (true, false),
    }
}

impl MigrationRecord {
    fn session_proof_consistent(&self) -> (consistent: bool)
        ensures
            consistent == consistent_proof(self.evidence),
    {
        let candles: &Json = match find_member(&self.evidence, "proofs") {
            Some(proofs) => match find_member(proofs, "candles") {
                Some(candles) => candles,
                None => {
                    return true;
                },
            },
            None => {
                return true;
            },
        };
        match find_text(candles, "basis") {
            None => !present(candles, "basis") && !present(candles, "session_product_verified") && !present(
                candles,
                "legacy_definition",
            ) && !present(candles, "product_definition") && !present(candles, "legacy_streams") && !present(
                candles,
                "product_streams",
            ),
            Some(basis) => {
                let (no_session, in_sessions) = session(candles, "product_definition");
                if same_text(basis, "legacy_definition_reconstruction") {
                    flag_is(candles, "equal", true) && flag_is(candles, "profile_equal", true)
                        && flag_is(candles, "session_product_verified", true) && object_at(
                        candles,
                        "legacy_definition",
                    ) && in_sessions && array_at(candles, "legacy_streams") && array_at(
                        candles,
                        "product_streams",
                    )
                } else if same_text(basis, "direct_product_equality") {
                    flag_is(candles, "equal", true) && flag_is(candles, "profile_equal", true)
                        && flag_is(candles, "session_product_verified", false) && object_at(
                        candles,
                        "product_definition",
                    ) && no_session && same_members(
                        candles,
                        "legacy_definition",
                        "product_definition",
                    ) && array_at(candles, "legacy_streams") && same_members(
                        candles,
                        "legacy_streams",
                        "product_streams",
                    )
                } else {
                    false
                }
            },
        }
    }

    /// Whether the record proves its migration: everything was compared and found equal.
    pub open spec fn is_verified(&self) -> bool {
        &&& self.schema_version == 1
        &&& self.phase@ == "verified"@
        &&& self.equality.observations
        &&& self.equality.pages
        &&& self.equality.source_files
        &&& consistent_proof(self.evidence)
        &&& if self.mapping.all_streams() == Set::<Seq<char>>::empty() {
            self.equality.candles is None
        } else {
            self.mapping.v1_stream is Some && self.equality.candles == Some(true)
        }
    }

    /// Whether the record proves its migration.
    pub fn verified(&self) -> (verified: bool)
        ensures
            verified == self.is_verified(),
    {
        if self.schema_version != 1 || !same_text(self.phase.as_str(), "verified")
            || !self.equality.observations || !self.equality.pages || !self.equality.source_files
            || !self.session_proof_consistent() {
            return false;
        }
        if self.mapping.streams().is_empty() {
            self.equality.candles.is_none()
        } else {
            self.mapping.v1_stream.is_some() && match self.equality.candles {
                Some(equal_candles) => equal_candles,
                None => false,
            }
        }
    }
}

/// Why a key is not that of a migration record.
pub open spec fn name_refusal(key: Seq<char>) -> Option<Seq<char>> {
    if !begins_with(key, "records/"@) {
        Some("migration record key must start with records/"@)
    } else {
        let name = key.subrange("records/"@.len() as int, key.len() as int);
        if name.len() == 0 || name == "."@ || name == ".."@ || name.contains('/')
            || name.contains('\\') {
            Some("migration record must have one safe filename"@)
        } else {
            None
        }
    }
}

/// The filename in the key of a migration record.
pub fn record_name<'a>(key: &'a str) -> (name: Result<&'a str, String>)
    ensures
        refusal(name) == name_refusal(key@),
        name matches Ok(name) ==> name@ == key@.subrange(
            "records/"@.len() as int,
            key@.len() as int,
        ),
{
    if !starts_with(key, "records/") {
        return Err("migration record key must start with records/".to_owned());
    }
    let skip: usize = "records/".unicode_len();
    let length: usize = key.unicode_len();
    let name = key.substring_char(skip, length);
    let count: usize = name.unicode_len();
    let mut unsafe_name: bool = count == 0 || same_text(name, ".") || same_text(name, "..");
    let mut i: usize = 0;
    while i < count
        invariant
            i <= count,
            count == name@.len(),
            unsafe_name == (name@.len() == 0 || name@ == "."@ || name@ == ".."@ || (exists|j: int|
                0 <= j < i && (#[trigger] name@[j] == '/' || name@[j] == '\\'))),
        decreases count - i,
    {
        let c = name.get_char(i);
        if c == '/' || c == '\\' {
            unsafe_name = true;
            assert(name@[i as int] == '/' || name@[i as int] == '\\');
        }
        i = i + 1;
    }
    proof {
        if name@.contains('/') {
            let j = choose|j: int| 0 <= j < name@.len() && name@[j] == '/';
            assert(name@[j] == '/' || name@[j] == '\\');
        }
        if name@.contains('\\') {
            let j = choose|j: int| 0 <= j < name@.len() && name@[j] == '\\';
            assert(name@[j] == '/' || name@[j] == '\\');
        }
    }
    if unsafe_name {
        return Err("migration record must have one safe filename".to_owned());
    }
    Ok(name)
}

/// The names of a job's records.
pub open spec fn owned(records: Map<Seq<char>, MigrationRecord>, job: Seq<char>) -> Set<Seq<char>> {
    records.dom().filter(|name: Seq<char>| records[name].job@ == job)
}

/// What a record says it supersedes.
pub open spec fn supersession(record: MigrationRecord) -> Option<Json> {
    match member(record.evidence, "supersedes"@) {
        Some(Json::Null) => None,
        other => other,
    }
}

/// The name of the record that a record supersedes.
pub open spec fn superseded_name(record: MigrationRecord) -> Option<Seq<char>> {
    match supersession(record) {
        Some(Json::Text(name)) => Some(name@),
        _ => None,
    }
}

/// Why one step back from a record is refused.
pub open spec fn step_refusal(
    records: Map<Seq<char>, MigrationRecord>,
    job: Seq<char>,
    seen: Set<Seq<char>>,
    cursor: MigrationRecord,
) -> Option<Seq<char>> {
    match supersession(cursor) {
        None => None,
        Some(Json::Text(previous)) => if name_refusal("records/"@ + previous@) is Some {
            name_refusal("records/"@ + previous@)
        } else if seen.contains(previous@) {
            Some("cyclic migration supersession"@)
        } else if !owned(records, job).contains(previous@) {
            Some("missing verified superseded migration record "@ + previous@)
        } else if !records[previous@].is_verified() {
            Some("missing verified migration evidence: "@ + previous@)
        } else {
            None
        },
        Some(_) => Some("invalid migration supersession name"@),
    }
}

/// Why the chain of supersessions back from a record is refused.
pub open spec fn chain_refusal(
    records: Map<Seq<char>, MigrationRecord>,
    job: Seq<char>,
    seen: Set<Seq<char>>,
    cursor: MigrationRecord,
) -> Option<Seq<char>>
    decreases owned(records, job).difference(seen).len(),
    when records.dom().finite()
{
    let step = step_refusal(records, job, seen, cursor);
    match superseded_name(cursor) {
        None => step,
        Some(previous) => if step is Some {
            step
        } else {
            proof {
                fewer_unseen(records, job, seen, previous);
            }
            chain_refusal(records, job, seen.insert(previous), records[previous])
        },
    }
}

/// One step back leaves fewer records that were not seen.
pub proof fn fewer_unseen(
    records: Map<Seq<char>, MigrationRecord>,
    job: Seq<char>,
    seen: Set<Seq<char>>,
    name: Seq<char>,
)
    requires
        records.dom().finite(),
        owned(records, job).contains(name),
        !seen.contains(name),
    ensures
        owned(records, job).difference(seen.insert(name)).len() < owned(records, job).difference(
            seen,
        ).len(),
{
    let all = owned(records, job);
    assert(all.difference(seen.insert(name)) =~= all.difference(seen).remove(name));
    assert(all.finite());
    assert(all.difference(seen).finite());
}

/// Why a record of the job, and the chain back from it, is refused.
pub open spec fn record_refusal(
    records: Map<Seq<char>, MigrationRecord>,
    job: Seq<char>,
    name: Seq<char>,
) -> Option<Seq<char>> {
    if !records[name].is_verified() {
        Some("missing verified migration evidence: "@ + name)
    } else {
        chain_refusal(records, job, Set::empty().insert(name), records[name])
    }
}

/// The job's records that no record of the job supersedes.
pub open spec fn terminals(
    records: Map<Seq<char>, MigrationRecord>,
    job: Seq<char>,
) -> Set<Seq<char>> {
    owned(records, job).filter(
        |name: Seq<char>|
            forall|other: Seq<char>| #[trigger]
                owned(records, job).contains(other) ==> superseded_name(records[other]) != Some(
                    name,
                ),
    )
}

/// Why there is no record in force.
pub open spec fn current_refusal(
    records: Map<Seq<char>, MigrationRecord>,
    job: Seq<char>,
) -> Option<Seq<char>> {
    let names = in_order(owned(records, job));
    let refused = first_where(names, |name: Seq<char>| record_refusal(records, job, name) is Some);
    if owned(records, job) == Set::<Seq<char>>::empty() {
        None
    } else if refused is Some {
        record_refusal(records, job, names[refused->0])
    } else if terminals(records, job).len() == 0 {
        Some("cyclic migration supersession"@)
    } else if terminals(records, job).len() > 1 {
        Some("competing verified migration records; no unique superseding record"@)
    } else {
        None
    }
}

fn owned_names(records: &Table<MigrationRecord>, job: &str) -> (names: Table<()>)
    ensures
        names@.dom() == owned(records@, job@),
        records@.dom().finite(),
{
    let mut names: Table<()> = Table::new();
    let count: usize = records.len();
    let ghost keys = records.keys();
    let ghost all = owned(records@, job@);
    let mut i: usize = 0;
    assert(names@.dom() =~= keys.take(0).to_set().intersect(all));
    while i < count
        invariant
            i <= count,
            keys == records.keys(),
            count == keys.len(),
            all == owned(records@, job@),
            forall|j: int| 0 <= j < count ==> records@.dom().contains(#[trigger] keys[j]),
            names@.dom() == keys.take(i as int).to_set().intersect(all),
        decreases count - i,
    {
        let ghost before = keys.take(i as int);
        let ghost after = keys.take(i + 1);
        let (name, record) = records.at(i);
        assert(after =~= before.push(name@));
        assert forall|text: Seq<char>| after.to_set().contains(text) == (
        before.to_set().contains(text) || text == name@) by {
            if before.contains(text) {
                let j = choose|j: int| 0 <= j < before.len() && before[j] == text;
                assert(after[j] == text);
            }
            if text == name@ {
                assert(after[i as int] == text);
            }
        }
        if same_text(record.job.as_str(), job) {
            names.insert(name.to_owned(), ());
        }
        i = i + 1;
        assert(names@.dom() =~= after.to_set().intersect(all));
    }
    proof {
        assert(keys.take(i as int) =~= keys);
        assert(keys.to_set() =~= records@.dom());
        assert(names@.dom() =~= all);
    }
    names
}

/// Whether every superseded name so far is superseded by a record of the job.
spec fn all_superseded(
    records: Map<Seq<char>, MigrationRecord>,
    job: Seq<char>,
    superseded: Set<Seq<char>>,
) -> bool {
    forall|name: Seq<char>| #[trigger]
        superseded.contains(name) ==> exists|other: Seq<char>| #[trigger]
            owned(records, job).contains(other) && superseded_name(records[other]) == Some(name)
}

fn walk_back(
    records: &Table<MigrationRecord>,
    names: &Table<()>,
    job: &str,
    name: &str,
    superseded: &mut Table<()>,
) -> (walked: Result<(), String>)
    requires
        names@.dom() == owned(records@, job@),
        records@.dom().finite(),
        names@.dom().contains(name@),
        all_superseded(records@, job@, old(superseded)@.dom()),
    ensures
        refusal(walked) == record_refusal(records@, job@, name@),
        walked is Ok ==> {
            &&& all_superseded(records@, job@, final(superseded)@.dom())
            &&& old(superseded)@.dom().subset_of(final(superseded)@.dom())
            &&& superseded_name(records@[name@]) matches Some(previous)
                ==> final(superseded)@.dom().contains(previous)
        },
{
    let ghost start = superseded@.dom();
    let first: &MigrationRecord = match records.get(name) {
        Some(record) => record,
        None => {
            return Err(join("missing verified migration evidence: ", name));
        },
    };
    if !first.verified() {
        return Err(join("missing verified migration evidence: ", name));
    }
    let mut seen: Table<()> = Table::new();
    seen.insert(name.to_owned(), ());
    assert(seen@.dom() =~= Set::empty().insert(name@));
    let mut cursor: &MigrationRecord = first;
    let ghost mut at = name@;
    loop
        invariant
            names@.dom() == owned(records@, job@),
            records@.dom().finite(),
            names@.dom().contains(name@),
            names@.dom().contains(at),
            *cursor == records@[at],
            *first == records@[name@],
            first.is_verified(),
            at == name@ || (superseded_name(*first) matches Some(previous)
                && superseded@.dom().contains(previous)),
            all_superseded(records@, job@, superseded@.dom()),
            start.subset_of(superseded@.dom()),
            chain_refusal(records@, job@, seen@.dom(), *cursor) == chain_refusal(
                records@,
                job@,
                Set::empty().insert(name@),
                *first,
            ),
        ensures
            chain_refusal(records@, job@, Set::empty().insert(name@), *first) is None,
            superseded_name(*first) matches Some(previous) ==> superseded@.dom().contains(
                previous,
            ),
            all_superseded(records@, job@, superseded@.dom()),
            start.subset_of(superseded@.dom()),
            *first == records@[name@],
            first.is_verified(),
        decreases owned(records@, job@).difference(seen@.dom()).len(),
    {
        let previous: &str = match find_member(&cursor.evidence, "supersedes") {
            None => {
                break;
            },
            Some(Json::Null) => {
                break;
            },
            Some(Json::Text(previous)) => previous.as_str(),
            Some(_) => {
                return Err("invalid migration supersession name".to_owned());
            },
        };
        assert(superseded_name(*cursor) == Some(previous@));
        let key = join("records/", previous);
        if let Err(message) = record_name(key.as_str()) {
            return Err(message);
        }
        if seen.contains(previous) {
            return Err("cyclic migration supersession".to_owned());
        }
        if !names.contains(previous) {
            return Err(join("missing verified superseded migration record ", previous));
        }
        let predecessor: &MigrationRecord = match records.get(previous) {
            Some(record) => record,
            None => {
                return Err(join("missing verified superseded migration record ", previous));
            },
        };
        if !predecessor.verified() {
            return Err(join("missing verified migration evidence: ", previous));
        }
        let ghost before = superseded@.dom();
        let ghost passed = seen@.dom();
        superseded.insert(previous.to_owned(), ());
        seen.insert(previous.to_owned(), ());
        proof {
            assert(seen@.dom() =~= passed.insert(previous@));
            fewer_unseen(records@, job@, passed, previous@);
            assert(all_superseded(records@, job@, superseded@.dom())) by {
                assert forall|text: Seq<char>| #[trigger]
                    superseded@.dom().contains(text) implies exists|other: Seq<char>| #[trigger]
                    owned(records@, job@).contains(other) && superseded_name(records@[other])
                        == Some(text) by {
                    if text == previous@ {
                        assert(owned(records@, job@).contains(at));
                    } else {
                        assert(before.contains(text));
                    }
                }
            }
            at = previous@;
        }
        cursor = predecessor;
    }
    Ok(())
}

/// The record in force for a job: the only one that no record supersedes. Names of immutable
/// records order migrations, not versions or mutable checkpoints.
pub fn current_migration<'a>(records: &'a Table<MigrationRecord>, job: &str) -> (current: Result<
    Option<&'a MigrationRecord>,
    String,
>)
    ensures
        refusal(current) == current_refusal(records@, job@),
        current matches Ok(found) ==> match found {
            Some(record) => {
                &&& terminals(records@, job@).len() == 1
                &&& exists|name: Seq<char>| #[trigger]
                    terminals(records@, job@).contains(name) && *record == records@[name]
            },
            None => owned(records@, job@) == Set::<Seq<char>>::empty(),
        },
{
    let names = owned_names(records, job);
    if names.is_empty() {
        return Ok(None);
    }
    let count: usize = names.len();
    let ghost keys = names.keys();
    let ghost refused = |name: Seq<char>| record_refusal(records@, job@, name) is Some;
    let mut superseded: Table<()> = Table::new();
    let mut i: usize = 0;
    while i < count
        invariant
            i <= count,
            keys == names.keys(),
            count == keys.len(),
            names@.dom() == owned(records@, job@),
            names@.dom() != Set::<Seq<char>>::empty(),
            keys == in_order(owned(records@, job@)),
            records@.dom().finite(),
            forall|j: int| 0 <= j < count ==> names@.dom().contains(#[trigger] keys[j]),
            refused == (|name: Seq<char>| record_refusal(records@, job@, name) is Some),
            forall|j: int| 0 <= j < i ==> !refused(#[trigger] keys[j]),
            all_superseded(records@, job@, superseded@.dom()),
            forall|j: int|
                0 <= j < i ==> (superseded_name(records@[#[trigger] keys[j]]) matches Some(
                    previous,
                ) ==> superseded@.dom().contains(previous)),
        decreases count - i,
    {
        let (name, _) = names.at(i);
        let ghost before = superseded@.dom();
        match walk_back(records, &names, job, name, &mut superseded) {
            Ok(_) => {},
            Err(message) => {
                proof {
                    first_where_found(keys, refused, i as int);
                }
                return Err(message);
            },
        }
        i = i + 1;
    }
    proof {
        first_where_absent(keys, refused);
    }
    let ghost last = terminals(records@, job@);
    proof {
        assert(lists(keys, names@.dom()));
        assert forall|name: Seq<char>| last.contains(name) == (names@.dom().contains(name)
            && !superseded@.dom().contains(name)) by {
            if names@.dom().contains(name) && !superseded@.dom().contains(name) {
                assert forall|other: Seq<char>| #[trigger]
                    owned(records@, job@).contains(other) implies superseded_name(records@[other])
                    != Some(name) by {
                    assert(keys.to_set().contains(other));
                    let j = choose|j: int| 0 <= j < count && keys[j] == other;
                    assert(superseded_name(records@[keys[j]]) == superseded_name(records@[other]));
                }
            }
        }
    }
    let mut newest: Table<()> = Table::new();
    let mut k: usize = 0;
    assert(newest@.dom() =~= keys.take(0).to_set().intersect(last));
    while k < count
        invariant
            k <= count,
            keys == names.keys(),
            count == keys.len(),
            names@.dom() == owned(records@, job@),
            forall|j: int| 0 <= j < count ==> names@.dom().contains(#[trigger] keys[j]),
            forall|name: Seq<char>|
                last.contains(name) == (names@.dom().contains(name) && !superseded@.dom().contains(
                    name,
                )),
            newest@.dom() == keys.take(k as int).to_set().intersect(last),
        decreases count - k,
    {
        let ghost before = keys.take(k as int);
        let ghost after = keys.take(k + 1);
        let (name, _) = names.at(k);
        assert(after =~= before.push(name@));
        assert forall|text: Seq<char>| after.to_set().contains(text) == (
        before.to_set().contains(text) || text == name@) by {
            if before.contains(text) {
                let j = choose|j: int| 0 <= j < before.len() && before[j] == text;
                assert(after[j] == text);
            }
            if text == name@ {
                assert(after[k as int] == text);
            }
        }
        if !superseded.contains(name) {
            newest.insert(name.to_owned(), ());
        }
        k = k + 1;
        assert(newest@.dom() =~= after.to_set().intersect(last));
    }
    proof {
        assert(keys.take(k as int) =~= keys);
        assert(keys.to_set() =~= names@.dom());
        assert(newest@.dom() =~= last);
    }
    let total: usize = newest.len();
    if total == 0 {
        return Err("cyclic migration supersession".to_owned());
    }
    if total > 1 {
        return Err(
            "competing verified migration records; no unique superseding record".to_owned(),
        );
    }
    let (name, _) = newest.at(0);
    assert(newest@.dom().contains(newest.keys()[0]));
    assert(last.contains(name@));
    Ok(records.get(name))
}

/// The record in force is superseded by none of the job's records, and every other record of the
/// job is superseded.
pub proof fn the_current_migration_is_the_only_terminal(
    records: Map<Seq<char>, MigrationRecord>,
    job: Seq<char>,
    current: Seq<char>,
    other: Seq<char>,
)
    requires
        records.dom().finite(),
        terminals(records, job).len() == 1,
        terminals(records, job).contains(current),
        owned(records, job).contains(other),
        other != current,
    ensures
        exists|newer: Seq<char>| #[trigger]
            owned(records, job).contains(newer) && superseded_name(records[newer]) == Some(other),
        forall|newer: Seq<char>| #[trigger]
            owned(records, job).contains(newer) ==> superseded_name(records[newer]) != Some(
                current,
            ),
{
    let last = terminals(records, job);
    if last.contains(other) {
        assert(owned(records, job).finite());
        assert(last.finite());
        assert(last.remove(current).contains(other));
        assert(last.remove(current).len() == 0);
    }
}

/// Whether a character is a hexadecimal digit.
pub open spec fn is_hex_digit(c: char) -> bool {
    ('0' <= c && c <= '9') || ('a' <= c && c <= 'f') || ('A' <= c && c <= 'F')
}

/// Whether a text is the identity of a generation: 64 hexadecimal digits.
pub open spec fn is_identity(text: Seq<char>) -> bool {
    text.len() == 64 && forall|i: int| 0 <= i < text.len() ==> is_hex_digit(#[trigger] text[i])
}

/// Checks the identity of a migration's stream.
pub fn check_stream_identity(text: &str) -> (checked: Result<(), String>)
    ensures
        refusal(checked) == (if is_identity(text@) {
            None
        } else {
            Some("invalid migration stream identity"@)
        }),
{
    let length: usize = text.unicode_len();
    if length != 64 {
        return Err("invalid migration stream identity".to_owned());
    }
    let mut i: usize = 0;
    while i < length
        invariant
            i <= length,
            length == text@.len(),
            length == 64,
            forall|j: int| 0 <= j < i ==> is_hex_digit(#[trigger] text@[j]),
        decreases length - i,
    {
        let c = text.get_char(i);
        if !(('0' <= c && c <= '9') || ('a' <= c && c <= 'f') || ('A' <= c && c <= 'F')) {
            assert(!is_hex_digit(text@[i as int]));
            return Err("invalid migration stream identity".to_owned());
        }
        i = i + 1;
    }
    Ok(())
}

/// Whether a record is verified evidence for a job's root with a mapping.
pub fn applies(record: &MigrationRecord, job: &str, root: &str, mapping: &MigrationMapping) -> (
evidence: bool)
    ensures
        evidence == (record.is_verified() && record.job@ == job@ && record.v2_root@ == root@
            && record.mapping.agrees(mapping)),
{
    record.verified() && same_text(record.job.as_str(), job) && same_text(
        record.v2_root.as_str(),
        root,
    ) && record.mapping.same_as(mapping)
}

/// The name of a record that a lineage binds.
pub open spec fn bound_name(binding: Json) -> Option<Seq<char>> {
    match member_text(binding, "name"@) {
        Some(name) => Some(name),
        None => member_text(binding, "record"@),
    }
}

/// The name of a record that a lineage binds.
pub fn binding_name<'a>(binding: &'a Json) -> (name: Result<&'a str, String>)
    ensures
        match name {
            Ok(name) => bound_name(*binding) == Some(name@),
            Err(message) => bound_name(*binding) is None && message@
                == "migration record name absent"@,
        },
{
    if let Some(name) = find_text(binding, "name") {
        return Ok(name);
    }
    match find_text(binding, "record") {
        Some(name) => Ok(name),
        None => Err("migration record name absent".to_owned()),
    }
}

/// Checks a record that a lineage binds against the file that was found.
pub fn check_binding(binding: &Json, name: &str, bytes: u64, sha256: &str) -> (checked: Result<
    (),
    String,
>)
    ensures
        refusal(checked) == (if (member(*binding, "bytes"@) matches Some(Json::Number(number))
            && number@ == decimal(bytes as nat)) && member_text(*binding, "sha256"@) == Some(
            sha256@,
        ) {
            None
        } else {
            Some("migration record identity mismatch: "@ + name@)
        }),
{
    let length = crate::text::decimal_text(bytes);
    let same_length: bool = match find_member(binding, "bytes") {
        Some(Json::Number(number)) => same_text(number.as_str(), length.as_str()),
        _ => false,
    };
    let same_sum: bool = match find_text(binding, "sha256") {
        Some(sum) => same_text(sum, sha256),
        None => false,
    };
    if !same_length || !same_sum {
        return Err(join("migration record identity mismatch: ", name));
    }
    Ok(())
}

} // verus!
