//! The choice of an archived catalog, step by step: what must be read next, which catalogs are
//! candidates, and in the end which one is chosen.

use crate::dataset::Layout;
use crate::digest::{hex, sha256};
use crate::lineage::catalog::{
    check_manifest, check_root, check_stream, cumulative, is_cumulative, is_newest_choice,
    newest_catalog, pinned_root, standing, standing_of, Archived, Bound, Denied, Pinned, Standing,
};
use crate::lineage::migration::{
    current_migration, current_refusal, name_refusal, owned, record_name, terminals,
    MigrationRecord,
};
use crate::lineage::select::{confirm_bytes, family_of, migration_family, Candidate};
use crate::live::rows::{position, position_meets, position_of};
use crate::market::DatasetRole;
use crate::table::Table;
use crate::text::{finishes_with, refusal, same_text, strip_suffix};
use vstd::prelude::*;
use vstd::string::*;

verus! {

/// What a manifest or a stream says that it is.
#[derive(Debug)]
pub struct Facts {
    pub generation: String,
    pub instrument: String,
    pub role: DatasetRole,
    pub layout: Option<Layout>,
}

impl Facts {
    fn bound<'a>(&'a self) -> (bound: Bound<'a>)
        ensures
            is_bound(bound, *self),
    {
        Bound {
            generation: self.generation.as_str(),
            instrument: self.instrument.as_str(),
            role: self.role,
            layout: self.layout,
        }
    }
}

/// Whether a binding says what facts say.
pub open spec fn is_bound(bound: Bound<'_>, facts: Facts) -> bool {
    &&& bound.generation@ == facts.generation@
    &&& bound.instrument@ == facts.instrument@
    &&& bound.role == facts.role
    &&& bound.layout == facts.layout
}

/// The root of a migration as a catalog pins it: whether it may be opened, what it is, and its
/// lineage, or why that cannot be read.
#[derive(Debug)]
pub struct PinnedRoot {
    pub permitted: Result<(), String>,
    pub manifest: Facts,
    pub lineage: Result<Candidate, String>,
}

/// The stream of a migration as a catalog pins it.
#[derive(Debug)]
pub struct PinnedStream {
    pub permitted: Result<(), String>,
    pub manifest: Facts,
    pub source_generation: String,
}

/// What is known of a catalog: its own claims, why it may not be opened, and what was read.
#[derive(Debug)]
pub struct Catalog {
    pub job: String,
    pub claims: Facts,
    pub denied: Option<String>,
    pub records: Vec<Pinned>,
    /// The generations of its manifests: first its stream, then those of its lineage.
    pub stream: String,
    pub manifests: Vec<String>,
    pub manifest: Option<Facts>,
    pub root: Option<PinnedRoot>,
    pub bound_stream: Option<PinnedStream>,
}

impl Catalog {
    /// Whether the catalog is a daily one.
    pub open spec fn is_daily(&self) -> bool {
        self.claims.layout is Some
    }

    /// Whether the catalog is a daily one that may be opened.
    pub open spec fn is_open(&self) -> bool {
        self.is_daily() && self.denied is None
    }

    /// Where the catalog pins a stream: as its own, or among its manifests, which come after.
    pub open spec fn stream_at(&self, generation: Seq<char>) -> Option<int> {
        if self.stream@ == generation {
            Some(0)
        } else {
            match position_of(self.manifests@, generation) {
                Some(at) => Some(at + 1),
                None => None,
            }
        }
    }
}

/// What is to be done for the choice.
#[derive(Debug)]
pub enum Choice {
    /// The manifest and the lineage of a catalog are to be read.
    Open(usize),
    /// The root of the migration is to be read, as a catalog pins it.
    Root { catalog: usize, at: usize },
    /// The stream of the migration is to be read, as a catalog pins it.
    Stream { catalog: usize, at: usize },
    /// This catalog is chosen.
    Chosen(usize),
}

/// What is done about a record that a catalog pins.
#[derive(Debug, Clone, Copy, PartialEq, Eq, Structural)]
pub enum RecordStep {
    /// It is no document.
    Skip,
    /// It was read under its name before, with these very bytes.
    Known,
    /// It is to be read.
    Read,
}

/// Decides about a record that a catalog pins: `read` are the documents that were read, by their
/// names. A name stands for the same bytes in every catalog.
pub fn record_step(read: &Table<Vec<u8>>, entry: &Pinned) -> (step: Result<RecordStep, String>)
    ensures
        ({
            let name = entry.key@.subrange("records/"@.len() as int, entry.key@.len() as int);
            match name_refusal(entry.key@) {
                Some(message) => refusal(step) == Some(message),
                None => if !finishes_with(name, ".json"@) {
                    step == Ok::<RecordStep, String>(RecordStep::Skip)
                } else if !read@.dom().contains(name) {
                    step == Ok::<RecordStep, String>(RecordStep::Read)
                } else if read@[name]@.len() == entry.bytes && hex(sha256(read@[name]@))
                    == entry.sha256@ {
                    step == Ok::<RecordStep, String>(RecordStep::Known)
                } else {
                    refusal(step) == Some(
                        "archive: lineage bytes disagree with the pinned manifest"@,
                    )
                },
            }
        }),
{
    let name = match record_name(entry.key.as_str()) {
        Ok(name) => name,
        Err(message) => {
            return Err(message);
        },
    };
    if strip_suffix(name, ".json").is_none() {
        return Ok(RecordStep::Skip);
    }
    match read.get(name) {
        None => Ok(RecordStep::Read),
        Some(bytes) => match confirm_bytes(
            bytes.as_slice(),
            entry.bytes,
            entry.sha256.as_str(),
        ) {
            Ok(_) => Ok(RecordStep::Known),
            Err(message) => Err(message),
        },
    }
}

/// How far catalogs were opened.
pub enum Opening {
    Refused(Seq<char>),
    Open(int),
    Done,
}

/// How far the first `count` catalogs were opened: every daily one that may be is, in order, and
/// agrees with its manifest.
pub open spec fn opening_of(catalogs: Seq<Catalog>, count: nat) -> Opening
    decreases count,
{
    if count == 0 {
        Opening::Done
    } else {
        match opening_of(catalogs, (count - 1) as nat) {
            Opening::Done => {
                let catalog = catalogs[count - 1];
                if !catalog.is_open() {
                    Opening::Done
                } else {
                    match catalog.manifest {
                        None => Opening::Open(count - 1),
                        Some(manifest) => if facts_alike(manifest, catalog.claims) {
                            Opening::Done
                        } else {
                            Opening::Refused(
                                "archive: catalog disagrees with lineage manifest"@,
                            )
                        },
                    }
                }
            },
            decided => decided,
        }
    }
}

/// Whether facts are the same.
pub open spec fn facts_alike(a: Facts, b: Facts) -> bool {
    &&& a.generation@ == b.generation@
    &&& a.instrument@ == b.instrument@
    &&& a.role == b.role
    &&& a.layout == b.layout
}

/// The record in force for a job, where one is.
pub open spec fn in_force(
    records: Map<Seq<char>, MigrationRecord>,
    job: Seq<char>,
) -> Option<MigrationRecord> {
    if owned(records, job) == Set::<Seq<char>>::empty() {
        None
    } else {
        Some(records[choose|name: Seq<char>| terminals(records, job).contains(name)])
    }
}

/// What is found of one catalog.
pub enum Finding {
    Refused(Seq<char>),
    Candidate,
    Skip,
    Root(int),
    Stream(int),
}

/// What the stream that a catalog pins makes of it.
pub open spec fn stream_finding(catalog: Catalog, record: MigrationRecord) -> Finding {
    match catalog.stream_at(record.v2_stream@) {
        None => Finding::Refused("catalog omits the verified migration stream"@),
        Some(at) => match catalog.bound_stream {
            None => Finding::Stream(at),
            Some(stream) => match stream.permitted {
                Err(reason) => Finding::Refused(reason@),
                Ok(_) => if stream.manifest.generation@ == record.v2_stream@
                    && stream.source_generation@ == record.v2_root@
                    && stream.manifest.instrument@ == catalog.claims.instrument@
                    && stream.manifest.role == catalog.claims.role
                    && stream.manifest.layout is Some {
                    Finding::Candidate
                } else {
                    Finding::Refused("migration stream does not bind its daily continuation root"@)
                },
            },
        },
    }
}

/// Why the root that a catalog pins does not bear out its migration, or that it was not read.
pub open spec fn root_finding(catalog: Catalog, record: MigrationRecord) -> Option<Finding> {
    match position_of(catalog.manifests@, record.v2_root@) {
        None => Some(Finding::Refused("catalog omits the verified migration root"@)),
        Some(at) => match catalog.root {
            None => Some(Finding::Root(at)),
            Some(root) => match root.permitted {
                Err(reason) => Some(Finding::Refused(reason@)),
                Ok(_) => if !(root.manifest.generation@ == record.v2_root@
                    && root.manifest.instrument@ == catalog.claims.instrument@
                    && root.manifest.role == catalog.claims.role && root.manifest.layout is Some) {
                    Some(Finding::Refused("catalog migration root binding mismatch"@))
                } else {
                    match root.lineage {
                        Err(message) => Some(Finding::Refused(message@)),
                        Ok(entry) => match family_of(
                            root.manifest.generation@,
                            entry.lineage,
                            entry.mapping,
                            record,
                        ) {
                            Err(message) => Some(Finding::Refused(message)),
                            Ok(false) => Some(
                                Finding::Refused("catalog migration root binding mismatch"@),
                            ),
                            Ok(true) => None,
                        },
                    }
                },
            },
        },
    }
}

/// What is found of one catalog that was opened where it may be.
pub open spec fn finding_of(
    catalog: Catalog,
    archived: Archived,
    records: Map<Seq<char>, MigrationRecord>,
) -> Finding {
    if !catalog.is_daily() {
        Finding::Candidate
    } else if catalog.denied is Some {
        Finding::Skip
    } else {
        match current_refusal(records, catalog.job@) {
            Some(message) => Finding::Refused(message),
            None => match standing_of(archived.entry, in_force(records, catalog.job@)) {
                Err(message) => Finding::Refused(message),
                Ok(Standing::Candidate) => Finding::Candidate,
                Ok(Standing::Skip) => Finding::Skip,
                Ok(Standing::Verify { needs_root }) => {
                    let record = in_force(records, catalog.job@)->0;
                    let rooted = if needs_root {
                        root_finding(catalog, record)
                    } else {
                        None
                    };
                    match rooted {
                        Some(found) => found,
                        None => if !is_cumulative(records, catalog.job@, catalog.records@) {
                            Finding::Skip
                        } else {
                            stream_finding(catalog, record)
                        },
                    }
                },
            },
        }
    }
}

enum Found {
    Refused(String),
    Candidate,
    Skip,
    Root(usize),
    Stream(usize),
}

spec fn finding(found: Found) -> Finding {
    match found {
        Found::Refused(message) => Finding::Refused(message@),
        Found::Candidate => Finding::Candidate,
        Found::Skip => Finding::Skip,
        Found::Root(at) => Finding::Root(at as int),
        Found::Stream(at) => Finding::Stream(at as int),
    }
}

proof fn the_record_in_force(
    records: Map<Seq<char>, MigrationRecord>,
    job: Seq<char>,
    name: Seq<char>,
)
    requires
        records.dom().finite(),
        terminals(records, job).len() == 1,
        terminals(records, job).contains(name),
    ensures
        in_force(records, job) == Some(records[name]),
{
    let all = terminals(records, job);
    assert(owned(records, job).finite());
    assert(all.finite());
    Set::lemma_is_singleton(all);
    let chosen = choose|other: Seq<char>| terminals(records, job).contains(other);
    assert(all.contains(chosen));
    assert(owned(records, job).contains(name));
}

fn judge_root(catalog: &Catalog, record: &MigrationRecord) -> (found: Option<Found>)
    ensures
        match found {
            Some(found) => root_finding(*catalog, *record) == Some(finding(found)),
            None => root_finding(*catalog, *record) is None,
        },
{
    let at: usize = match pinned_root(&catalog.manifests, record) {
        Ok(at) => at,
        Err(message) => {
            return Some(Found::Refused(message));
        },
    };
    let root = match &catalog.root {
        Some(root) => root,
        None => {
            return Some(Found::Root(at));
        },
    };
    if let Err(reason) = &root.permitted {
        return Some(Found::Refused(reason.clone()));
    }
    if let Err(message) = check_root(root.manifest.bound(), catalog.claims.bound(), record) {
        return Some(Found::Refused(message));
    }
    let entry = match &root.lineage {
        Ok(entry) => entry,
        Err(message) => {
            return Some(Found::Refused(message.clone()));
        },
    };
    match migration_family(
        root.manifest.generation.as_str(),
        &entry.lineage,
        &entry.mapping,
        record,
    ) {
        Err(message) => Some(Found::Refused(message)),
        Ok(belongs) => if belongs {
            None
        } else {
            Some(Found::Refused("catalog migration root binding mismatch".to_owned()))
        },
    }
}

fn judge_stream(catalog: &Catalog, record: &MigrationRecord) -> (found: Found)
    ensures
        finding(found) == stream_finding(*catalog, *record),
{
    let at: usize = if same_text(catalog.stream.as_str(), record.v2_stream.as_str()) {
        0
    } else {
        match position(&catalog.manifests, record.v2_stream.as_str()) {
            Some(at) => {
                proof {
                    position_meets(catalog.manifests@, record.v2_stream@);
                }
                assert(at < catalog.manifests.len());
                at + 1
            },
            None => {
                return Found::Refused("catalog omits the verified migration stream".to_owned());
            },
        }
    };
    let stream = match &catalog.bound_stream {
        Some(stream) => stream,
        None => {
            return Found::Stream(at);
        },
    };
    if let Err(reason) = &stream.permitted {
        return Found::Refused(reason.clone());
    }
    match check_stream(
        stream.manifest.bound(),
        stream.source_generation.as_str(),
        catalog.claims.bound(),
        record,
    ) {
        Ok(_) => Found::Candidate,
        Err(message) => Found::Refused(message),
    }
}

fn judge(catalog: &Catalog, archived: &Archived, records: &Table<MigrationRecord>) -> (found: Found)
    ensures
        finding(found) == finding_of(*catalog, *archived, records@),
{
    if catalog.claims.layout.is_none() {
        return Found::Candidate;
    }
    if catalog.denied.is_some() {
        return Found::Skip;
    }
    let current = match current_migration(records, catalog.job.as_str()) {
        Ok(current) => current,
        Err(message) => {
            return Found::Refused(message);
        },
    };
    let _ = records.len();
    proof {
        if let Some(record) = current {
            let name = choose|name: Seq<char>| #[trigger]
                terminals(records@, catalog.job@).contains(name) && *record == records@[name];
            the_record_in_force(records@, catalog.job@, name);
        }
    }
    match standing(&archived.entry, current) {
        Err(message) => Found::Refused(message),
        Ok(Standing::Candidate) => Found::Candidate,
        Ok(Standing::Skip) => Found::Skip,
        Ok(Standing::Verify { needs_root }) => match current {
            Some(record) => {
                if needs_root {
                    if let Some(found) = judge_root(catalog, record) {
                        return found;
                    }
                }
                if !cumulative(records, catalog.job.as_str(), &catalog.records) {
                    return Found::Skip;
                }
                judge_stream(catalog, record)
            },
            None => Found::Skip,
        },
    }
}

/// How far catalogs were judged.
pub enum Judging {
    Refused(Seq<char>),
    /// A catalog, and what is to be read of it.
    Read(int, Finding),
    /// The candidates, by their indices.
    Done(Seq<usize>),
}

/// How far the first `count` catalogs were judged: the first that refuses or needs something
/// decides.
pub open spec fn judging_of(
    catalogs: Seq<Catalog>,
    archived: Seq<Archived>,
    records: Map<Seq<char>, MigrationRecord>,
    count: nat,
) -> Judging
    decreases count,
{
    if count == 0 {
        Judging::Done(Seq::empty())
    } else {
        match judging_of(catalogs, archived, records, (count - 1) as nat) {
            Judging::Done(before) => match finding_of(
                catalogs[count - 1],
                archived[count - 1],
                records,
            ) {
                Finding::Refused(message) => Judging::Refused(message),
                Finding::Candidate => Judging::Done(before.push((count - 1) as usize)),
                Finding::Skip => Judging::Done(before),
                needed => Judging::Read(count - 1, needed),
            },
            decided => decided,
        }
    }
}

proof fn judging_stands(
    catalogs: Seq<Catalog>,
    archived: Seq<Archived>,
    records: Map<Seq<char>, MigrationRecord>,
    count: nat,
    total: nat,
)
    requires
        count <= total,
        !(judging_of(catalogs, archived, records, count) is Done),
    ensures
        judging_of(catalogs, archived, records, total) == judging_of(
            catalogs,
            archived,
            records,
            count,
        ),
    decreases total,
{
    if count < total {
        judging_stands(catalogs, archived, records, count, (total - 1) as nat);
    }
}

proof fn opening_stands(catalogs: Seq<Catalog>, count: nat, total: nat)
    requires
        count <= total,
        !(opening_of(catalogs, count) is Done),
    ensures
        opening_of(catalogs, total) == opening_of(catalogs, count),
    decreases total,
{
    if count < total {
        opening_stands(catalogs, count, (total - 1) as nat);
    }
}

/// The daily catalogs that may not be opened, among the first `count`.
pub open spec fn denied_of(catalogs: Seq<Catalog>, count: nat) -> Seq<Denied>
    decreases count,
{
    if count == 0 {
        Seq::empty()
    } else {
        let before = denied_of(catalogs, (count - 1) as nat);
        let catalog = catalogs[count - 1];
        match catalog.denied {
            Some(reason) => if catalog.is_daily() {
                before.push(Denied { generation: catalog.claims.generation, reason })
            } else {
                before
            },
            None => before,
        }
    }
}

/// Whether some daily catalog may be opened.
pub open spec fn any_open(catalogs: Seq<Catalog>) -> bool {
    exists|i: int| 0 <= i < catalogs.len() && (#[trigger] catalogs[i]).is_open()
}

/// Chooses an archived catalog, or says what must be read before one can be chosen: every daily
/// catalog that may be opened is, then each is held to the migration in force for its job, and
/// of those that stand the newest is chosen. `archived` is each catalog's generation, coverage
/// and lineage, which for one that was not opened is empty.
pub fn choose_catalog(
    catalogs: &Vec<Catalog>,
    archived: &Vec<Archived>,
    records: &Table<MigrationRecord>,
) -> (choice: Result<Choice, String>)
    requires
        catalogs@.len() == archived@.len(),
    ensures
        match opening_of(catalogs@, catalogs@.len()) {
            Opening::Refused(message) => refusal(choice) == Some(message),
            Opening::Open(at) => choice matches Ok(Choice::Open(found)) && found == at,
            Opening::Done => match judging_of(
                catalogs@,
                archived@,
                records@,
                catalogs@.len(),
            ) {
                Judging::Refused(message) => refusal(choice) == Some(message),
                Judging::Read(catalog, Finding::Root(at)) => choice matches Ok(
                    Choice::Root { catalog: found, at: place },
                ) && found == catalog && place == at,
                Judging::Read(catalog, Finding::Stream(at)) => choice matches Ok(
                    Choice::Stream { catalog: found, at: place },
                ) && found == catalog && place == at,
                Judging::Read(_, _) => false,
                Judging::Done(candidates) => match choice {
                    Ok(Choice::Chosen(at)) => is_newest_choice(
                        archived@,
                        candidates,
                        denied_of(catalogs@, catalogs@.len()),
                        any_open(catalogs@),
                        Ok(at),
                    ),
                    Ok(_) => false,
                    Err(message) => is_newest_choice(
                        archived@,
                        candidates,
                        denied_of(catalogs@, catalogs@.len()),
                        any_open(catalogs@),
                        Err(message@),
                    ),
                },
            },
        },
{
    let mut any: bool = false;
    let mut denied: Vec<Denied> = Vec::new();
    let mut i: usize = 0;
    while i < catalogs.len()
        invariant
            i <= catalogs@.len(),
            catalogs@.len() == archived@.len(),
            opening_of(catalogs@, i as nat) is Done,
            denied@ == denied_of(catalogs@, i as nat),
            any == (exists|j: int| 0 <= j < i && (#[trigger] catalogs@[j]).is_open()),
        decreases catalogs@.len() - i,
    {
        let catalog = &catalogs[i];
        assert(*catalog == catalogs@[i as int]);
        if catalog.claims.layout.is_some() {
            match &catalog.denied {
                Some(reason) => {
                    denied.push(
                        Denied {
                            generation: catalog.claims.generation.clone(),
                            reason: reason.clone(),
                        },
                    );
                },
                None => {
                    any = true;
                    assert(catalogs@[i as int].is_open());
                    match &catalog.manifest {
                        None => {
                            proof {
                                opening_stands(catalogs@, (i + 1) as nat, catalogs@.len());
                            }
                            return Ok(Choice::Open(i));
                        },
                        Some(manifest) => {
                            if let Err(message) = check_manifest(
                                manifest.bound(),
                                catalog.claims.bound(),
                            ) {
                                proof {
                                    opening_stands(catalogs@, (i + 1) as nat, catalogs@.len());
                                }
                                return Err(message);
                            }
                        },
                    }
                },
            }
        }
        i = i + 1;
    }
    let mut candidates: Vec<usize> = Vec::new();
    let mut k: usize = 0;
    while k < catalogs.len()
        invariant
            k <= catalogs@.len(),
            catalogs@.len() == archived@.len(),
            opening_of(catalogs@, catalogs@.len()) is Done,
            judging_of(catalogs@, archived@, records@, k as nat) == Judging::Done(candidates@),
            forall|j: int| 0 <= j < candidates@.len() ==> #[trigger] candidates@[j] < archived@.len(),
        decreases catalogs@.len() - k,
    {
        match judge(&catalogs[k], &archived[k], records) {
            Found::Refused(message) => {
                proof {
                    judging_stands(
                        catalogs@,
                        archived@,
                        records@,
                        (k + 1) as nat,
                        catalogs@.len(),
                    );
                }
                return Err(message);
            },
            Found::Candidate => {
                candidates.push(k);
            },
            Found::Skip => {},
            Found::Root(at) => {
                proof {
                    judging_stands(
                        catalogs@,
                        archived@,
                        records@,
                        (k + 1) as nat,
                        catalogs@.len(),
                    );
                }
                return Ok(Choice::Root { catalog: k, at });
            },
            Found::Stream(at) => {
                proof {
                    judging_stands(
                        catalogs@,
                        archived@,
                        records@,
                        (k + 1) as nat,
                        catalogs@.len(),
                    );
                }
                return Ok(Choice::Stream { catalog: k, at });
            },
        }
        k = k + 1;
    }
    match newest_catalog(archived, &candidates, &denied, any) {
        Ok(at) => Ok(Choice::Chosen(at)),
        Err(message) => Err(message),
    }
}

/// A catalog is chosen only once everything that it rests on was read: every daily catalog that
/// may be opened agrees with its manifest, and nothing is left to read of any.
pub proof fn a_choice_rests_on_everything(
    catalogs: Seq<Catalog>,
    at: int,
    count: nat,
)
    requires
        opening_of(catalogs, count) is Done,
        0 <= at < count,
        catalogs[at].is_open(),
    ensures
        catalogs[at].manifest matches Some(manifest) && facts_alike(manifest, catalogs[at].claims),
    decreases count,
{
    if at < count - 1 {
        a_choice_rests_on_everything(catalogs, at, (count - 1) as nat);
    }
}

} // verus!
