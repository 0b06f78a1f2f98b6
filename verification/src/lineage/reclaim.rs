//! The storage of single pages is reclaimed once a closed acquisition's daily generation, or a
//! verified replacement of it, carries every response. What anything else refers to stays.

use crate::dataset::Layout;
use crate::digest::{digest, hex, sha256};
use crate::fetch::coverage::{HistoryCoverage, PageReceipt};
use crate::lineage::json::{
    identical_values_have_the_same_members, identical_values_refer_alike, find_member, find_text, json_of,
    member, member_text, object_key, object_key_of, parse, references, refers_to,
    same_view_same_value, view_of, Json, JsonView,
};
use crate::market::DatasetRole;
use crate::table::{lists, Table};
use crate::text::{
    begins_with, finishes_with, join3, refusal, same_optional, same_text, starts_with,
    strip_suffix, text_of,
};
use vstd::prelude::*;
use vstd::string::*;

verus! {

/// The deletion inventory of a closed acquisition.
#[derive(Debug)]
pub struct Reclamation {
    pub intent: String,
    pub receipt: String,
    pub generation: String,
    pub pending_header_sha256: Option<String>,
    pub acquisitions: Table<()>,
    pub candidates: Table<()>,
    pub reclaimed: Table<()>,
    pub protected: Table<()>,
}

/// The acquisitions that requests belong to.
pub open spec fn acquisitions_of(requests: Seq<PageReceipt>) -> Set<Seq<char>> {
    Set::new(
        |id: Seq<char>|
            exists|i: int|
                0 <= i < requests.len() && (#[trigger] requests[i]).occurrence is Some
                    && requests[i].occurrence->0.acquisition_id@ == id,
    )
}

/// The stored objects of requests.
pub open spec fn objects_of(requests: Seq<PageReceipt>) -> Set<Seq<char>> {
    Set::new(
        |key: Seq<char>|
            exists|i: int|
                0 <= i < requests.len() && key == object_key_of((#[trigger] requests[i]).sha256@),
    )
}

fn collect_acquisitions(requests: &Vec<PageReceipt>) -> (found: Table<()>)
    ensures
        found@.dom() == acquisitions_of(requests@),
{
    let mut found: Table<()> = Table::new();
    let mut i: usize = 0;
    assert(found@.dom() =~= acquisitions_of(requests@.take(0)));
    while i < requests.len()
        invariant
            i <= requests@.len(),
            found@.dom() == acquisitions_of(requests@.take(i as int)),
        decreases requests@.len() - i,
    {
        let ghost before = requests@.take(i as int);
        let ghost after = requests@.take(i + 1);
        let ghost earlier = found@.dom();
        if let Some(occurrence) = &requests[i].occurrence {
            found.insert(occurrence.acquisition_id.clone(), ());
        }
        assert forall|id: Seq<char>| acquisitions_of(after).contains(id)
            == found@.dom().contains(id) by {
            if earlier.contains(id) {
                let j = choose|j: int|
                    0 <= j < before.len() && (#[trigger] before[j]).occurrence is Some
                        && before[j].occurrence->0.acquisition_id@ == id;
                assert(after[j] == before[j]);
            }
            if acquisitions_of(after).contains(id) {
                let j = choose|j: int|
                    0 <= j < after.len() && (#[trigger] after[j]).occurrence is Some
                        && after[j].occurrence->0.acquisition_id@ == id;
                if j < i {
                    assert(before[j] == after[j]);
                }
            }
            assert(after[i as int] == requests@[i as int]);
        }
        i = i + 1;
        assert(found@.dom() =~= acquisitions_of(requests@.take(i as int)));
    }
    assert(requests@.take(i as int) =~= requests@);
    found
}

fn collect_objects(requests: &Vec<PageReceipt>) -> (found: Table<()>)
    ensures
        found@.dom() == objects_of(requests@),
{
    let mut found: Table<()> = Table::new();
    let mut i: usize = 0;
    assert(found@.dom() =~= objects_of(requests@.take(0)));
    while i < requests.len()
        invariant
            i <= requests@.len(),
            found@.dom() == objects_of(requests@.take(i as int)),
        decreases requests@.len() - i,
    {
        let ghost before = requests@.take(i as int);
        let ghost after = requests@.take(i + 1);
        let ghost earlier = found@.dom();
        found.insert(object_key(requests[i].sha256.as_str()), ());
        assert forall|key: Seq<char>| objects_of(after).contains(key)
            == found@.dom().contains(key) by {
            if earlier.contains(key) {
                let j = choose|j: int|
                    0 <= j < before.len() && key == object_key_of((#[trigger] before[j]).sha256@);
                assert(after[j] == before[j]);
            }
            if objects_of(after).contains(key) {
                let j = choose|j: int|
                    0 <= j < after.len() && key == object_key_of((#[trigger] after[j]).sha256@);
                if j < i {
                    assert(before[j] == after[j]);
                }
            }
            assert(after[i as int] == requests@[i as int]);
        }
        i = i + 1;
        assert(found@.dom() =~= objects_of(requests@.take(i as int)));
    }
    assert(requests@.take(i as int) =~= requests@);
    found
}

/// Plans the reclamation of an acquisition's single pages.
pub fn schedule(
    intent: &str,
    receipt: &str,
    generation: &str,
    header: Option<&[u8]>,
    requests: &Vec<PageReceipt>,
) -> (plan: Reclamation)
    ensures
        plan.intent@ == intent@,
        plan.receipt@ == receipt@,
        plan.generation@ == generation@,
        text_of(plan.pending_header_sha256) == (match header {
            Some(bytes) => Some(hex(sha256(bytes@))),
            None => None,
        }),
        plan.acquisitions@.dom() == acquisitions_of(requests@),
        plan.candidates@.dom() == objects_of(requests@),
        plan.reclaimed@.dom() == Set::<Seq<char>>::empty(),
        plan.protected@.dom() == Set::<Seq<char>>::empty(),
{
    let reclaimed: Table<()> = Table::new();
    let protected: Table<()> = Table::new();
    assert(reclaimed@.dom() =~= Set::<Seq<char>>::empty());
    assert(protected@.dom() =~= Set::<Seq<char>>::empty());
    Reclamation {
        intent: intent.to_owned(),
        receipt: receipt.to_owned(),
        generation: generation.to_owned(),
        pending_header_sha256: match header {
            Some(bytes) => Some(digest(bytes)),
            None => None,
        },
        acquisitions: collect_acquisitions(requests),
        candidates: collect_objects(requests),
        reclaimed,
        protected,
    }
}

/// The filename of the plan that a receipt closes.
pub fn plan_name(receipt: &str) -> (name: String)
    ensures
        name@ == "reclaim-"@ + hex(sha256(vstd::utf8::encode_utf8(receipt@))) + ".json"@,
{
    let sum = digest(receipt.as_bytes());
    join3("reclaim-", sum.as_str(), ".json")
}

/// Whether a file of a job's directory is a plan.
pub fn is_plan(name: &str) -> (plan: bool)
    ensures
        plan == (begins_with(name@, "reclaim-"@) && finishes_with(name@, ".json"@)),
{
    starts_with(name, "reclaim-") && strip_suffix(name, ".json").is_some()
}

impl Reclamation {
    /// What is left to reclaim.
    pub open spec fn left(&self) -> Set<Seq<char>> {
        self.candidates@.dom().difference(self.reclaimed@.dom())
    }

    /// Whether everything was reclaimed.
    pub fn finished(&self) -> (finished: bool)
        ensures
            finished == (self.left() == Set::<Seq<char>>::empty()),
    {
        let count: usize = self.candidates.len();
        let ghost keys = self.candidates.keys();
        let mut i: usize = 0;
        while i < count
            invariant
                i <= count,
                keys == self.candidates.keys(),
                count == keys.len(),
                lists(keys, self.candidates@.dom()),
                forall|j: int|
                    0 <= j < count ==> self.candidates@.dom().contains(#[trigger] keys[j]),
                forall|j: int|
                    0 <= j < i ==> self.reclaimed@.dom().contains(#[trigger] keys[j]),
            decreases count - i,
        {
            let (key, _) = self.candidates.at(i);
            if !self.reclaimed.contains(key) {
                assert(self.left().contains(key@));
                return false;
            }
            i = i + 1;
        }
        proof {
            assert forall|key: Seq<char>| !self.left().contains(key) by {
                if self.candidates@.dom().contains(key) {
                    assert(keys.to_set().contains(key));
                    let j = choose|j: int| 0 <= j < count && keys[j] == key;
                    assert(self.reclaimed@.dom().contains(keys[j]));
                }
            }
            assert(self.left() =~= Set::<Seq<char>>::empty());
        }
        true
    }

    /// Whether a receipt closes the acquisition of this plan.
    pub open spec fn is_closed_by(&self, receipt: Json) -> bool {
        &&& member(receipt, "pending"@) == Some(Json::Bool(false))
        &&& member_text(receipt, "intent"@) == Some(self.intent@)
        &&& member_text(receipt, "dataset_generation"@) == Some(self.generation@)
    }

    /// Reads the receipt of the acquisition of this plan, which must close it.
    pub fn read_receipt(&self, bytes: &[u8]) -> (read: Result<Json, String>)
        ensures
            match json_of(bytes@) {
                Err(message) => refusal(read) == Some(message),
                Ok(view) => exists|receipt: Json| #[trigger]
                    view_of(receipt) == view && (if self.is_closed_by(receipt) {
                        read == Ok::<Json, String>(receipt)
                    } else {
                        refusal(read) == Some(
                            "reclamation receipt does not close this acquisition"@,
                        )
                    }),
            },
    {
        let receipt = match parse(bytes) {
            Ok(receipt) => receipt,
            Err(message) => {
                return Err(message);
            },
        };
        assert(view_of(receipt) == json_of(bytes@)->Ok_0);
        let pending: bool = match find_member(&receipt, "pending") {
            Some(Json::Bool(flag)) => *flag,
            _ => true,
        };
        let same_intent: bool = match find_text(&receipt, "intent") {
            Some(intent) => same_text(intent, self.intent.as_str()),
            None => false,
        };
        let same_generation: bool = match find_text(&receipt, "dataset_generation") {
            Some(generation) => same_text(generation, self.generation.as_str()),
            None => false,
        };
        if pending || !same_intent || !same_generation {
            return Err("reclamation receipt does not close this acquisition".to_owned());
        }
        Ok(receipt)
    }

    /// Whether a header is that of the closed acquisition: its intent, and its very bytes.
    pub open spec fn owns(&self, header: Seq<u8>, progress: Json) -> bool {
        member_text(progress, "intent"@) == Some(self.intent@) && text_of(
            self.pending_header_sha256,
        ) == Some(hex(sha256(header)))
    }

    /// Decides whether the progress that is still there is that of the closed acquisition, and
    /// with it is to be removed.
    pub fn owns_header(&self, header: &[u8]) -> (owned: Result<bool, String>)
        ensures
            match json_of(header@) {
                Err(message) => refusal(owned) == Some(message),
                Ok(view) => exists|progress: Json| #[trigger]
                    view_of(progress) == view && owned == Ok::<bool, String>(
                        self.owns(header@, progress),
                    ),
            },
    {
        let progress = match parse(header) {
            Ok(progress) => progress,
            Err(message) => {
                return Err(message);
            },
        };
        assert(view_of(progress) == json_of(header@)->Ok_0);
        let same_intent: bool = match find_text(&progress, "intent") {
            Some(intent) => same_text(intent, self.intent.as_str()),
            None => false,
        };
        let sum = digest(header);
        let same_header: bool = match &self.pending_header_sha256 {
            Some(expected) => same_text(expected.as_str(), sum.as_str()),
            None => false,
        };
        Ok(same_intent && same_header)
    }

    /// What still pins storage: the candidates that are left, and while there are any the
    /// generation that carries them.
    pub fn roots(&self) -> (roots: Table<()>)
        ensures
            roots@.dom() == (if self.left() == Set::<Seq<char>>::empty() {
                Set::<Seq<char>>::empty()
            } else {
                self.left().insert(self.generation@)
            }),
    {
        let mut roots: Table<()> = Table::new();
        let count: usize = self.candidates.len();
        let ghost keys = self.candidates.keys();
        let mut i: usize = 0;
        assert(roots@.dom() =~= keys.take(0).to_set().difference(self.reclaimed@.dom()));
        while i < count
            invariant
                i <= count,
                keys == self.candidates.keys(),
                count == keys.len(),
                roots@.dom() == keys.take(i as int).to_set().difference(self.reclaimed@.dom()),
            decreases count - i,
        {
            let ghost before = keys.take(i as int);
            let ghost after = keys.take(i + 1);
            let (key, _) = self.candidates.at(i);
            assert(after =~= before.push(key@));
            assert forall|text: Seq<char>| after.to_set().contains(text) == (
            before.to_set().contains(text) || text == key@) by {
                if before.contains(text) {
                    let j = choose|j: int| 0 <= j < before.len() && before[j] == text;
                    assert(after[j] == text);
                }
                if text == key@ {
                    assert(after[i as int] == text);
                }
            }
            if !self.reclaimed.contains(key) {
                roots.insert(key.to_owned(), ());
            }
            i = i + 1;
            assert(roots@.dom() =~= after.to_set().difference(self.reclaimed@.dom()));
        }
        proof {
            assert(keys.take(i as int) =~= keys);
            assert(keys.to_set() =~= self.candidates@.dom());
            assert(roots@.dom() =~= self.left());
        }
        if !roots.is_empty() {
            roots.insert(self.generation.clone(), ());
        }
        roots
    }

    /// Decides about one candidate: what was reclaimed stays so, what is protected is noted, and
    /// only the rest is deleted.
    pub fn settle(&mut self, protected: &Table<()>, key: &str) -> (delete: bool)
        ensures
            delete == (!old(self).reclaimed@.dom().contains(key@) && !protected@.dom().contains(
                key@,
            )),
            final(self).intent == old(self).intent,
            final(self).receipt == old(self).receipt,
            final(self).generation == old(self).generation,
            final(self).pending_header_sha256 == old(self).pending_header_sha256,
            final(self).acquisitions == old(self).acquisitions,
            final(self).candidates == old(self).candidates,
            final(self).reclaimed@ == (if delete {
                old(self).reclaimed@.insert(key@, ())
            } else {
                old(self).reclaimed@
            }),
            final(self).protected@ == (if !delete && !old(self).reclaimed@.dom().contains(key@) {
                old(self).protected@.insert(key@, ())
            } else {
                old(self).protected@
            }),
    {
        if self.reclaimed.contains(key) {
            return false;
        }
        if protected.contains(key) {
            self.protected.insert(key.to_owned(), ());
            return false;
        }
        self.reclaimed.insert(key.to_owned(), ());
        true
    }
}

/// The acquisition of a request in a receipt.
pub open spec fn request_acquisition(request: Json) -> Option<Seq<char>> {
    match member(request, "occurrence"@) {
        Some(occurrence) => member_text(occurrence, "acquisition_id"@),
        None => None,
    }
}

/// Whether a request of another acquisition relies on a stored object.
pub open spec fn relies_on(request: Json, acquisitions: Set<Seq<char>>, key: Seq<char>) -> bool {
    !(request_acquisition(request) matches Some(id) && acquisitions.contains(id)) && refers_to(
        request,
        key,
    )
}

/// Whether a record's requests of other acquisitions rely on a stored object.
pub open spec fn record_relies(
    record: Json,
    acquisitions: Set<Seq<char>>,
    key: Seq<char>,
) -> bool {
    member(record, "requests"@) matches Some(Json::Array(requests)) && exists|i: int|
        0 <= i < requests@.len() && relies_on(#[trigger] requests@[i], acquisitions, key)
}

/// Protects what other acquisitions' receipts rely on.
pub fn protect_requests(record: &Json, acquisitions: &Table<()>, protected: &mut Table<()>)
    ensures
        forall|key: Seq<char>| #[trigger]
            final(protected)@.dom().contains(key) == (old(protected)@.dom().contains(key)
                || record_relies(*record, acquisitions@.dom(), key)),
{
    let ghost start = protected@.dom();
    if let Some(Json::Array(requests)) = find_member(record, "requests") {
        let mut i: usize = 0;
        while i < requests.len()
            invariant
                i <= requests@.len(),
                forall|key: Seq<char>| #[trigger]
                    protected@.dom().contains(key) == (start.contains(key) || exists|j: int|
                        0 <= j < i && relies_on(
                            #[trigger] requests@[j],
                            acquisitions@.dom(),
                            key,
                        )),
            decreases requests@.len() - i,
        {
            let request = &requests[i];
            let ghost earlier = protected@.dom();
            let own: bool = match find_member(request, "occurrence") {
                Some(occurrence) => match find_text(occurrence, "acquisition_id") {
                    Some(id) => acquisitions.contains(id),
                    None => false,
                },
                None => false,
            };
            if !own {
                references(request, protected);
            }
            proof {
                assert forall|key: Seq<char>| #[trigger]
                    protected@.dom().contains(key) == (start.contains(key) || exists|j: int|
                        0 <= j < i + 1 && relies_on(
                            #[trigger] requests@[j],
                            acquisitions@.dom(),
                            key,
                        )) by {
                    assert(earlier.contains(key) == (start.contains(key) || exists|j: int|
                        0 <= j < i && relies_on(
                            #[trigger] requests@[j],
                            acquisitions@.dom(),
                            key,
                        )));
                    if exists|j: int|
                        0 <= j < i + 1 && relies_on(
                            #[trigger] requests@[j],
                            acquisitions@.dom(),
                            key,
                        ) {
                        let j = choose|j: int|
                            0 <= j < i + 1 && relies_on(
                                #[trigger] requests@[j],
                                acquisitions@.dom(),
                                key,
                            );
                        assert(relies_on(requests@[j], acquisitions@.dom(), key));
                    }
                    assert(requests@[i as int] == *request);
                }
            }
            i = i + 1;
        }
    }
}

/// Whether the document that bytes hold refers to a stored object.
pub open spec fn bytes_refer(bytes: Seq<u8>, key: Seq<char>) -> bool {
    exists|value: Json|
        json_of(bytes) == Ok::<JsonView, Seq<char>>(#[trigger] view_of(value)) && refers_to(
            value,
            key,
        )
}

/// Whether the objects of a manifest refer to a stored object.
pub open spec fn manifest_refers(bytes: Seq<u8>, key: Seq<char>) -> bool {
    exists|value: Json|
        json_of(bytes) == Ok::<JsonView, Seq<char>>(#[trigger] view_of(value)) && (member(
            value,
            "objects"@,
        ) matches Some(objects) && refers_to(objects, key))
}

/// Whether a receipt relies on a stored object for another acquisition.
pub open spec fn receipt_relies(
    bytes: Seq<u8>,
    acquisitions: Set<Seq<char>>,
    key: Seq<char>,
) -> bool {
    exists|value: Json|
        json_of(bytes) == Ok::<JsonView, Seq<char>>(#[trigger] view_of(value)) && record_relies(
            value,
            acquisitions,
            key,
        )
}

proof fn bytes_refer_as_read(bytes: Seq<u8>, read: Json, key: Seq<char>)
    requires
        json_of(bytes) == Ok::<JsonView, Seq<char>>(view_of(read)),
    ensures
        bytes_refer(bytes, key) == refers_to(read, key),
{
    if bytes_refer(bytes, key) {
        let value = choose|value: Json|
            json_of(bytes) == Ok::<JsonView, Seq<char>>(#[trigger] view_of(value)) && refers_to(
                value,
                key,
            );
        same_view_same_value(value, read);
        identical_values_refer_alike(value, read, key);
    }
}

/// Whether reclamation may go on.
#[derive(Debug, Clone, Copy, PartialEq, Eq, Structural)]
pub enum Scan {
    Continue,
    Stop,
}

/// Reads one line of a pending log. A line that does not parse may refer to anything: it is no
/// permission to delete, and its producer mends it on resumption.
pub fn scan_line(line: &[u8], protected: &mut Table<()>) -> (scan: Scan)
    ensures
        json_of(line@) is Err ==> scan is Stop && final(protected)@ == old(protected)@,
        json_of(line@) is Ok ==> scan is Continue && forall|key: Seq<char>| #[trigger]
            final(protected)@.dom().contains(key) == (old(protected)@.dom().contains(key)
                || bytes_refer(line@, key)),
{
    match parse(line) {
        Ok(value) => {
            references(&value, protected);
            proof {
                assert forall|key: Seq<char>| #[trigger]
                    bytes_refer(line@, key) == refers_to(value, key) by {
                    bytes_refer_as_read(line@, value, key);
                }
            }
            Scan::Continue
        },
        Err(_) => Scan::Stop,
    }
}

/// The beginning of the names under which fragments of interrupted appends are kept.
pub const UNRESOLVED_PREFIX: &'static str = "unresolved-received-";

/// Whether a directory holds a response that was never resolved.
pub open spec fn is_unresolved(names: Seq<String>) -> bool {
    exists|i: int|
        0 <= i < names.len() && begins_with((#[trigger] names[i])@, UNRESOLVED_PREFIX@)
}

/// Whether a directory holds a response that was never resolved.
pub fn holds_unresolved(names: &Vec<String>) -> (found: bool)
    ensures
        found == is_unresolved(names@),
{
    let mut i: usize = 0;
    while i < names.len()
        invariant
            i <= names@.len(),
            forall|j: int|
                0 <= j < i ==> !begins_with((#[trigger] names@[j])@, UNRESOLVED_PREFIX@),
        decreases names@.len() - i,
    {
        if starts_with(names[i].as_str(), UNRESOLVED_PREFIX) {
            return true;
        }
        i = i + 1;
    }
    false
}

/// The state of one job: the names in its directory, its pending header, and the lines of its
/// pending logs in order.
#[derive(Debug)]
pub struct PendingJob {
    pub names: Vec<String>,
    pub header: Option<Vec<u8>>,
    pub lines: Vec<Vec<u8>>,
}

/// Whether a line of a pending log does not parse.
pub open spec fn is_torn(lines: Seq<Vec<u8>>) -> bool {
    exists|i: int| 0 <= i < lines.len() && json_of((#[trigger] lines[i])@) is Err
}

/// What a job's state means for a reclamation: it goes on, stops, or cannot be judged.
pub open spec fn job_scan(job: PendingJob) -> Result<Scan, Seq<char>> {
    if is_unresolved(job.names@) {
        Ok(Scan::Stop)
    } else {
        match job.header {
            None => Ok(Scan::Continue),
            Some(header) => match json_of(header@) {
                Err(message) => Err(message),
                Ok(_) => if is_torn(job.lines@) {
                    Ok(Scan::Stop)
                } else {
                    Ok(Scan::Continue)
                },
            },
        }
    }
}

/// Whether pending work refers to a stored object.
pub open spec fn job_refers(job: PendingJob, key: Seq<char>) -> bool {
    job.header matches Some(header) && (bytes_refer(header@, key) || exists|i: int|
        0 <= i < job.lines@.len() && bytes_refer((#[trigger] job.lines@[i])@, key))
}

/// Reads the state of one job.
pub fn scan_job(job: &PendingJob, protected: &mut Table<()>) -> (scan: Result<Scan, String>)
    ensures
        match job_scan(*job) {
            Err(message) => refusal(scan) == Some(message),
            Ok(expected) => scan == Ok::<Scan, String>(expected),
        },
        scan == Ok::<Scan, String>(Scan::Continue) ==> forall|key: Seq<char>| #[trigger]
            final(protected)@.dom().contains(key) == (old(protected)@.dom().contains(key)
                || job_refers(*job, key)),
{
    if holds_unresolved(&job.names) {
        return Ok(Scan::Stop);
    }
    let header = match &job.header {
        Some(header) => header,
        None => {
            return Ok(Scan::Continue);
        },
    };
    let ghost start = protected@.dom();
    match parse(header.as_slice()) {
        Ok(value) => {
            references(&value, protected);
            proof {
                assert forall|key: Seq<char>| #[trigger]
                    bytes_refer(header@, key) == refers_to(value, key) by {
                    bytes_refer_as_read(header@, value, key);
                }
            }
        },
        Err(message) => {
            return Err(message);
        },
    }
    let mut i: usize = 0;
    while i < job.lines.len()
        invariant
            i <= job.lines@.len(),
            job.header == Some(*header),
            json_of(header@) is Ok,
            !is_unresolved(job.names@),
            start == old(protected)@.dom(),
            forall|j: int| 0 <= j < i ==> json_of((#[trigger] job.lines@[j])@) is Ok,
            forall|key: Seq<char>| #[trigger]
                protected@.dom().contains(key) == (start.contains(key) || bytes_refer(header@, key)
                    || exists|j: int|
                    0 <= j < i && bytes_refer((#[trigger] job.lines@[j])@, key)),
        decreases job.lines@.len() - i,
    {
        let ghost before = protected@.dom();
        if scan_line(job.lines[i].as_slice(), protected) == Scan::Stop {
            assert(json_of(job.lines@[i as int]@) is Err);
            return Ok(Scan::Stop);
        }
        proof {
            assert forall|key: Seq<char>| #[trigger]
                protected@.dom().contains(key) == (start.contains(key) || bytes_refer(header@, key)
                    || exists|j: int|
                    0 <= j < i + 1 && bytes_refer((#[trigger] job.lines@[j])@, key)) by {
                assert(before.contains(key) == (start.contains(key) || bytes_refer(header@, key)
                    || exists|j: int|
                    0 <= j < i && bytes_refer((#[trigger] job.lines@[j])@, key)));
                assert(protected@.dom().contains(key) == (before.contains(key) || bytes_refer(
                    job.lines@[i as int]@,
                    key,
                )));
                if exists|j: int|
                    0 <= j < i + 1 && bytes_refer((#[trigger] job.lines@[j])@, key) {
                    let j = choose|j: int|
                        0 <= j < i + 1 && bytes_refer((#[trigger] job.lines@[j])@, key);
                    assert(bytes_refer(job.lines@[j]@, key));
                }
            }
        }
        i = i + 1;
    }
    Ok(Scan::Continue)
}

proof fn manifest_refers_as_read(bytes: Seq<u8>, read: Json, key: Seq<char>)
    requires
        json_of(bytes) == Ok::<JsonView, Seq<char>>(view_of(read)),
    ensures
        manifest_refers(bytes, key) == (member(read, "objects"@) matches Some(objects)
            && refers_to(objects, key)),
{
    if manifest_refers(bytes, key) {
        let value = choose|value: Json|
            json_of(bytes) == Ok::<JsonView, Seq<char>>(#[trigger] view_of(value)) && (member(
                value,
                "objects"@,
            ) matches Some(objects) && refers_to(objects, key));
        same_view_same_value(value, read);
        identical_values_have_the_same_members(value, read, "objects"@);
        identical_values_refer_alike(
            member(value, "objects"@)->0,
            member(read, "objects"@)->0,
            key,
        );
    }
}

proof fn receipt_relies_as_read(
    bytes: Seq<u8>,
    read: Json,
    acquisitions: Set<Seq<char>>,
    key: Seq<char>,
)
    requires
        json_of(bytes) == Ok::<JsonView, Seq<char>>(view_of(read)),
    ensures
        receipt_relies(bytes, acquisitions, key) == record_relies(read, acquisitions, key),
{
    if receipt_relies(bytes, acquisitions, key) {
        let value = choose|value: Json|
            json_of(bytes) == Ok::<JsonView, Seq<char>>(#[trigger] view_of(value))
                && record_relies(value, acquisitions, key);
        same_view_same_value(value, read);
        identical_values_have_the_same_members(value, read, "requests"@);
        if let (Some(Json::Array(xs)), Some(Json::Array(ys))) = (
            member(value, "requests"@),
            member(read, "requests"@),
        ) {
            let i = choose|i: int|
                0 <= i < xs@.len() && relies_on(#[trigger] xs@[i], acquisitions, key);
            identical_values_refer_alike(xs@[i], ys@[i], key);
            identical_values_have_the_same_members(xs@[i], ys@[i], "occurrence"@);
            if let (Some(x), Some(y)) = (
                member(xs@[i], "occurrence"@),
                member(ys@[i], "occurrence"@),
            ) {
                identical_values_have_the_same_members(x, y, "acquisition_id"@);
            }
            assert(relies_on(ys@[i], acquisitions, key));
        }
    }
}

/// The first of some documents that does not parse, by its message.
pub open spec fn first_unread(documents: Seq<Vec<u8>>, count: nat) -> Option<Seq<char>>
    decreases count,
{
    if count == 0 {
        None
    } else {
        match first_unread(documents, (count - 1) as nat) {
            Some(message) => Some(message),
            None => match json_of(documents[count - 1]@) {
                Err(message) => Some(message),
                Ok(_) => None,
            },
        }
    }
}

proof fn unread_stands(documents: Seq<Vec<u8>>, count: nat, total: nat)
    requires
        count <= total,
        first_unread(documents, count) is Some,
    ensures
        first_unread(documents, total) == first_unread(documents, count),
    decreases total,
{
    if count < total {
        unread_stands(documents, count, (total - 1) as nat);
    }
}

/// What the states of the first `count` jobs mean for a reclamation: the first that stops it or
/// cannot be judged decides.
pub open spec fn jobs_scan(jobs: Seq<PendingJob>, count: nat) -> Result<Scan, Seq<char>>
    decreases count,
{
    if count == 0 {
        Ok(Scan::Continue)
    } else {
        match jobs_scan(jobs, (count - 1) as nat) {
            Ok(Scan::Continue) => job_scan(jobs[count - 1]),
            decided => decided,
        }
    }
}

proof fn scan_stands(jobs: Seq<PendingJob>, count: nat, total: nat)
    requires
        count <= total,
        jobs_scan(jobs, count) != Ok::<Scan, Seq<char>>(Scan::Continue),
    ensures
        jobs_scan(jobs, total) == jobs_scan(jobs, count),
    decreases total,
{
    if count < total {
        scan_stands(jobs, count, (total - 1) as nat);
    }
}

/// Whether anything refers to a stored object: a manifest, pending work, or the receipt of
/// another acquisition.
pub open spec fn is_pinned(
    manifests: Seq<Vec<u8>>,
    jobs: Seq<PendingJob>,
    records: Seq<Vec<u8>>,
    acquisitions: Set<Seq<char>>,
    key: Seq<char>,
) -> bool {
    ||| exists|i: int| 0 <= i < manifests.len() && manifest_refers((#[trigger] manifests[i])@, key)
    ||| exists|i: int| 0 <= i < jobs.len() && job_refers(#[trigger] jobs[i], key)
    ||| exists|i: int|
        0 <= i < records.len() && receipt_relies((#[trigger] records[i])@, acquisitions, key)
}

fn pin_manifests(manifests: &Vec<Vec<u8>>, protected: &mut Table<()>) -> (read: Result<(), String>)
    ensures
        refusal(read) == first_unread(manifests@, manifests@.len()),
        read is Ok ==> forall|key: Seq<char>| #[trigger]
            final(protected)@.dom().contains(key) == (old(protected)@.dom().contains(key)
                || exists|i: int|
                0 <= i < manifests@.len() && manifest_refers((#[trigger] manifests@[i])@, key)),
{
    let ghost start = protected@.dom();
    let mut i: usize = 0;
    while i < manifests.len()
        invariant
            i <= manifests@.len(),
            start == old(protected)@.dom(),
            first_unread(manifests@, i as nat) is None,
            forall|key: Seq<char>| #[trigger]
                protected@.dom().contains(key) == (start.contains(key) || exists|j: int|
                    0 <= j < i && manifest_refers((#[trigger] manifests@[j])@, key)),
        decreases manifests@.len() - i,
    {
        let ghost before = protected@.dom();
        let value = match parse(manifests[i].as_slice()) {
            Ok(value) => value,
            Err(message) => {
                proof {
                    unread_stands(manifests@, (i + 1) as nat, manifests@.len());
                }
                return Err(message);
            },
        };
        if let Some(objects) = find_member(&value, "objects") {
            references(objects, protected);
        }
        proof {
            assert forall|key: Seq<char>| #[trigger]
                protected@.dom().contains(key) == (start.contains(key) || exists|j: int|
                    0 <= j < i + 1 && manifest_refers((#[trigger] manifests@[j])@, key)) by {
                manifest_refers_as_read(manifests@[i as int]@, value, key);
                assert(before.contains(key) == (start.contains(key) || exists|j: int|
                    0 <= j < i && manifest_refers((#[trigger] manifests@[j])@, key)));
                if exists|j: int|
                    0 <= j < i + 1 && manifest_refers((#[trigger] manifests@[j])@, key) {
                    let j = choose|j: int|
                        0 <= j < i + 1 && manifest_refers((#[trigger] manifests@[j])@, key);
                    assert(manifest_refers(manifests@[j]@, key));
                }
                assert(protected@.dom().contains(key) == (before.contains(key) || manifest_refers(
                    manifests@[i as int]@,
                    key,
                )));
            }
        }
        i = i + 1;
    }
    Ok(())
}

fn pin_jobs(jobs: &Vec<PendingJob>, protected: &mut Table<()>) -> (scan: Result<Scan, String>)
    ensures
        match jobs_scan(jobs@, jobs@.len()) {
            Err(message) => refusal(scan) == Some(message),
            Ok(expected) => scan == Ok::<Scan, String>(expected),
        },
        scan == Ok::<Scan, String>(Scan::Continue) ==> forall|key: Seq<char>| #[trigger]
            final(protected)@.dom().contains(key) == (old(protected)@.dom().contains(key)
                || exists|i: int| 0 <= i < jobs@.len() && job_refers(#[trigger] jobs@[i], key)),
{
    let ghost start = protected@.dom();
    let mut i: usize = 0;
    while i < jobs.len()
        invariant
            i <= jobs@.len(),
            start == old(protected)@.dom(),
            jobs_scan(jobs@, i as nat) == Ok::<Scan, Seq<char>>(Scan::Continue),
            forall|key: Seq<char>| #[trigger]
                protected@.dom().contains(key) == (start.contains(key) || exists|j: int|
                    0 <= j < i && job_refers(#[trigger] jobs@[j], key)),
        decreases jobs@.len() - i,
    {
        let ghost before = protected@.dom();
        match scan_job(&jobs[i], protected) {
            Ok(Scan::Continue) => {},
            decided => {
                proof {
                    scan_stands(jobs@, (i + 1) as nat, jobs@.len());
                }
                return decided;
            },
        }
        proof {
            assert forall|key: Seq<char>| #[trigger]
                protected@.dom().contains(key) == (start.contains(key) || exists|j: int|
                    0 <= j < i + 1 && job_refers(#[trigger] jobs@[j], key)) by {
                assert(before.contains(key) == (start.contains(key) || exists|j: int|
                    0 <= j < i && job_refers(#[trigger] jobs@[j], key)));
                assert(protected@.dom().contains(key) == (before.contains(key) || job_refers(
                    jobs@[i as int],
                    key,
                )));
                if exists|j: int| 0 <= j < i + 1 && job_refers(#[trigger] jobs@[j], key) {
                    let j = choose|j: int| 0 <= j < i + 1 && job_refers(#[trigger] jobs@[j], key);
                    assert(job_refers(jobs@[j], key));
                }
            }
        }
        i = i + 1;
    }
    Ok(Scan::Continue)
}

fn pin_records(records: &Vec<Vec<u8>>, acquisitions: &Table<()>, protected: &mut Table<()>) -> (read:
    Result<(), String>)
    ensures
        refusal(read) == first_unread(records@, records@.len()),
        read is Ok ==> forall|key: Seq<char>| #[trigger]
            final(protected)@.dom().contains(key) == (old(protected)@.dom().contains(key)
                || exists|i: int|
                0 <= i < records@.len() && receipt_relies(
                    (#[trigger] records@[i])@,
                    acquisitions@.dom(),
                    key,
                )),
{
    let ghost start = protected@.dom();
    let ghost own = acquisitions@.dom();
    let mut i: usize = 0;
    while i < records.len()
        invariant
            i <= records@.len(),
            start == old(protected)@.dom(),
            own == acquisitions@.dom(),
            first_unread(records@, i as nat) is None,
            forall|key: Seq<char>| #[trigger]
                protected@.dom().contains(key) == (start.contains(key) || exists|j: int|
                    0 <= j < i && receipt_relies((#[trigger] records@[j])@, own, key)),
        decreases records@.len() - i,
    {
        let ghost before = protected@.dom();
        let value = match parse(records[i].as_slice()) {
            Ok(value) => value,
            Err(message) => {
                proof {
                    unread_stands(records@, (i + 1) as nat, records@.len());
                }
                return Err(message);
            },
        };
        protect_requests(&value, acquisitions, protected);
        proof {
            assert forall|key: Seq<char>| #[trigger]
                protected@.dom().contains(key) == (start.contains(key) || exists|j: int|
                    0 <= j < i + 1 && receipt_relies((#[trigger] records@[j])@, own, key)) by {
                receipt_relies_as_read(records@[i as int]@, value, own, key);
                assert(before.contains(key) == (start.contains(key) || exists|j: int|
                    0 <= j < i && receipt_relies((#[trigger] records@[j])@, own, key)));
                assert(protected@.dom().contains(key) == (before.contains(key) || receipt_relies(
                    records@[i as int]@,
                    own,
                    key,
                )));
                if exists|j: int|
                    0 <= j < i + 1 && receipt_relies((#[trigger] records@[j])@, own, key) {
                    let j = choose|j: int|
                        0 <= j < i + 1 && receipt_relies((#[trigger] records@[j])@, own, key);
                    assert(receipt_relies(records@[j]@, own, key));
                }
            }
        }
        i = i + 1;
    }
    Ok(())
}

/// What keeps a survey from answering: a manifest that does not parse, then the jobs, then a
/// receipt that does not parse.
pub open spec fn survey_scan(
    manifests: Seq<Vec<u8>>,
    jobs: Seq<PendingJob>,
    records: Seq<Vec<u8>>,
) -> Result<Scan, Seq<char>> {
    match first_unread(manifests, manifests.len()) {
        Some(message) => Err(message),
        None => match jobs_scan(jobs, jobs.len()) {
            Ok(Scan::Continue) => match first_unread(records, records.len()) {
                Some(message) => Err(message),
                None => Ok(Scan::Continue),
            },
            decided => decided,
        },
    }
}

/// Surveys what refers to stored objects, before any is deleted. Nothing is deleted where the
/// survey stops: a response that was never resolved, or a torn line, is no permission to.
pub fn survey(
    manifests: &Vec<Vec<u8>>,
    jobs: &Vec<PendingJob>,
    records: &Vec<Vec<u8>>,
    acquisitions: &Table<()>,
) -> (protected: Result<Option<Table<()>>, String>)
    ensures
        match survey_scan(manifests@, jobs@, records@) {
            Err(message) => refusal(protected) == Some(message),
            Ok(Scan::Stop) => protected matches Ok(None),
            Ok(Scan::Continue) => protected matches Ok(Some(protected)) && forall|key: Seq<char>|
                #[trigger] protected@.dom().contains(key) == is_pinned(
                    manifests@,
                    jobs@,
                    records@,
                    acquisitions@.dom(),
                    key,
                ),
        },
{
    let mut protected: Table<()> = Table::new();
    match pin_manifests(manifests, &mut protected) {
        Ok(_) => {},
        Err(message) => {
            return Err(message);
        },
    }
    match pin_jobs(jobs, &mut protected) {
        Ok(Scan::Continue) => {},
        Ok(Scan::Stop) => {
            return Ok(None);
        },
        Err(message) => {
            return Err(message);
        },
    }
    match pin_records(records, acquisitions, &mut protected) {
        Ok(_) => {},
        Err(message) => {
            return Err(message);
        },
    }
    Ok(Some(protected))
}

/// While any job holds a response that was never resolved, or a line that does not parse, a
/// survey never lets anything be deleted.
pub proof fn an_unresolved_reference_forbids_deletion(
    manifests: Seq<Vec<u8>>,
    jobs: Seq<PendingJob>,
    records: Seq<Vec<u8>>,
    job: int,
)
    requires
        0 <= job < jobs.len(),
        is_unresolved(jobs[job].names@) || (jobs[job].header is Some && is_torn(jobs[job].lines@)),
    ensures
        survey_scan(manifests, jobs, records) != Ok::<Scan, Seq<char>>(Scan::Continue),
{
    assert(job_scan(jobs[job]) != Ok::<Scan, Seq<char>>(Scan::Continue));
    assert(jobs_scan(jobs, (job + 1) as nat) != Ok::<Scan, Seq<char>>(Scan::Continue));
    scan_stands(jobs, (job + 1) as nat, jobs.len());
}

/// Nothing that a manifest, pending work or another acquisition's receipt refers to is deleted:
/// `protected` is what the survey found, and `delete` what was decided of the key.
pub proof fn protected_keys_survive(
    manifests: Seq<Vec<u8>>,
    jobs: Seq<PendingJob>,
    records: Seq<Vec<u8>>,
    acquisitions: Set<Seq<char>>,
    protected: Set<Seq<char>>,
    reclaimed: Set<Seq<char>>,
    key: Seq<char>,
    delete: bool,
)
    requires
        protected.contains(key) == is_pinned(manifests, jobs, records, acquisitions, key),
        delete == (!reclaimed.contains(key) && !protected.contains(key)),
        is_pinned(manifests, jobs, records, acquisitions, key),
    ensures
        !delete,
{
}

/// A page of a daily generation as it stands for a recorded response.
#[derive(Debug)]
pub struct PageFact {
    pub acquisition_id: String,
    pub ordinal: u64,
    pub intent: Option<String>,
    pub payload_sha256: String,
    pub payload_bytes: u64,
    pub rows: u64,
    pub request_token: Option<String>,
    pub receipt_time: Option<i64>,
    pub recorded: bool,
}

/// Whether a page carries a recorded response exactly.
pub open spec fn carries(page: PageFact, request: PageReceipt) -> bool {
    &&& request.occurrence is Some
    &&& page.acquisition_id@ == request.occurrence->0.acquisition_id@
    &&& page.ordinal == request.occurrence->0.ordinal
    &&& text_of(page.intent) == text_of(request.occurrence->0.intent)
    &&& page.payload_sha256@ == request.sha256@
    &&& page.payload_bytes == request.bytes
    &&& page.rows == request.rows
    &&& text_of(page.request_token) == text_of(request.anchor)
    &&& page.receipt_time == Some(request.receipt_time)
    &&& page.recorded
}

/// Whether a request is the last of its occurrence.
pub open spec fn is_last_request(requests: Seq<PageReceipt>, i: int) -> bool {
    forall|j: int|
        i < j < requests.len() ==> !same_request(requests[i], #[trigger] requests[j])
}

/// Whether two requests are of one occurrence.
pub open spec fn same_request(a: PageReceipt, b: PageReceipt) -> bool {
    &&& a.occurrence is Some && b.occurrence is Some
    &&& a.occurrence->0.acquisition_id@ == b.occurrence->0.acquisition_id@
    &&& a.occurrence->0.ordinal == b.occurrence->0.ordinal
}

/// Whether one of the pages carries a recorded response.
pub open spec fn is_carried(pages: Seq<PageFact>, request: PageReceipt) -> bool {
    exists|p: int| 0 <= p < pages.len() && carries(#[trigger] pages[p], request)
}

/// Whether pages carry every recorded response.
pub open spec fn carries_all(pages: Seq<PageFact>, requests: Seq<PageReceipt>) -> bool {
    forall|i: int|
        #![trigger requests[i]]
        0 <= i < requests.len() && is_last_request(requests, i) ==> is_carried(
            pages,
            requests[i],
        )
}

fn page_carries(page: &PageFact, request: &PageReceipt) -> (carried: bool)
    ensures
        carried == carries(*page, *request),
{
    match &request.occurrence {
        Some(occurrence) => same_text(
            page.acquisition_id.as_str(),
            occurrence.acquisition_id.as_str(),
        ) && page.ordinal == occurrence.ordinal && same_optional(&page.intent, &occurrence.intent)
            && same_text(page.payload_sha256.as_str(), request.sha256.as_str())
            && page.payload_bytes == request.bytes && page.rows == request.rows && same_optional(
            &page.request_token,
            &request.anchor,
        ) && match page.receipt_time {
            Some(time) => time == request.receipt_time,
            None => false,
        } && page.recorded,
        None => false,
    }
}

fn last_request(requests: &Vec<PageReceipt>, i: usize) -> (last: bool)
    requires
        i < requests@.len(),
    ensures
        last == is_last_request(requests@, i as int),
{
    let total: usize = requests.len();
    let mut j: usize = i + 1;
    while j < total
        invariant
            i < j <= total,
            total == requests@.len(),
            forall|k: int|
                i < k < j ==> !same_request(requests@[i as int], #[trigger] requests@[k]),
        decreases requests@.len() - j,
    {
        let repeated: bool = match (&requests[i].occurrence, &requests[j].occurrence) {
            (Some(a), Some(b)) => a.ordinal == b.ordinal && same_text(
                a.acquisition_id.as_str(),
                b.acquisition_id.as_str(),
            ),
            _ => false,
        };
        if repeated {
            assert(same_request(requests@[i as int], requests@[j as int]));
            return false;
        }
        j = j + 1;
    }
    true
}

/// Whether the pages of a replacement carry every recorded response.
pub fn replaces(pages: &Vec<PageFact>, requests: &Vec<PageReceipt>) -> (all: bool)
    ensures
        all == carries_all(pages@, requests@),
{
    let mut i: usize = 0;
    while i < requests.len()
        invariant
            i <= requests@.len(),
            forall|k: int|
                #![trigger requests@[k]]
                0 <= k < i && is_last_request(requests@, k) ==> is_carried(pages@, requests@[k]),
        decreases requests@.len() - i,
    {
        if last_request(requests, i) {
            let mut found: bool = false;
            let mut p: usize = 0;
            while p < pages.len() && !found
                invariant
                    p <= pages@.len(),
                    i < requests@.len(),
                    found ==> is_carried(pages@, requests@[i as int]),
                    !found ==> forall|q: int|
                        0 <= q < p ==> !carries(#[trigger] pages@[q], requests@[i as int]),
                decreases pages@.len() - p,
            {
                if page_carries(&pages[p], &requests[i]) {
                    found = true;
                    assert(carries(pages@[p as int], requests@[i as int]));
                }
                p = p + 1;
            }
            if !found {
                assert(is_last_request(requests@, i as int));
                assert(!is_carried(pages@, requests@[i as int]));
                return false;
            }
        }
        i = i + 1;
    }
    true
}

/// Whether a value is a text.
pub open spec fn is_text(value: Json, text: Seq<char>) -> bool {
    value matches Json::Text(found) && found@ == text
}

/// Whether an array member of a value holds a text.
pub open spec fn lists_text(value: Json, name: Seq<char>, text: Seq<char>) -> bool {
    member(value, name) matches Some(Json::Array(values)) && exists|i: int|
        0 <= i < values@.len() && is_text(#[trigger] values@[i], text)
}

fn has_text(value: &Json, name: &str, text: &str) -> (found: bool)
    ensures
        found == lists_text(*value, name@, text@),
{
    if let Some(Json::Array(values)) = find_member(value, name) {
        let mut i: usize = 0;
        while i < values.len()
            invariant
                i <= values@.len(),
                member(*value, name@) == Some(Json::Array(*values)),
                forall|j: int|
                    0 <= j < i ==> !is_text(#[trigger] values@[j], text@),
            decreases values@.len() - i,
        {
            if let Json::Text(found) = &values[i] {
                if same_text(found.as_str(), text) {
                    proof {
                        let list = member(*value, name@)->0->Array_0;
                        assert(is_text(list@[i as int], text@));
                    }
                    return true;
                }
            }
            i = i + 1;
        }
    }
    false
}

/// The seed that a lineage continues from.
pub open spec fn continued_seed(lineage: Json) -> Option<Seq<char>> {
    match member(lineage, "continuation"@) {
        Some(continuation) => match member(continuation, "seed"@) {
            Some(seed) => member_text(seed, "generation"@),
            None => None,
        },
        None => None,
    }
}

/// Whether a lineage is one in which a retired generation can be replaced.
pub open spec fn in_lineage(lineage: Json, generation: Seq<char>, seed: Seq<char>) -> bool {
    ||| member_text(lineage, "root_generation"@) == Some(seed)
    ||| continued_seed(lineage) == Some(seed)
    ||| lists_text(lineage, "ancestors"@, generation)
    ||| lists_text(lineage, "ancestors"@, seed)
}

/// Whether a lineage is one in which a retired generation can be replaced: it has the same root
/// or seed, or descends from either generation.
pub fn same_lineage(lineage: &Json, generation: &str, seed: &str) -> (same: bool)
    ensures
        same == in_lineage(*lineage, generation@, seed@),
{
    let same_root: bool = match find_text(lineage, "root_generation") {
        Some(root) => same_text(root, seed),
        None => false,
    };
    let same_seed: bool = match find_member(lineage, "continuation") {
        Some(continuation) => match find_member(continuation, "seed") {
            Some(found) => match find_text(found, "generation") {
                Some(found) => same_text(found, seed),
                None => false,
            },
            None => false,
        },
        None => false,
    };
    same_root || same_seed || has_text(lineage, "ancestors", generation) || has_text(
        lineage,
        "ancestors",
        seed,
    )
}

/// A generation that may stand in for a retired one: what it is, its lineage and pages, and
/// whether its closure was verified.
#[derive(Debug)]
pub struct Replacement {
    pub layout: Option<Layout>,
    pub broker: String,
    pub provider_symbol: String,
    pub role: DatasetRole,
    pub lineage: Json,
    pub pages: Vec<PageFact>,
    pub verified: bool,
}

/// Whether a generation replaces a retired one as proof: it is a daily one of the same data, in
/// the same lineage, carries every recorded response, and was verified.
pub open spec fn is_replacement(
    found: Replacement,
    generation: Seq<char>,
    seed: Seq<char>,
    coverage: HistoryCoverage,
    requests: Seq<PageReceipt>,
) -> bool {
    &&& found.layout is Some
    &&& found.broker@ == coverage.broker@
    &&& found.provider_symbol@ == coverage.provider_symbol@
    &&& found.role == coverage.role
    &&& in_lineage(found.lineage, generation, seed)
    &&& carries_all(found.pages@, requests)
    &&& found.verified
}

/// Whether every recorded response tells which request it answers.
pub open spec fn all_occur(requests: Seq<PageReceipt>) -> bool {
    forall|i: int| 0 <= i < requests.len() ==> (#[trigger] requests[i]).occurrence is Some
}

/// Whether one of the generations that could be read replaces a retired one.
pub open spec fn is_replaced(
    found: Seq<Result<Replacement, String>>,
    generation: Seq<char>,
    coverage: HistoryCoverage,
    requests: Seq<PageReceipt>,
) -> bool {
    &&& coverage.seed is Some
    &&& all_occur(requests)
    &&& exists|i: int|
        0 <= i < found.len() && (#[trigger] found[i] matches Ok(replacement) && is_replacement(
            replacement,
            generation,
            coverage.seed->0.generation@,
            coverage,
            requests,
        ))
}

fn replaced_by(
    found: &Replacement,
    generation: &str,
    seed: &str,
    coverage: &HistoryCoverage,
    requests: &Vec<PageReceipt>,
) -> (replaced: bool)
    ensures
        replaced == is_replacement(*found, generation@, seed@, *coverage, requests@),
{
    found.layout.is_some() && same_text(found.broker.as_str(), coverage.broker.as_str())
        && same_text(found.provider_symbol.as_str(), coverage.provider_symbol.as_str())
        && found.role == coverage.role && same_lineage(&found.lineage, generation, seed)
        && replaces(&found.pages, requests) && found.verified
}

/// What is done about a plan.
#[derive(Debug, Clone, Copy, PartialEq, Eq, Structural)]
pub enum PlanStep {
    /// Nothing now.
    Skip,
    /// The survey is made, after the progress that is still there is removed where it is that of
    /// the closed acquisition.
    Survey { remove_progress: bool },
}

impl Reclamation {
    /// Decides whether deletion is proven: the published generation verifies, or of the
    /// generations that could be read one replaces it. `coverage` and `requests` are what the
    /// receipt recorded. A generation that is missing, incomplete or inaccessible neither proves
    /// anything nor stands in the way of another.
    pub fn is_proven(
        &self,
        published: bool,
        coverage: &HistoryCoverage,
        requests: &Vec<PageReceipt>,
        found: &Vec<Result<Replacement, String>>,
    ) -> (proven: bool)
        ensures
            proven == (published || is_replaced(
                found@,
                self.generation@,
                *coverage,
                requests@,
            )),
    {
        if published {
            return true;
        }
        let seed = match &coverage.seed {
            Some(seed) => seed,
            None => {
                return false;
            },
        };
        let mut i: usize = 0;
        while i < requests.len()
            invariant
                i <= requests@.len(),
                forall|j: int| 0 <= j < i ==> (#[trigger] requests@[j]).occurrence is Some,
                !published,
            decreases requests@.len() - i,
        {
            if requests[i].occurrence.is_none() {
                return false;
            }
            i = i + 1;
        }
        let mut i: usize = 0;
        while i < found.len()
            invariant
                i <= found@.len(),
                coverage.seed == Some(*seed),
                all_occur(requests@),
                !published,
                forall|j: int|
                    0 <= j < i ==> !(#[trigger] found@[j] matches Ok(replacement)
                        && is_replacement(
                        replacement,
                        self.generation@,
                        seed.generation@,
                        *coverage,
                        requests@,
                    )),
            decreases found@.len() - i,
        {
            if let Ok(replacement) = &found[i] {
                if replaced_by(
                    replacement,
                    self.generation.as_str(),
                    seed.generation.as_str(),
                    coverage,
                    requests,
                ) {
                    assert(found@[i as int] matches Ok(kept) && kept == *replacement);
                    return true;
                }
            }
            i = i + 1;
        }
        false
    }

    /// Decides what is done about the plan: one that is finished, or whose deletions are not
    /// proven, is left alone; any other is surveyed anew, with nothing protected yet. `receipt`
    /// is the receipt of its acquisition, and `header` the progress that is still there.
    pub fn begin(&mut self, receipt: &[u8], proven: bool, header: Option<&[u8]>) -> (step: Result<
        PlanStep,
        String,
    >)
        ensures
            final(self).intent == old(self).intent,
            final(self).receipt == old(self).receipt,
            final(self).generation == old(self).generation,
            final(self).pending_header_sha256 == old(self).pending_header_sha256,
            final(self).acquisitions == old(self).acquisitions,
            final(self).candidates == old(self).candidates,
            final(self).reclaimed == old(self).reclaimed,
            final(self).protected@ == (if step matches Ok(PlanStep::Survey { .. }) {
                Map::<Seq<char>, ()>::empty()
            } else {
                old(self).protected@
            }),
            begins(*old(self), receipt@, proven, header, step),
    {
        if self.finished() {
            return Ok(PlanStep::Skip);
        }
        match self.read_receipt(receipt) {
            Ok(_) => {},
            Err(message) => {
                return Err(message);
            },
        }
        if !proven {
            return Ok(PlanStep::Skip);
        }
        let remove_progress: bool = match header {
            None => false,
            Some(bytes) => match self.owns_header(bytes) {
                Ok(owned) => owned,
                Err(message) => {
                    return Err(message);
                },
            },
        };
        self.protected = Table::new();
        Ok(PlanStep::Survey { remove_progress })
    }
}

/// What a plan that is taken up answers.
pub open spec fn begins(
    plan: Reclamation,
    receipt: Seq<u8>,
    proven: bool,
    header: Option<&[u8]>,
    step: Result<PlanStep, String>,
) -> bool {
    if plan.left() == Set::<Seq<char>>::empty() {
        step == Ok::<PlanStep, String>(PlanStep::Skip)
    } else {
        match json_of(receipt) {
            Err(message) => refusal(step) == Some(message),
            Ok(view) => exists|closing: Json| #[trigger]
                view_of(closing) == view && (if !plan.is_closed_by(closing) {
                    refusal(step) == Some("reclamation receipt does not close this acquisition"@)
                } else if !proven {
                    step == Ok::<PlanStep, String>(PlanStep::Skip)
                } else {
                    match header {
                        None => step == Ok::<PlanStep, String>(
                            PlanStep::Survey { remove_progress: false },
                        ),
                        Some(bytes) => match json_of(bytes@) {
                            Err(message) => refusal(step) == Some(message),
                            Ok(view) => exists|progress: Json| #[trigger]
                                view_of(progress) == view && step == Ok::<PlanStep, String>(
                                    PlanStep::Survey {
                                        remove_progress: plan.owns(bytes@, progress),
                                    },
                                ),
                        },
                    }
                }),
        }
    }
}

/// Evidence that cannot be had defers a reclamation and does no more: a generation that could not
/// be read changes nothing about whether deletion is proven.
pub proof fn unread_evidence_decides_nothing(
    found: Seq<Result<Replacement, String>>,
    reason: String,
    generation: Seq<char>,
    coverage: HistoryCoverage,
    requests: Seq<PageReceipt>,
)
    ensures
        is_replaced(found.push(Err(reason)), generation, coverage, requests) == is_replaced(
            found,
            generation,
            coverage,
            requests,
        ),
{
    let more = found.push(Err(reason));
    if is_replaced(found, generation, coverage, requests) {
        let i = choose|i: int|
            0 <= i < found.len() && (#[trigger] found[i] matches Ok(replacement)
                && is_replacement(
                replacement,
                generation,
                coverage.seed->0.generation@,
                coverage,
                requests,
            ));
        assert(more[i] == found[i]);
    }
    if is_replaced(more, generation, coverage, requests) {
        let i = choose|i: int|
            0 <= i < more.len() && (#[trigger] more[i] matches Ok(replacement) && is_replacement(
                replacement,
                generation,
                coverage.seed->0.generation@,
                coverage,
                requests,
            ));
        assert(found[i] == more[i]);
    }
}

/// The ancestors of a descendant: those of its lineage, its parent before, its baseline, and the
/// snapshots that it supersedes.
pub open spec fn descendant_ancestors(
    lineage: Json,
    baseline: Seq<char>,
    superseded: Seq<String>,
) -> Set<Seq<char>> {
    Set::new(
        |name: Seq<char>|
            lists_text(lineage, "ancestors"@, name) || name == baseline || member_text(
                lineage,
                "parent_generation"@,
            ) == Some(name) || exists|i: int|
                0 <= i < superseded.len() && (#[trigger] superseded[i])@ == name,
    )
}

/// The ancestors of a descendant, flattened.
pub fn ancestors(lineage: &Json, baseline: &str, superseded: &Vec<String>) -> (found: Table<()>)
    ensures
        found@.dom() == descendant_ancestors(*lineage, baseline@, superseded@),
{
    let mut found: Table<()> = Table::new();
    let ghost listed = Set::new(|name: Seq<char>| lists_text(*lineage, "ancestors"@, name));
    if let Some(Json::Array(values)) = find_member(lineage, "ancestors") {
        let mut i: usize = 0;
        while i < values.len()
            invariant
                i <= values@.len(),
                forall|name: Seq<char>| #[trigger]
                    found@.dom().contains(name) == (exists|j: int|
                        0 <= j < i && is_text(#[trigger] values@[j], name)),
            decreases values@.len() - i,
        {
            let ghost before = found@.dom();
            if let Json::Text(text) = &values[i] {
                found.insert(text.clone(), ());
            }
            proof {
                assert forall|name: Seq<char>| #[trigger]
                    found@.dom().contains(name) == (exists|j: int|
                        0 <= j < i + 1 && is_text(#[trigger] values@[j], name)) by {
                    assert(before.contains(name) == (exists|j: int|
                        0 <= j < i && is_text(#[trigger] values@[j], name)));
                    if exists|j: int|
                        0 <= j < i + 1 && is_text(#[trigger] values@[j], name) {
                        let j = choose|j: int|
                            0 <= j < i + 1 && is_text(#[trigger] values@[j], name);
                        assert(is_text(values@[j], name));
                    }
                    assert(is_text(values@[i as int], name) ==> values@[i as int] is Text);
                }
            }
            i = i + 1;
        }
    }
    assert(found@.dom() =~= listed);
    found.insert(baseline.to_owned(), ());
    if let Some(parent) = find_text(lineage, "parent_generation") {
        found.insert(parent.to_owned(), ());
    }
    let ghost start = found@.dom();
    let mut k: usize = 0;
    while k < superseded.len()
        invariant
            k <= superseded@.len(),
            forall|name: Seq<char>| #[trigger]
                found@.dom().contains(name) == (start.contains(name) || exists|j: int|
                    0 <= j < k && (#[trigger] superseded@[j])@ == name),
        decreases superseded@.len() - k,
    {
        let ghost before = found@.dom();
        found.insert(superseded[k].clone(), ());
        proof {
            assert forall|name: Seq<char>| #[trigger]
                found@.dom().contains(name) == (start.contains(name) || exists|j: int|
                    0 <= j < k + 1 && (#[trigger] superseded@[j])@ == name) by {
                assert(before.contains(name) == (start.contains(name) || exists|j: int|
                    0 <= j < k && (#[trigger] superseded@[j])@ == name));
                if exists|j: int| 0 <= j < k + 1 && (#[trigger] superseded@[j])@ == name {
                    let j = choose|j: int| 0 <= j < k + 1 && (#[trigger] superseded@[j])@ == name;
                    assert(superseded@[j]@ == name);
                }
                assert(superseded@[k as int]@ == superseded@[k as int]@);
            }
        }
        k = k + 1;
    }
    assert(found@.dom() =~= descendant_ancestors(*lineage, baseline@, superseded@));
    found
}

} // verus!
