//! Published generations as plain facts: their objects, roles, layout, and day inventory.

use crate::lineage::json::object_key_of;
use crate::market::{DatasetRole, NativeGranularity};
use crate::search::{first_where, first_where_absent, first_where_found};
use crate::text::same_text;
use vstd::prelude::*;
use vstd::string::*;

verus! {

/// What an object of a generation is for.
#[derive(Debug, Clone, Copy, PartialEq, Eq, Structural)]
pub enum ObjectRole {
    Source,
    Provenance,
    Normalized,
}

/// Where the rows of a dataset come from.
#[derive(Debug, Clone, Copy, PartialEq, Eq, Structural)]
pub enum SourceKind {
    TickCsv,
    TickParquetDaily,
    BarParquet,
    BrokerHistory,
}

/// How prices are represented.
#[derive(Debug, Clone, Copy, PartialEq, Eq, Structural)]
pub enum PriceRepresentation {
    IntegerUnits { scale: u8 },
    BinaryFloat,
}

/// The layout of a generation that is split by calendar day.
#[derive(Debug, Clone, Copy, PartialEq, Eq, Structural)]
pub enum Layout {
    DailyV2,
}

/// One object of a generation.
#[derive(Debug)]
pub struct ObjectRecord {
    pub role: ObjectRole,
    pub path: String,
    pub key: String,
    pub bytes: u64,
    pub sha256: String,
    pub crc32c: Option<u32>,
    pub generation: Option<i64>,
}

/// The identity of some bytes.
#[derive(Debug)]
pub struct ObjectIdentity {
    pub bytes: u64,
    pub sha256: String,
    pub crc32c: u32,
}

impl Clone for ObjectRecord {
    fn clone(&self) -> (copy: Self)
        ensures
            copy == *self,
    {
        ObjectRecord {
            role: self.role,
            path: self.path.clone(),
            key: self.key.clone(),
            bytes: self.bytes,
            sha256: self.sha256.clone(),
            crc32c: self.crc32c,
            generation: self.generation,
        }
    }
}

/// A record fit to publish some bytes: it names them, and claims nothing of the destination.
pub open spec fn fresh_record(
    object: ObjectRecord,
    role: ObjectRole,
    path: Seq<char>,
    key: String,
    identity: ObjectIdentity,
) -> bool {
    &&& object.role == role
    &&& object.path@ == path
    &&& object.key == key
    &&& object.bytes == identity.bytes
    &&& object.sha256 == identity.sha256
    &&& object.crc32c is None
    &&& object.generation is None
}

/// Whether an object is the record of some bytes under the key that they give it, before it was
/// stored.
pub open spec fn is_record(
    object: ObjectRecord,
    role: ObjectRole,
    path: Seq<char>,
    identity: ObjectIdentity,
) -> bool {
    &&& fresh_record(object, role, path, object.key, identity)
    &&& object.key@ == object_key_of(identity.sha256@)
}

/// The record of an object that was not published yet.
pub fn record(role: ObjectRole, path: &str, key: String, identity: &ObjectIdentity) -> (object:
    ObjectRecord)
    ensures
        fresh_record(object, role, path@, key, *identity),
{
    ObjectRecord {
        role,
        path: path.to_owned(),
        key,
        bytes: identity.bytes,
        sha256: identity.sha256.clone(),
        crc32c: None,
        generation: None,
    }
}

/// Whether a committed object describes a fresh one: role, path, identity and size agree, a
/// recorded checksum matches the bytes, and whatever the destination reports matches the record.
pub open spec fn describes(a: ObjectRecord, b: ObjectRecord, identity: ObjectIdentity) -> bool {
    &&& a.role == b.role
    &&& a.path@ == b.path@
    &&& a.sha256@ == b.sha256@
    &&& a.bytes == b.bytes
    &&& a.crc32c is Some ==> a.crc32c->0 == identity.crc32c
    &&& b.crc32c is Some ==> a.crc32c == b.crc32c
    &&& b.generation is Some ==> a.generation == b.generation
}

/// Whether committed objects describe fresh ones, pair by pair; pairs are formed as far as all
/// three lists reach.
pub open spec fn objects_agree(
    committed: Seq<ObjectRecord>,
    fresh: Seq<ObjectRecord>,
    identities: Seq<ObjectIdentity>,
) -> bool {
    &&& committed.len() == fresh.len()
    &&& forall|i: int|
        #![trigger committed[i]]
        0 <= i < committed.len() && i < identities.len() ==> describes(
            committed[i],
            fresh[i],
            identities[i],
        )
}

fn same_crc(left: Option<u32>, right: Option<u32>) -> (same: bool)
    ensures
        same == (left == right),
{
    match (left, right) {
        (Some(left), Some(right)) => left == right,
        (None, None) => true,
        _ => false,
    }
}

fn same_version(left: Option<i64>, right: Option<i64>) -> (same: bool)
    ensures
        same == (left == right),
{
    match (left, right) {
        (Some(left), Some(right)) => left == right,
        (None, None) => true,
        _ => false,
    }
}

fn object_describes(a: &ObjectRecord, b: &ObjectRecord, identity: &ObjectIdentity) -> (same: bool)
    ensures
        same == describes(*a, *b, *identity),
{
    let matches_bytes: bool = match a.crc32c {
        Some(crc32c) => crc32c == identity.crc32c,
        None => true,
    };
    a.role == b.role && same_text(a.path.as_str(), b.path.as_str()) && same_text(
        a.sha256.as_str(),
        b.sha256.as_str(),
    ) && a.bytes == b.bytes && matches_bytes && (b.crc32c.is_none() || same_crc(a.crc32c, b.crc32c))
        && (b.generation.is_none() || same_version(a.generation, b.generation))
}

/// Committed objects describe fresh ones when they agree by role, path, identity, and size,
/// every recorded checksum matches the bytes, and every checksum or generation the destination
/// reports now matches the record.
pub fn same_objects(
    committed: &Vec<ObjectRecord>,
    fresh: &Vec<ObjectRecord>,
    identities: &Vec<ObjectIdentity>,
) -> (same: bool)
    ensures
        same == objects_agree(committed@, fresh@, identities@),
{
    if committed.len() != fresh.len() {
        return false;
    }
    let mut i: usize = 0;
    while i < committed.len() && i < identities.len()
        invariant
            i <= committed@.len(),
            committed@.len() == fresh@.len(),
            forall|j: int|
                #![trigger committed@[j]]
                0 <= j < i && j < identities@.len() ==> describes(
                    committed@[j],
                    fresh@[j],
                    identities@[j],
                ),
        decreases committed@.len() - i,
    {
        if !object_describes(&committed[i], &fresh[i], &identities[i]) {
            assert(!describes(committed@[i as int], fresh@[i as int], identities@[i as int]));
            return false;
        }
        i = i + 1;
    }
    true
}

/// When the moments of bars stand for what.
#[derive(Debug)]
pub struct IntervalContract {
    pub closed: String,
    pub frequency: String,
    pub interval: String,
    pub label: String,
    pub offset_seconds: i64,
    pub origin: String,
    pub timestamp_semantics: String,
    pub provenance: String,
}

/// Whether two interval contracts say the same.
pub open spec fn same_interval(a: IntervalContract, b: IntervalContract) -> bool {
    &&& a.closed@ == b.closed@
    &&& a.frequency@ == b.frequency@
    &&& a.interval@ == b.interval@
    &&& a.label@ == b.label@
    &&& a.offset_seconds == b.offset_seconds
    &&& a.origin@ == b.origin@
    &&& a.timestamp_semantics@ == b.timestamp_semantics@
    &&& a.provenance@ == b.provenance@
}

/// Whether two interval contracts say the same, or there is neither.
pub open spec fn same_intervals(
    a: Option<IntervalContract>,
    b: Option<IntervalContract>,
) -> bool {
    match (a, b) {
        (Some(a), Some(b)) => same_interval(a, b),
        (None, None) => true,
        _ => false,
    }
}

fn intervals_agree(a: &Option<IntervalContract>, b: &Option<IntervalContract>) -> (same: bool)
    ensures
        same == same_intervals(*a, *b),
{
    match (a, b) {
        (Some(a), Some(b)) => same_text(a.closed.as_str(), b.closed.as_str()) && same_text(
            a.frequency.as_str(),
            b.frequency.as_str(),
        ) && same_text(a.interval.as_str(), b.interval.as_str()) && same_text(
            a.label.as_str(),
            b.label.as_str(),
        ) && a.offset_seconds == b.offset_seconds && same_text(
            a.origin.as_str(),
            b.origin.as_str(),
        ) && same_text(a.timestamp_semantics.as_str(), b.timestamp_semantics.as_str())
            && same_text(a.provenance.as_str(), b.provenance.as_str()),
        (None, None) => true,
        _ => false,
    }
}

/// The unit of a dataset's times.
#[derive(Debug, Clone, Copy, PartialEq, Eq, Structural)]
pub enum TimeUnit {
    Microsecond,
    Second,
}

/// What a dataset can be used for.
#[derive(Debug, Clone, Copy, PartialEq, Eq, Structural)]
pub enum Capability {
    Ticks,
    Bars,
}

/// What a manifest says of the data that it publishes.
#[derive(Debug)]
pub struct Description {
    pub source_kind: SourceKind,
    /// The price scale that is part of the generation's identity.
    pub scale: Option<u8>,
    pub native_granularity: NativeGranularity,
    pub time_unit: TimeUnit,
    pub price_representation: PriceRepresentation,
    pub interval: Option<IntervalContract>,
    pub capability: Capability,
}

/// What a generation was made of.
#[derive(Debug)]
pub struct Input {
    pub path: String,
    pub bytes: u64,
    pub sha256: String,
}

/// What a descriptor of a generation says of its data.
#[derive(Debug)]
pub struct GenerationManifest {
    pub generation: String,
    pub broker: String,
    pub provider_symbol: String,
    pub instrument: String,
    pub role: DatasetRole,
    pub source_kind: SourceKind,
    pub native_granularity: NativeGranularity,
    pub time_unit: TimeUnit,
    pub price_representation: PriceRepresentation,
    pub layout: Option<Layout>,
    pub row_count: u64,
    pub first_event_time: i64,
    pub last_event_time: i64,
    pub capabilities: Vec<Capability>,
    pub config_hash: String,
    pub code_revision: String,
    pub inputs: Vec<Input>,
    pub interval: Option<IntervalContract>,
    pub objects: Vec<ObjectRecord>,
}

/// Whose data a generation holds, and what made it.
#[derive(Debug)]
pub struct Subject {
    pub broker: String,
    pub provider_symbol: String,
    pub instrument: String,
    pub role: DatasetRole,
    pub config_hash: String,
    pub code_revision: String,
}

/// What was found of the rows of a generation.
#[derive(Debug, Clone, Copy)]
pub struct RowSummary {
    pub rows: u64,
    pub first_event_time: i64,
    pub last_event_time: i64,
}

/// Whether a manifest says of a generation what is known of it.
pub open spec fn is_manifest(
    manifest: GenerationManifest,
    subject: Subject,
    generation: String,
    described: Description,
    summary: RowSummary,
    inputs: Vec<Input>,
    objects: Vec<ObjectRecord>,
) -> bool {
    &&& manifest == (GenerationManifest {
        generation,
        broker: subject.broker,
        provider_symbol: subject.provider_symbol,
        instrument: subject.instrument,
        role: subject.role,
        source_kind: described.source_kind,
        native_granularity: described.native_granularity,
        time_unit: described.time_unit,
        price_representation: described.price_representation,
        layout: None,
        row_count: summary.rows,
        first_event_time: summary.first_event_time,
        last_event_time: summary.last_event_time,
        capabilities: manifest.capabilities,
        config_hash: subject.config_hash,
        code_revision: subject.code_revision,
        inputs,
        interval: described.interval,
        objects,
    })
    &&& manifest.capabilities@ == seq![described.capability]
}

/// The manifest of a generation: whose data it holds, how they are described, what was found of
/// its rows, what it was made of, and its objects as they were stored.
pub fn generation_manifest(
    subject: Subject,
    generation: String,
    described: Description,
    summary: RowSummary,
    inputs: Vec<Input>,
    objects: Vec<ObjectRecord>,
) -> (manifest: GenerationManifest)
    ensures
        is_manifest(manifest, subject, generation, described, summary, inputs, objects),
{
    let mut capabilities: Vec<Capability> = Vec::new();
    capabilities.push(described.capability);
    GenerationManifest {
        generation,
        broker: subject.broker,
        provider_symbol: subject.provider_symbol,
        instrument: subject.instrument,
        role: subject.role,
        source_kind: described.source_kind,
        native_granularity: described.native_granularity,
        time_unit: described.time_unit,
        price_representation: described.price_representation,
        layout: None,
        row_count: summary.rows,
        first_event_time: summary.first_event_time,
        last_event_time: summary.last_event_time,
        capabilities,
        config_hash: subject.config_hash,
        code_revision: subject.code_revision,
        inputs,
        interval: described.interval,
        objects,
    }
}

/// Whether a committed manifest describes this result: it names the same generation, role, rows,
/// coverage, and interval, and its objects describe the fresh ones.
pub open spec fn describes_result(
    committed: GenerationManifest,
    fresh: GenerationManifest,
    identities: Seq<ObjectIdentity>,
) -> bool {
    &&& committed.generation@ == fresh.generation@
    &&& committed.role == fresh.role
    &&& committed.row_count == fresh.row_count
    &&& committed.first_event_time == fresh.first_event_time
    &&& committed.last_event_time == fresh.last_event_time
    &&& same_intervals(committed.interval, fresh.interval)
    &&& objects_agree(committed.objects@, fresh.objects@, identities)
}

/// A committed manifest describes this import's result when it names the same generation, role,
/// rows, coverage, and interval, and the same objects by role, path, identity, and size, with
/// every recorded checksum matching the bytes, and every checksum or generation the destination
/// reports now matching the record (a store that reports neither leaves them as provenance).
pub fn same_result(
    committed: &GenerationManifest,
    fresh: &GenerationManifest,
    identities: &Vec<ObjectIdentity>,
) -> (same: bool)
    ensures
        same == describes_result(*committed, *fresh, identities@),
{
    same_text(committed.generation.as_str(), fresh.generation.as_str()) && committed.role
        == fresh.role && committed.row_count == fresh.row_count && committed.first_event_time
        == fresh.first_event_time && committed.last_event_time == fresh.last_event_time
        && intervals_agree(&committed.interval, &fresh.interval) && same_objects(
        &committed.objects,
        &fresh.objects,
        identities,
    )
}

/// Whether an object stands at a path.
pub open spec fn is_object(path: Seq<char>) -> spec_fn(ObjectRecord) -> bool {
    |object: ObjectRecord| object.path@ == path
}

/// Finds the object of a path.
pub fn find_object(objects: &Vec<ObjectRecord>, path: &str) -> (found: Option<usize>)
    ensures
        match found {
            Some(at) => at < objects@.len() && first_where(objects@, is_object(path@)) == Some(
                at as int,
            ),
            None => first_where(objects@, is_object(path@)) is None,
        },
{
    let ghost wanted = is_object(path@);
    let mut i: usize = 0;
    while i < objects.len()
        invariant
            i <= objects@.len(),
            wanted == is_object(path@),
            forall|j: int| 0 <= j < i ==> !wanted(#[trigger] objects@[j]),
        decreases objects@.len() - i,
    {
        if same_text(objects[i].path.as_str(), path) {
            proof {
                first_where_found(objects@, wanted, i as int);
            }
            return Some(i);
        }
        i = i + 1;
    }
    proof {
        first_where_absent(objects@, wanted);
    }
    None
}

/// Committed objects agree with fresh ones exactly where they are as many and, one by one, agree
/// in role, path, digest and size, and no recorded checksum or version is another.
pub proof fn objects_agree_one_by_one(
    committed: Seq<ObjectRecord>,
    fresh: Seq<ObjectRecord>,
    identities: Seq<ObjectIdentity>,
)
    requires
        identities.len() == fresh.len(),
    ensures
        objects_agree(committed, fresh, identities) <==> {
            &&& committed.len() == fresh.len()
            &&& forall|i: int|
                #![trigger committed[i]]
                0 <= i < committed.len() ==> {
                    &&& committed[i].role == fresh[i].role
                    &&& committed[i].path@ == fresh[i].path@
                    &&& committed[i].sha256@ == fresh[i].sha256@
                    &&& committed[i].bytes == fresh[i].bytes
                    &&& committed[i].crc32c is Some ==> committed[i].crc32c == Some(
                        identities[i].crc32c,
                    )
                    &&& fresh[i].crc32c is Some ==> committed[i].crc32c == fresh[i].crc32c
                    &&& fresh[i].generation is Some ==> committed[i].generation
                        == fresh[i].generation
                }
        },
{
}

/// A committed manifest describes a fresh result exactly where generation, role, rows, first and
/// last moment agree, the intervals agree in every value, and so do the objects.
pub proof fn a_committed_manifest_describes_the_result(
    committed: GenerationManifest,
    fresh: GenerationManifest,
    identities: Seq<ObjectIdentity>,
)
    ensures
        describes_result(committed, fresh, identities) <==> {
            &&& committed.generation@ == fresh.generation@
            &&& committed.role == fresh.role
            &&& committed.row_count == fresh.row_count
            &&& committed.first_event_time == fresh.first_event_time
            &&& committed.last_event_time == fresh.last_event_time
            &&& committed.interval is Some <==> fresh.interval is Some
            &&& committed.interval matches Some(kept) ==> {
                let made = fresh.interval->0;
                &&& kept.closed@ == made.closed@ && kept.frequency@ == made.frequency@
                &&& kept.interval@ == made.interval@ && kept.label@ == made.label@
                &&& kept.offset_seconds == made.offset_seconds && kept.origin@ == made.origin@
                &&& kept.timestamp_semantics@ == made.timestamp_semantics@
                &&& kept.provenance@ == made.provenance@
            }
            &&& objects_agree(committed.objects@, fresh.objects@, identities)
        },
{
}

/// A manifest says whose data it holds, how they are described, what was found of the rows, and
/// what it was made of, and nothing of a layout.
pub proof fn a_manifest_says_what_is_known(
    manifest: GenerationManifest,
    subject: Subject,
    generation: String,
    described: Description,
    summary: RowSummary,
    inputs: Vec<Input>,
    objects: Vec<ObjectRecord>,
)
    requires
        is_manifest(manifest, subject, generation, described, summary, inputs, objects),
    ensures
        manifest.generation@ == generation@,
        manifest.broker@ == subject.broker@,
        manifest.provider_symbol@ == subject.provider_symbol@,
        manifest.instrument@ == subject.instrument@,
        manifest.role == subject.role,
        manifest.config_hash@ == subject.config_hash@,
        manifest.code_revision@ == subject.code_revision@,
        manifest.source_kind == described.source_kind,
        manifest.native_granularity == described.native_granularity,
        manifest.time_unit == described.time_unit,
        manifest.price_representation == described.price_representation,
        manifest.interval == described.interval,
        manifest.capabilities@.len() == 1 && manifest.capabilities@[0] == described.capability,
        manifest.row_count == summary.rows,
        manifest.first_event_time == summary.first_event_time,
        manifest.last_event_time == summary.last_event_time,
        manifest.inputs@ == inputs@,
        manifest.objects@ == objects@,
        manifest.layout is None,
{
}

} // verus!
