//! Publishing an acquisition: the page bundle, the objects and pages carried from the baseline,
//! the coverage record, and the report line.

use crate::dataset::{
    fresh_record, generation_manifest, is_manifest, record, Capability, Description,
    GenerationManifest, Input, IntervalContract, ObjectIdentity, ObjectRecord, ObjectRole,
    PriceRepresentation, RowSummary, SourceKind, Subject, TimeUnit,
};
use crate::digest::{digest, hex, sha256};
use crate::fetch::bounds::Native;
use crate::fetch::coverage::{
    carried_bundle_path, HistoryCoverage, ObjectIdentitySummary, PageCoverage, PassLimit, Range,
    SeedLineage, Shortfall, BUNDLE_PATH, COVERAGE_PATH, SEED_PREFIX,
};
use crate::fetch::settle::Settled;
use crate::lineage::json::{object_key, object_key_of};
use crate::market::{DatasetRole, NativeGranularity, Row};
use crate::text::{append_decimal, decimal, join, refusal, same_text};
use vstd::prelude::*;
use vstd::string::*;

verus! {

/// Pages one after the other.
pub open spec fn bundled(raws: Seq<Vec<u8>>) -> Seq<u8>
    decreases raws.len(),
{
    if raws.len() == 0 {
        Seq::empty()
    } else {
        bundled(raws.drop_last()) + raws.last()@
    }
}

/// Whether retained bytes are those that a page records.
pub open spec fn carries(page: PageCoverage, raw: Seq<u8>) -> bool {
    hex(sha256(raw)) == page.sha256@ && raw.len() == page.bytes
}

/// A page as the bundle holds it.
pub open spec fn placed(page: PageCoverage, moved: PageCoverage, offset: int) -> bool {
    &&& moved.path@ == BUNDLE_PATH@
    &&& moved.offset == Some(offset as u64)
    &&& moved.occurrence == page.occurrence
    &&& moved.sha256 == page.sha256
    &&& moved.bytes == page.bytes
    &&& moved.anchor == page.anchor
    &&& moved.rows == page.rows
    &&& moved.first == page.first
    &&& moved.last == page.last
    &&& moved.receipt_time == page.receipt_time
}

/// The message of a retained page that changed.
pub open spec fn changed_page_message(sha256: Seq<char>) -> Seq<char> {
    "retained page "@ + sha256 + " does not carry its recorded bytes and digest"@
}

/// Why pages cannot be bundled: the first one whose retained bytes are not the recorded ones.
pub open spec fn bundle_refusal(pages: Seq<PageCoverage>, raws: Seq<Vec<u8>>) -> Option<Seq<char>>
    decreases pages.len(),
{
    if pages.len() == 0 {
        None
    } else if bundle_refusal(pages.drop_last(), raws.drop_last()) is Some {
        bundle_refusal(pages.drop_last(), raws.drop_last())
    } else if !carries(pages.last(), raws.last()@) {
        Some(changed_page_message(pages.last().sha256@))
    } else {
        None
    }
}

proof fn bundle_refusal_prefix(pages: Seq<PageCoverage>, raws: Seq<Vec<u8>>, count: int)
    requires
        pages.len() == raws.len(),
        0 <= count <= pages.len(),
        bundle_refusal(pages.take(count), raws.take(count)) is Some,
    ensures
        bundle_refusal(pages, raws) == bundle_refusal(pages.take(count), raws.take(count)),
    decreases pages.len() - count,
{
    if count < pages.len() {
        let more = count + 1;
        assert(pages.take(more).drop_last() =~= pages.take(count));
        assert(raws.take(more).drop_last() =~= raws.take(count));
        bundle_refusal_prefix(pages, raws, more);
    } else {
        assert(pages.take(count) =~= pages);
        assert(raws.take(count) =~= raws);
    }
}

/// Concatenates pages, and places each page at its offset. The bytes of every page are checked
/// against its record.
fn bundle_bytes(pages: Vec<PageCoverage>, raws: &Vec<Vec<u8>>) -> (bundle: Result<
    (Vec<PageCoverage>, Vec<u8>),
    String,
>)
    requires
        pages@.len() == raws@.len(),
    ensures
        refusal(bundle) == bundle_refusal(pages@, raws@),
        bundle matches Ok((moved, bytes)) ==> {
            &&& bytes@ == bundled(raws@)
            &&& moved@.len() == pages@.len()
            &&& forall|i: int|
                0 <= i < pages@.len() ==> placed(
                    pages@[i],
                    #[trigger] moved@[i],
                    bundled(raws@.take(i)).len() as int,
                )
        },
{
    let ghost original = pages@;
    let mut moved = pages;
    let mut bytes: Vec<u8> = Vec::new();
    let mut i: usize = 0;
    assert(original.take(0) =~= Seq::empty());
    assert(raws@.take(0) =~= Seq::empty());
    while i < moved.len()
        invariant
            i <= moved@.len(),
            moved@.len() == original.len(),
            original == pages@,
            original.len() == raws@.len(),
            bytes@ == bundled(raws@.take(i as int)),
            bundle_refusal(original.take(i as int), raws@.take(i as int)) is None,
            forall|j: int|
                0 <= j < i ==> placed(
                    original[j],
                    #[trigger] moved@[j],
                    bundled(raws@.take(j)).len() as int,
                ),
            forall|j: int| i <= j < moved@.len() ==> #[trigger] moved@[j] == original[j],
        decreases moved@.len() - i,
    {
        let ghost more = i + 1;
        assert(original.take(more).drop_last() =~= original.take(i as int));
        assert(raws@.take(more).drop_last() =~= raws@.take(i as int));
        assert(original.take(more).last() == original[i as int]);
        assert(raws@.take(more).last() == raws@[i as int]);
        assert(moved@[i as int] == original[i as int]);
        let raw = &raws[i];
        let text = digest(raw.as_slice());
        if !(text == moved[i].sha256) || raw.len() as u64 != moved[i].bytes {
            let mut message = String::from_str("retained page ");
            message.append(moved[i].sha256.as_str());
            message.append(" does not carry its recorded bytes and digest");
            assert(!carries(original[i as int], raw@));
            proof {
                bundle_refusal_prefix(original, raws@, more);
            }
            return Err(message);
        }
        let offset: u64 = bytes.len() as u64;
        moved[i].path = BUNDLE_PATH.to_owned();
        moved[i].offset = Some(offset);
        let ghost before = bytes@;
        bytes.extend_from_slice(raw.as_slice());
        assert(bytes@ =~= before + raw@);
        i = i + 1;
    }
    assert(original.take(i as int) =~= original);
    assert(raws@.take(i as int) =~= raws@);
    Ok((moved, bytes))
}

/// The bundle of an acquisition: its bytes, its pages as they stand in it, and its object.
#[derive(Debug)]
pub struct Bundle {
    pub pages: Vec<PageCoverage>,
    pub bytes: Vec<u8>,
    pub object: ObjectRecord,
}

/// Whether an object is that of a bundle's bytes.
pub open spec fn is_bundle_object(object: ObjectRecord, bytes: Seq<u8>) -> bool {
    &&& object.role == ObjectRole::Source
    &&& object.path@ == BUNDLE_PATH@
    &&& object.sha256@ == hex(sha256(bytes))
    &&& object.key@ == object_key_of(hex(sha256(bytes)))
    &&& object.bytes == bytes.len()
    &&& object.crc32c is None
    &&& object.generation is None
}

/// Bundles exactly this acquisition's retained pages, including replayed pages: `raws` are the
/// bytes that are retained under the pages' digests. Without pages there is no bundle.
pub fn bundle_pages(pages: Vec<PageCoverage>, raws: &Vec<Vec<u8>>) -> (bundle: Result<
    Option<Bundle>,
    String,
>)
    requires
        pages@.len() == raws@.len(),
    ensures
        refusal(bundle) == bundle_refusal(pages@, raws@),
        bundle matches Ok(bundle) ==> match bundle {
            None => pages@.len() == 0,
            Some(bundle) => {
                &&& pages@.len() > 0
                &&& bundle.bytes@ == bundled(raws@)
                &&& bundle.pages@.len() == pages@.len()
                &&& forall|i: int|
                    0 <= i < pages@.len() ==> placed(
                        pages@[i],
                        #[trigger] bundle.pages@[i],
                        bundled(raws@.take(i)).len() as int,
                    )
                &&& is_bundle_object(bundle.object, bundled(raws@))
            },
        },
{
    if pages.len() == 0 {
        return Ok(None);
    }
    match bundle_bytes(pages, raws) {
        Ok((pages, bytes)) => {
            let sum = digest(bytes.as_slice());
            let object = ObjectRecord {
                role: ObjectRole::Source,
                path: BUNDLE_PATH.to_owned(),
                key: object_key(sum.as_str()),
                bytes: bytes.len() as u64,
                sha256: sum,
                crc32c: None,
                generation: None,
            };
            Ok(Some(Bundle { pages, bytes, object }))
        },
        Err(message) => Err(message),
    }
}

/// A read gives back every page that was bundled: the bytes at a page's offset, as many as the
/// page records, are the page's own bytes and carry its digest.
pub proof fn bundle_gives_pages_back(raws: Seq<Vec<u8>>, i: int)
    requires
        0 <= i < raws.len(),
    ensures
        ({
            let offset = bundled(raws.take(i)).len() as int;
            &&& offset + raws[i]@.len() <= bundled(raws).len()
            &&& bundled(raws).subrange(offset, offset + raws[i]@.len()) == raws[i]@
        }),
    decreases raws.len(),
{
    if i == raws.len() - 1 {
        assert(raws.take(i) =~= raws.drop_last());
        let offset = bundled(raws.take(i)).len() as int;
        assert(bundled(raws).subrange(offset, offset + raws[i]@.len()) =~= raws[i]@);
    } else {
        let shorter = raws.drop_last();
        bundle_gives_pages_back(shorter, i);
        assert(shorter.take(i) =~= raws.take(i));
        let offset = bundled(raws.take(i)).len() as int;
        assert(bundled(raws).subrange(offset, offset + raws[i]@.len()) =~= bundled(
            shorter,
        ).subrange(offset, offset + raws[i]@.len()));
    }
}

/// The objects that a descendant carries forward from a covered baseline: its raw pages and
/// provenance, without the coverage record, and its bundle under a path of its own.
pub open spec fn carried_from(objects: Seq<ObjectRecord>) -> Seq<ObjectRecord> {
    objects.filter(
        |object: ObjectRecord| object.role != ObjectRole::Normalized && object.path@ != COVERAGE_PATH@,
    )
}

/// Whether `moved` is `object` with the bundle renamed for `generation`.
pub open spec fn renamed(object: ObjectRecord, moved: ObjectRecord, generation: Seq<char>) -> bool {
    &&& moved.path@ == (if object.path@ == BUNDLE_PATH@ {
        "raw/"@ + generation + "/pages.bin"@
    } else {
        object.path@
    })
    &&& moved.role == object.role
    &&& moved.key == object.key
    &&& moved.bytes == object.bytes
    &&& moved.sha256 == object.sha256
    &&& moved.crc32c == object.crc32c
    &&& moved.generation == object.generation
}

/// The objects a descendant carries forward from a covered baseline.
pub fn carried_objects(objects: &Vec<ObjectRecord>, generation: &str) -> (carried: Vec<ObjectRecord>)
    ensures
        carried@.len() == carried_from(objects@).len(),
        forall|i: int|
            0 <= i < carried@.len() ==> renamed(
                carried_from(objects@)[i],
                #[trigger] carried@[i],
                generation@,
            ),
{
    let ghost chosen = |object: ObjectRecord|
        object.role != ObjectRole::Normalized && object.path@ != COVERAGE_PATH@;
    let mut carried: Vec<ObjectRecord> = Vec::new();
    let mut i: usize = 0;
    assert(objects@.take(0).filter(chosen) =~= Seq::empty()) by {
        reveal(Seq::filter);
    }
    while i < objects.len()
        invariant
            i <= objects@.len(),
            chosen == (|object: ObjectRecord|
                object.role != ObjectRole::Normalized && object.path@ != COVERAGE_PATH@),
            carried@.len() == objects@.take(i as int).filter(chosen).len(),
            forall|j: int|
                0 <= j < carried@.len() ==> renamed(
                    objects@.take(i as int).filter(chosen)[j],
                    #[trigger] carried@[j],
                    generation@,
                ),
        decreases objects@.len() - i,
    {
        assert(objects@.take(i + 1) =~= objects@.take(i as int).push(objects@[i as int]));
        proof {
            objects@.take(i as int).lemma_filter_push(objects@[i as int], chosen);
        }
        if objects[i].role != ObjectRole::Normalized && !same_text(
            objects[i].path.as_str(),
            COVERAGE_PATH,
        ) {
            let mut object = objects[i].clone();
            if same_text(object.path.as_str(), BUNDLE_PATH) {
                object.path = carried_bundle_path(generation);
            }
            carried.push(object);
        }
        i = i + 1;
    }
    assert(objects@.take(i as int) =~= objects@);
    carried
}

/// What a generation of acquired rows records of its data, and under which path its normalized
/// object goes.
#[derive(Debug)]
pub struct Normalized {
    pub described: Description,
    pub path: String,
}

/// Describes acquired rows by their granularity. `interval` is the contract of acquired bars, and
/// the paths are those of normalized ticks and bars.
pub fn describe_native(
    native: &Native,
    interval: IntervalContract,
    tick_path: &str,
    bar_path: &str,
) -> (normalized: Normalized)
    ensures
        normalized.described == (match native.granularity {
            NativeGranularity::Tick => Description {
                source_kind: SourceKind::BrokerHistory,
                scale: Some(native.scale),
                native_granularity: native.granularity,
                time_unit: TimeUnit::Microsecond,
                price_representation: PriceRepresentation::IntegerUnits { scale: native.scale },
                interval: None,
                capability: Capability::Ticks,
            },
            NativeGranularity::Bar { .. } => Description {
                source_kind: SourceKind::BrokerHistory,
                scale: None,
                native_granularity: native.granularity,
                time_unit: TimeUnit::Second,
                price_representation: PriceRepresentation::BinaryFloat,
                interval: Some(interval),
                capability: Capability::Bars,
            },
        }),
        normalized.path@ == (match native.granularity {
            NativeGranularity::Tick => tick_path@,
            NativeGranularity::Bar { .. } => bar_path@,
        }),
{
    match native.granularity {
        NativeGranularity::Tick => Normalized {
            described: Description {
                source_kind: SourceKind::BrokerHistory,
                scale: Some(native.scale),
                native_granularity: native.granularity,
                time_unit: TimeUnit::Microsecond,
                price_representation: PriceRepresentation::IntegerUnits { scale: native.scale },
                interval: None,
                capability: Capability::Ticks,
            },
            path: tick_path.to_owned(),
        },
        NativeGranularity::Bar { .. } => Normalized {
            described: Description {
                source_kind: SourceKind::BrokerHistory,
                scale: None,
                native_granularity: native.granularity,
                time_unit: TimeUnit::Second,
                price_representation: PriceRepresentation::BinaryFloat,
                interval: Some(interval),
                capability: Capability::Bars,
            },
            path: bar_path.to_owned(),
        },
    }
}

/// Whether an object is a source.
pub open spec fn is_source() -> spec_fn(ObjectRecord) -> bool {
    |object: ObjectRecord| object.role == ObjectRole::Source
}

/// Whether an input is an object.
pub open spec fn is_input(input: Input, object: ObjectRecord) -> bool {
    &&& input.path@ == object.path@
    &&& input.bytes == object.bytes
    &&& input.sha256@ == object.sha256@
}

/// The inputs of a generation: its source objects, in order.
pub fn inputs_of(objects: &Vec<ObjectRecord>) -> (inputs: Vec<Input>)
    ensures
        inputs@.len() == objects@.filter(is_source()).len(),
        forall|i: int|
            0 <= i < inputs@.len() ==> is_input(
                #[trigger] inputs@[i],
                objects@.filter(is_source())[i],
            ),
{
    let mut inputs: Vec<Input> = Vec::new();
    let mut i: usize = 0;
    assert(objects@.take(0).filter(is_source()) =~= Seq::empty()) by {
        reveal(Seq::filter);
    }
    while i < objects.len()
        invariant
            i <= objects@.len(),
            inputs@.len() == objects@.take(i as int).filter(is_source()).len(),
            forall|j: int|
                0 <= j < inputs@.len() ==> is_input(
                    #[trigger] inputs@[j],
                    objects@.take(i as int).filter(is_source())[j],
                ),
        decreases objects@.len() - i,
    {
        assert(objects@.take(i + 1) =~= objects@.take(i as int).push(objects@[i as int]));
        proof {
            objects@.take(i as int).lemma_filter_push(objects@[i as int], is_source());
        }
        if objects[i].role == ObjectRole::Source {
            inputs.push(
                Input {
                    path: objects[i].path.clone(),
                    bytes: objects[i].bytes,
                    sha256: objects[i].sha256.clone(),
                },
            );
        }
        i = i + 1;
    }
    assert(objects@.take(i as int) =~= objects@);
    inputs
}

/// The manifest that a daily acquisition starts its descendant from: what it says of the baseline
/// stays, but for where the rows come from, what they are now, and what made it. Its objects are
/// gathered anew.
pub fn descendant_manifest(
    baseline: GenerationManifest,
    summary: RowSummary,
    config_hash: String,
    code_revision: String,
) -> (manifest: GenerationManifest)
    ensures
        manifest == (GenerationManifest {
            source_kind: SourceKind::BrokerHistory,
            row_count: summary.rows,
            first_event_time: summary.first_event_time,
            last_event_time: summary.last_event_time,
            config_hash,
            code_revision,
            objects: manifest.objects,
            ..baseline
        }),
        manifest.objects@.len() == 0,
{
    let mut manifest = baseline;
    manifest.source_kind = SourceKind::BrokerHistory;
    manifest.row_count = summary.rows;
    manifest.first_event_time = summary.first_event_time;
    manifest.last_event_time = summary.last_event_time;
    manifest.config_hash = config_hash;
    manifest.code_revision = code_revision;
    manifest.objects = Vec::new();
    manifest
}

/// The manifest of acquired rows: their description by granularity, what they were made of, and
/// their objects.
pub fn acquired_manifest(
    subject: Subject,
    generation: String,
    described: Description,
    summary: RowSummary,
    objects: Vec<ObjectRecord>,
) -> (manifest: GenerationManifest)
    ensures
        is_manifest(
            manifest,
            subject,
            generation,
            described,
            summary,
            manifest.inputs,
            objects,
        ),
        manifest.inputs@.len() == objects@.filter(is_source()).len(),
        forall|i: int|
            0 <= i < manifest.inputs@.len() ==> is_input(
                #[trigger] manifest.inputs@[i],
                objects@.filter(is_source())[i],
            ),
{
    let inputs = inputs_of(&objects);
    generation_manifest(subject, generation, described, summary, inputs, objects)
}

/// The message of a page whose bytes were retained but cannot be decoded.
pub fn undecoded(instrument: &str, sha256: &str, reason: &str) -> (message: String)
    ensures
        message@ == "fetch "@ + instrument@ + ": retained page "@ + sha256@ + ": "@ + reason@,
{
    let mut message = "fetch ".to_owned();
    message.append(instrument);
    message.append(": retained page ");
    message.append(sha256);
    message.append(": ");
    message.append(reason);
    message
}

/// The record under which a seed's object is carried.
pub fn seed_record(path: &str, key: String, identity: &ObjectIdentity) -> (object: ObjectRecord)
    ensures
        fresh_record(object, ObjectRole::Provenance, SEED_PREFIX@ + path@, key, *identity),
{
    let mut carried = SEED_PREFIX.to_owned();
    carried.append(path);
    record(ObjectRole::Provenance, carried.as_str(), key, identity)
}

/// Whether `moved` is `page` with the bundle renamed for `generation`.
pub open spec fn page_renamed(page: PageCoverage, moved: PageCoverage, generation: Seq<char>) -> bool {
    &&& moved.path@ == (if page.path@ == BUNDLE_PATH@ {
        "raw/"@ + generation + "/pages.bin"@
    } else {
        page.path@
    })
    &&& moved.occurrence == page.occurrence
    &&& moved.sha256 == page.sha256
    &&& moved.bytes == page.bytes
    &&& moved.offset == page.offset
    &&& moved.anchor == page.anchor
    &&& moved.rows == page.rows
    &&& moved.first == page.first
    &&& moved.last == page.last
    &&& moved.receipt_time == page.receipt_time
}

/// The page list of a covered baseline as its descendant carries it: pages of the baseline's
/// own bundle follow the bundle to its carried path.
pub fn carried_pages(coverage: &HistoryCoverage, generation: &str) -> (pages: Vec<PageCoverage>)
    ensures
        pages@.len() == coverage.pages@.len(),
        coverage.bundle is None ==> pages@ == coverage.pages@,
        coverage.bundle is Some ==> forall|i: int|
            0 <= i < pages@.len() ==> page_renamed(
                coverage.pages@[i],
                #[trigger] pages@[i],
                generation@,
            ),
{
    let bundled: bool = coverage.bundle.is_some();
    let mut pages: Vec<PageCoverage> = Vec::new();
    let mut i: usize = 0;
    while i < coverage.pages.len()
        invariant
            i <= coverage.pages@.len(),
            pages@.len() == i,
            bundled == coverage.bundle is Some,
            !bundled ==> pages@ == coverage.pages@.take(i as int),
            bundled ==> forall|j: int|
                0 <= j < i ==> page_renamed(
                    coverage.pages@[j],
                    #[trigger] pages@[j],
                    generation@,
                ),
        decreases coverage.pages@.len() - i,
    {
        let mut page = coverage.pages[i].clone();
        if bundled && same_text(page.path.as_str(), BUNDLE_PATH) {
            page.path = carried_bundle_path(generation);
        }
        pages.push(page);
        i = i + 1;
        assert(coverage.pages@.take(i as int) =~= coverage.pages@.take(i - 1).push(
            coverage.pages@[i - 1],
        ));
    }
    assert(coverage.pages@.take(i as int) =~= coverage.pages@);
    pages
}

/// Who an acquisition is for.
#[derive(Debug)]
pub struct CoverageSubject {
    pub source_identity: String,
    pub broker: String,
    pub provider_symbol: String,
    pub role: DatasetRole,
    pub native_granularity: NativeGranularity,
    pub requested: Range,
    pub seed: Option<SeedLineage>,
}

/// The facts that every coverage record of a subject carries.
pub open spec fn covers_subject(coverage: HistoryCoverage, subject: CoverageSubject) -> bool {
    &&& coverage.schema_version == 1
    &&& coverage.source_identity == subject.source_identity
    &&& coverage.broker == subject.broker
    &&& coverage.provider_symbol == subject.provider_symbol
    &&& coverage.role == subject.role
    &&& coverage.native_granularity == subject.native_granularity
    &&& coverage.requested == subject.requested
    &&& coverage.seed == subject.seed
}

/// The coverage of an acquisition whose budget expired before the first page.
pub fn empty_coverage(subject: CoverageSubject, shortfall: Shortfall) -> (coverage: HistoryCoverage)
    ensures
        covers_subject(coverage, subject),
        coverage.verified is None,
        coverage.actual is None,
        coverage.rows == 0,
        coverage.pages@.len() == 0,
        coverage.bundle is None,
        coverage.shortfall == Some(shortfall),
        coverage.tail_shortfall is None,
{
    HistoryCoverage {
        schema_version: 1,
        source_identity: subject.source_identity,
        broker: subject.broker,
        provider_symbol: subject.provider_symbol,
        role: subject.role,
        requested: subject.requested,
        verified: None,
        actual: None,
        rows: 0,
        pages: Vec::new(),
        bundle: None,
        shortfall: Some(shortfall),
        tail_shortfall: None,
        native_granularity: subject.native_granularity,
        seed: subject.seed,
    }
}

/// The coverage of a settled acquisition: the carried pages, then this acquisition's own.
pub fn settled_coverage<R: Row>(
    subject: CoverageSubject,
    settled: Settled<R>,
    carried: Vec<PageCoverage>,
    bundle: Option<ObjectIdentitySummary>,
) -> (result: (HistoryCoverage, Vec<R>))
    ensures
        covers_subject(result.0, subject),
        result.0.verified == settled.verified,
        result.0.actual == settled.actual,
        result.0.rows == settled.rows@.len(),
        result.0.pages@ == carried@ + settled.pages@,
        result.0.bundle == bundle,
        result.0.shortfall == settled.shortfall,
        result.0.tail_shortfall == settled.tail_shortfall,
        result.1 == settled.rows,
{
    let mut pages = carried;
    let mut own = settled.pages;
    pages.append(&mut own);
    let rows: u64 = settled.rows.len() as u64;
    (
        HistoryCoverage {
            schema_version: 1,
            source_identity: subject.source_identity,
            broker: subject.broker,
            provider_symbol: subject.provider_symbol,
            role: subject.role,
            requested: subject.requested,
            verified: settled.verified,
            actual: settled.actual,
            rows,
            pages,
            bundle,
            shortfall: settled.shortfall,
            tail_shortfall: settled.tail_shortfall,
            native_granularity: subject.native_granularity,
            seed: subject.seed,
        },
        settled.rows,
    )
}

/// The times of a report line as text, and how long its two phases took.
#[derive(Debug)]
pub struct ReportTimes {
    pub requested_start: String,
    pub requested_end: String,
    pub verified: Option<(String, String)>,
    pub fetch: String,
    pub publish: String,
}

/// The report line of one pass.
pub open spec fn report_line(
    role: Seq<char>,
    instrument: Seq<char>,
    generation: Seq<char>,
    coverage: HistoryCoverage,
    objects: nat,
    reused: nat,
    times: ReportTimes,
) -> Seq<char> {
    "fetch "@ + role + " "@ + instrument + " generation "@ + generation + " requested "@
        + times.requested_start@ + " "@ + times.requested_end@ + " verified "@ + (
    match times.verified {
        Some((start, end)) => start@ + " "@ + end@,
        None => "none none"@,
    }) + " rows "@ + decimal(coverage.rows as nat) + " pages "@ + decimal(coverage.pages@.len())
        + " objects "@ + decimal(objects) + " reused "@ + decimal(reused) + " shortfall "@ + (
    match coverage.shortfall {
        Some(shortfall) => shortfall.reason@,
        None => "none"@,
    }) + " [fetch "@ + times.fetch@ + " publish "@ + times.publish@ + "]"@
}

/// The report line of one pass.
pub fn report(
    role: &str,
    instrument: &str,
    generation: &str,
    coverage: &HistoryCoverage,
    objects: usize,
    reused: usize,
    times: &ReportTimes,
) -> (line: String)
    ensures
        line@ == report_line(
            role@,
            instrument@,
            generation@,
            *coverage,
            objects as nat,
            reused as nat,
            *times,
        ),
{
    let mut verified = String::new();
    match &times.verified {
        Some((start, end)) => {
            verified = start.clone();
            verified.append(" ");
            verified.append(end.as_str());
        },
        None => {
            verified.append("none none");
        },
    }
    assert(times.verified is None ==> verified@ =~= "none none"@);
    let mut line = String::from_str("fetch ");
    line.append(role);
    line.append(" ");
    line.append(instrument);
    line.append(" generation ");
    line.append(generation);
    line.append(" requested ");
    line.append(times.requested_start.as_str());
    line.append(" ");
    line.append(times.requested_end.as_str());
    line.append(" verified ");
    line.append(verified.as_str());
    line.append(" rows ");
    append_decimal(&mut line, coverage.rows);
    line.append(" pages ");
    append_decimal(&mut line, coverage.pages.len() as u64);
    line.append(" objects ");
    append_decimal(&mut line, objects as u64);
    line.append(" reused ");
    append_decimal(&mut line, reused as u64);
    line.append(" shortfall ");
    match &coverage.shortfall {
        Some(shortfall) => {
            line.append(shortfall.reason.as_str());
        },
        None => {
            line.append("none");
        },
    }
    line.append(" [fetch ");
    line.append(times.fetch.as_str());
    line.append(" publish ");
    line.append(times.publish.as_str());
    line.append("]");
    line
}

/// The report line of a pass whose range was published before.
pub fn published_line(line: &str) -> (text: String)
    ensures
        text@ == line@ + " no new range (already published)"@,
{
    join(line, " no new range (already published)")
}

/// The report line of a pass that found nothing new.
pub fn unchanged_line(line: &str) -> (text: String)
    ensures
        text@ == line@ + " (no new data)"@,
{
    join(line, " (no new data)")
}

/// What a repeated acquisition does next.
#[derive(Debug, Clone, Copy, PartialEq, Eq, Structural)]
pub enum Repeat {
    Stop,
    Pass,
    SleepThenPass { micros: i64 },
}

/// Whether a limit of passes is reached.
pub open spec fn limit_reached(limit: PassLimit, done: nat) -> bool {
    limit matches PassLimit::Exactly(count) && done >= count
}

/// Decides between passes: `done` passes were made; without a refresh interval one pass is all.
pub fn next_pass(limit: PassLimit, done: usize, refresh_seconds: Option<u32>) -> (next: Repeat)
    ensures
        next == (if limit_reached(limit, done as nat) || (done > 0 && refresh_seconds is None) {
            Repeat::Stop
        } else if done == 0 {
            Repeat::Pass
        } else {
            Repeat::SleepThenPass { micros: (refresh_seconds->0 * 1_000_000) as i64 }
        }),
{
    if let PassLimit::Exactly(count) = limit {
        if done >= count {
            return Repeat::Stop;
        }
    }
    if done == 0 {
        return Repeat::Pass;
    }
    match refresh_seconds {
        Some(seconds) => Repeat::SleepThenPass { micros: seconds as i64 * 1_000_000 },
        None => Repeat::Stop,
    }
}

/// The range one pass asks for: the first pass ends where the configuration says, a later one
/// now.
pub fn pass_range(start: i64, configured_end: i64, done: usize, now: i64) -> (range: Range)
    ensures
        range.start == start,
        range.end == (if done == 0 {
            configured_end
        } else {
            now
        }),
{
    Range {
        start,
        end: if done == 0 {
            configured_end
        } else {
            now
        },
    }
}

} // verus!
