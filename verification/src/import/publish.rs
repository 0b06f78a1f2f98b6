//! Publishing an imported dataset: what its bytes must still be, how its manifest describes it,
//! and what is reported.

use crate::dataset::{
    describes_result, generation_manifest, is_manifest, is_record, record, same_result, Capability,
    Description, GenerationManifest, Input, IntervalContract, ObjectIdentity, ObjectRecord,
    PriceRepresentation, RowSummary, SourceKind, Subject, TimeUnit,
};
use crate::import::collection::PlannedFile;
use crate::lineage::json::object_key;
use crate::market::NativeGranularity;
use crate::store::{held_after, stores, Stored};
use crate::text::{append_decimal, decimal, join, join3, join4, refusal, same_text};
use vstd::prelude::*;
use vstd::string::*;

verus! {

/// Whether some object of a path has other bytes than were parsed.
pub open spec fn changed(objects: Seq<ObjectRecord>, parsed: (String, String)) -> bool {
    exists|i: int|
        0 <= i < objects.len() && (#[trigger] objects[i]).path@ == parsed.0@ && objects[i].sha256@
            != parsed.1@
}

fn is_changed(objects: &Vec<ObjectRecord>, parsed: &(String, String)) -> (different: bool)
    ensures
        different == changed(objects@, *parsed),
{
    let mut i: usize = 0;
    while i < objects.len()
        invariant
            i <= objects@.len(),
            forall|j: int|
                0 <= j < i ==> !((#[trigger] objects@[j]).path@ == parsed.0@ && objects@[j].sha256@
                    != parsed.1@),
        decreases objects@.len() - i,
    {
        if same_text(objects[i].path.as_str(), parsed.0.as_str()) && !same_text(
            objects[i].sha256.as_str(),
            parsed.1.as_str(),
        ) {
            assert(objects@[i as int].path@ == parsed.0@);
            return true;
        }
        i = i + 1;
    }
    false
}

/// The first file that changed after it was parsed.
pub open spec fn first_changed(
    objects: Seq<ObjectRecord>,
    parsed: Seq<(String, String)>,
) -> Option<Seq<char>>
    decreases parsed.len(),
{
    if parsed.len() == 0 {
        None
    } else if changed(objects, parsed[0]) {
        Some(parsed[0].0@)
    } else {
        first_changed(objects, parsed.skip(1))
    }
}

/// The files that were parsed while planning must still hold the bytes that were parsed.
pub fn check_parsed(objects: &Vec<ObjectRecord>, parsed: &Vec<(String, String)>) -> (result: Result<
    (),
    String,
>)
    ensures
        refusal(result) == match first_changed(objects@, parsed@) {
            Some(path) => Some(
                path + " changed after its expectations were read; nothing was published"@,
            ),
            None => None,
        },
{
    let mut i: usize = 0;
    assert(parsed@.skip(0) =~= parsed@);
    while i < parsed.len()
        invariant
            i <= parsed@.len(),
            first_changed(objects@, parsed@) == first_changed(objects@, parsed@.skip(i as int)),
        decreases parsed@.len() - i,
    {
        assert(parsed@.skip(i as int)[0] == parsed@[i as int]);
        assert(parsed@.skip(i as int).skip(1) =~= parsed@.skip(i + 1));
        if is_changed(objects, &parsed[i]) {
            return Err(
                join(
                    parsed[i].0.as_str(),
                    " changed after its expectations were read; nothing was published",
                ),
            );
        }
        i = i + 1;
    }
    assert(parsed@.skip(i as int).len() == 0);
    Ok(())
}

/// What a dataset is made of.
#[derive(Debug)]
pub enum Data {
    /// Ticks out of one table of text, at a price scale.
    TickCsv { scale: u8 },
    /// Ticks out of a daily archive, at a price scale.
    TickDaily { scale: u8 },
    /// Bars of a period under a declared interval contract. `all_embedded` says whether every
    /// file holds its own.
    Bars { period_seconds: u16, interval: IntervalContract, all_embedded: bool },
}

/// Whether a description is that of ticks at a scale.
pub open spec fn describes_ticks(
    described: Description,
    source_kind: SourceKind,
    scale: u8,
) -> bool {
    &&& described.source_kind == source_kind
    &&& described.scale == Some(scale)
    &&& described.native_granularity == NativeGranularity::Tick
    &&& described.time_unit == TimeUnit::Microsecond
    &&& described.price_representation == (PriceRepresentation::IntegerUnits { scale })
    &&& described.interval is None
    &&& described.capability == Capability::Ticks
}

/// Describes a dataset.
pub fn describe(data: Data) -> (described: Description)
    ensures
        match data {
            Data::TickCsv { scale } => describes_ticks(described, SourceKind::TickCsv, scale),
            Data::TickDaily { scale } => describes_ticks(
                described,
                SourceKind::TickParquetDaily,
                scale,
            ),
            Data::Bars { period_seconds, interval, all_embedded } => {
                &&& described.source_kind == SourceKind::BarParquet
                &&& described.scale is None
                &&& described.native_granularity == (NativeGranularity::Bar { period_seconds })
                &&& described.time_unit == TimeUnit::Second
                &&& described.price_representation == PriceRepresentation::BinaryFloat
                &&& described.capability == Capability::Bars
                &&& described.interval matches Some(contract)
                &&& contract == (IntervalContract { provenance: contract.provenance, ..interval })
                &&& contract.provenance@ == (if all_embedded {
                    "parquet_metadata"@
                } else {
                    interval.provenance@
                })
            },
        },
{
    match data {
        Data::TickCsv { scale } => describe_ticks(SourceKind::TickCsv, scale),
        Data::TickDaily { scale } => describe_ticks(SourceKind::TickParquetDaily, scale),
        Data::Bars { period_seconds, interval, all_embedded } => {
            let mut contract = interval;
            let provenance = interval_provenance(all_embedded, contract.provenance.as_str());
            contract.provenance = provenance;
            Description {
                source_kind: SourceKind::BarParquet,
                scale: None,
                native_granularity: NativeGranularity::Bar { period_seconds },
                time_unit: TimeUnit::Second,
                price_representation: PriceRepresentation::BinaryFloat,
                interval: Some(contract),
                capability: Capability::Bars,
            }
        },
    }
}

fn describe_ticks(source_kind: SourceKind, scale: u8) -> (described: Description)
    ensures
        describes_ticks(described, source_kind, scale),
{
    Description {
        source_kind,
        scale: Some(scale),
        native_granularity: NativeGranularity::Tick,
        time_unit: TimeUnit::Microsecond,
        price_representation: PriceRepresentation::IntegerUnits { scale },
        interval: None,
        capability: Capability::Ticks,
    }
}

/// Where a dataset's interval contract comes from: the files themselves, where all of them hold
/// it, or else where the declared one does.
pub fn interval_provenance(all_embedded: bool, declared: &str) -> (provenance: String)
    ensures
        provenance@ == if all_embedded {
            "parquet_metadata"@
        } else {
            declared@
        },
{
    if all_embedded {
        "parquet_metadata".to_owned()
    } else {
        declared.to_owned()
    }
}

/// How a manifest that does not describe an import is refused.
pub open spec fn other_result(uri: Seq<char>) -> Seq<char> {
    uri
        + " records a different generation, object set, row count, or coverage than this import produced"@
}

/// A manifest that is already committed at `uri` must describe this import.
pub fn check_committed(
    committed: &GenerationManifest,
    fresh: &GenerationManifest,
    identities: &Vec<ObjectIdentity>,
    uri: &str,
) -> (result: Result<(), String>)
    ensures
        refusal(result) == if describes_result(*committed, *fresh, identities@) {
            None
        } else {
            Some(other_result(uri@))
        },
{
    if same_result(committed, fresh, identities) {
        Ok(())
    } else {
        Err(
            join(
                uri,
                " records a different generation, object set, row count, or coverage than this import produced",
            ),
        )
    }
}

/// What becomes of an import whose manifest may be committed already.
pub open spec fn readies(
    committed: Option<(GenerationManifest, Vec<u8>)>,
    fresh: GenerationManifest,
    bytes: Vec<u8>,
    identities: Seq<ObjectIdentity>,
    uri: Seq<char>,
    ready: Result<Vec<u8>, String>,
) -> bool {
    match committed {
        None => ready == Ok::<Vec<u8>, String>(bytes),
        Some((manifest, kept)) => if describes_result(manifest, fresh, identities) {
            ready == Ok::<Vec<u8>, String>(kept)
        } else {
            refusal(ready) == Some(other_result(uri))
        },
    }
}

/// The manifest bytes that become ready, at the destination and then in the local mirror: those
/// that are committed already, where they describe this import, and otherwise the fresh ones.
pub fn ready_bytes(
    committed: Option<(GenerationManifest, Vec<u8>)>,
    fresh: &GenerationManifest,
    bytes: Vec<u8>,
    identities: &Vec<ObjectIdentity>,
    uri: &str,
) -> (ready: Result<Vec<u8>, String>)
    ensures
        readies(committed, *fresh, bytes, identities@, uri@, ready),
{
    match committed {
        None => Ok(bytes),
        Some((manifest, kept)) => match check_committed(&manifest, fresh, identities, uri) {
            Ok(_) => Ok(kept),
            Err(message) => Err(message),
        },
    }
}

/// Committed manifest bytes are never replaced, and what is mirrored is what is committed: where
/// an import gets ready, the destination keeps the bytes that it held, or takes the fresh ones
/// where it held none, and the mirror, unless it holds others, then holds the same. `mirror` is
/// what the mirror holds under the manifest's key; `put` and `mirrored` are what storing the ready
/// bytes in each came to.
pub proof fn committed_bytes_are_mirrored(
    committed: Option<(GenerationManifest, Vec<u8>)>,
    fresh: GenerationManifest,
    bytes: Vec<u8>,
    identities: Seq<ObjectIdentity>,
    uri: Seq<char>,
    ready: Vec<u8>,
    put: Result<Stored, String>,
    mirror: Option<Seq<u8>>,
    mirror_uri: Seq<char>,
    mirrored: Result<Stored, String>,
)
    requires
        readies(committed, fresh, bytes, identities, uri, Ok(ready)),
        stores(committed_bytes(committed), ready@, uri, put),
        stores(mirror, ready@, mirror_uri, mirrored),
        mirrored is Ok,
    ensures
        put is Ok,
        held_after(committed_bytes(committed), ready@, put) == Some(
            match committed {
                Some((_, kept)) => kept@,
                None => bytes@,
            },
        ),
        held_after(mirror, ready@, mirrored) == held_after(
            committed_bytes(committed),
            ready@,
            put,
        ),
{
}

/// What the destination holds under a manifest's key.
pub open spec fn committed_bytes(committed: Option<(GenerationManifest, Vec<u8>)>) -> Option<
    Seq<u8>,
> {
    match committed {
        Some((_, kept)) => Some(kept@),
        None => None,
    }
}

/// An import that a committed manifest does not describe has no bytes that could be stored.
pub proof fn another_result_is_never_written(
    manifest: GenerationManifest,
    kept: Vec<u8>,
    fresh: GenerationManifest,
    bytes: Vec<u8>,
    identities: Seq<ObjectIdentity>,
    uri: Seq<char>,
    ready: Result<Vec<u8>, String>,
)
    requires
        readies(Some((manifest, kept)), fresh, bytes, identities, uri, ready),
        !describes_result(manifest, fresh, identities),
    ensures
        refusal(ready) == Some(other_result(uri)),
{
}

/// Whether records are those of files, before anything was stored.
pub open spec fn are_records(
    objects: Seq<ObjectRecord>,
    files: Seq<PlannedFile>,
    identities: Seq<ObjectIdentity>,
) -> bool {
    &&& objects.len() == files.len()
    &&& forall|i: int|
        0 <= i < objects.len() ==> is_record(
            #[trigger] objects[i],
            files[i].role,
            files[i].path@,
            identities[i],
        )
}

/// The records of the files of a dataset.
pub fn file_records(files: &Vec<PlannedFile>, identities: &Vec<ObjectIdentity>) -> (objects: Vec<
    ObjectRecord,
>)
    requires
        files@.len() <= identities@.len(),
    ensures
        are_records(objects@, files@, identities@),
{
    let mut objects: Vec<ObjectRecord> = Vec::new();
    let mut i: usize = 0;
    while i < files.len()
        invariant
            i <= files@.len(),
            files@.len() <= identities@.len(),
            objects@.len() == i,
            forall|j: int|
                0 <= j < i ==> is_record(
                    #[trigger] objects@[j],
                    files@[j].role,
                    files@[j].path@,
                    identities@[j],
                ),
        decreases files@.len() - i,
    {
        let key = object_key(identities[i].sha256.as_str());
        objects.push(record(files[i].role, files[i].path.as_str(), key, &identities[i]));
        i = i + 1;
    }
    objects
}

/// Whether inputs are files as they lie on disk.
pub open spec fn are_inputs(
    inputs: Seq<Input>,
    files: Seq<PlannedFile>,
    identities: Seq<ObjectIdentity>,
) -> bool {
    &&& inputs.len() == files.len()
    &&& forall|i: int|
        0 <= i < inputs.len() ==> (#[trigger] inputs[i]).path@ == files[i].absolute@
            && inputs[i].bytes == identities[i].bytes && inputs[i].sha256@ == identities[i].sha256@
}

/// What a dataset was made of: its files as they lie on disk.
pub fn file_inputs(files: &Vec<PlannedFile>, identities: &Vec<ObjectIdentity>) -> (inputs: Vec<
    Input,
>)
    requires
        files@.len() <= identities@.len(),
    ensures
        are_inputs(inputs@, files@, identities@),
{
    let mut inputs: Vec<Input> = Vec::new();
    let mut i: usize = 0;
    while i < files.len()
        invariant
            i <= files@.len(),
            files@.len() <= identities@.len(),
            inputs@.len() == i,
            forall|j: int|
                0 <= j < i ==> (#[trigger] inputs@[j]).path@ == files@[j].absolute@
                    && inputs@[j].bytes == identities@[j].bytes && inputs@[j].sha256@
                    == identities@[j].sha256@,
        decreases files@.len() - i,
    {
        inputs.push(
            Input {
                path: files[i].absolute.clone(),
                bytes: identities[i].bytes,
                sha256: identities[i].sha256.clone(),
            },
        );
        i = i + 1;
    }
    inputs
}

/// The manifest of an import: its inputs are its files as they lie on disk, and its objects those
/// that were stored.
pub fn import_manifest(
    subject: Subject,
    generation: String,
    described: Description,
    summary: RowSummary,
    files: &Vec<PlannedFile>,
    identities: &Vec<ObjectIdentity>,
    objects: Vec<ObjectRecord>,
) -> (manifest: GenerationManifest)
    requires
        files@.len() <= identities@.len(),
    ensures
        is_manifest(
            manifest,
            subject,
            generation,
            described,
            summary,
            manifest.inputs,
            objects,
        ),
        are_inputs(manifest.inputs@, files@, identities@),
{
    let inputs = file_inputs(files, identities);
    generation_manifest(subject, generation, described, summary, inputs, objects)
}

/// The report of an import.
pub open spec fn report_of(
    instrument: Seq<char>,
    role: Seq<char>,
    generation: Seq<char>,
    rows: nat,
    objects: nat,
    reused: nat,
    timings: Option<Seq<char>>,
) -> Seq<char> {
    "published "@ + instrument + " "@ + role + " generation "@ + generation + " rows "@ + decimal(
        rows,
    ) + " objects "@ + decimal(objects) + " reused "@ + decimal(reused) + (match timings {
        Some(timings) => " ["@ + timings + "]"@,
        None => " (already published)"@,
    })
}

/// The report of an import; `timings` is how long each part took, where the manifest was new.
pub fn report(
    instrument: &str,
    role: &str,
    generation: &str,
    rows: u64,
    objects: usize,
    reused: usize,
    timings: Option<&str>,
) -> (line: String)
    ensures
        line@ == report_of(
            instrument@,
            role@,
            generation@,
            rows as nat,
            objects as nat,
            reused as nat,
            match timings {
                Some(timings) => Some(timings@),
                None => None,
            },
        ),
{
    let mut line = join4("published ", instrument, " ", role);
    line.append(" generation ");
    line.append(generation);
    line.append(" rows ");
    append_decimal(&mut line, rows);
    line.append(" objects ");
    append_decimal(&mut line, objects as u64);
    line.append(" reused ");
    append_decimal(&mut line, reused as u64);
    let closing = match timings {
        Some(timings) => join3(" [", timings, "]"),
        None => " (already published)".to_owned(),
    };
    line.append(closing.as_str());
    line
}

/// The first line of a native tick file must be the expected header.
pub fn check_header(path: &str, header: Option<&str>, expected: &str) -> (result: Result<
    (),
    String,
>)
    ensures
        refusal(result) == match header {
            None => Some(path@ + " is empty"@),
            Some(header) => if header@ == expected@ {
                None
            } else {
                Some(path@ + " header `"@ + header@ + "` is not `"@ + expected@ + "`"@)
            },
        },
{
    match header {
        None => Err(join(path, " is empty")),
        Some(header) => {
            if same_text(header, expected) {
                Ok(())
            } else {
                let mut message = join4(path, " header `", header, "` is not `");
                message.append(expected);
                message.append("`");
                Err(message)
            }
        },
    }
}

/// How a refused row of a native tick file is reported: rows are counted from one after the
/// header.
pub fn row_error(path: &str, index: usize, reason: &str) -> (message: String)
    requires
        index < usize::MAX,
    ensures
        message@ == path@ + " row "@ + decimal((index + 1) as nat) + ": "@ + reason@,
{
    let mut message = join(path, " row ");
    append_decimal(&mut message, index as u64 + 1);
    message.append(": ");
    message.append(reason);
    message
}

} // verus!
