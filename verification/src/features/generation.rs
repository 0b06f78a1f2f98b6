//! Building one feature generation, and verifying a published one: the totals of its streams,
//! the order of its work and of its objects, and what is compared before it counts as ready.

use crate::dataset::{
    is_record, objects_agree, record, same_objects, ObjectIdentity, ObjectRecord, ObjectRole,
};
use crate::features::plan::{
    FeatureManifest, InputManifest, PlanFacts, ProfileManifest, StreamSummary,
};
use crate::features::reuse::{events_of, rows_of, totals};
use crate::features::table::{
    column_views, metadata_of, metadata_views, sequence_columns, sequence_layout,
    structure_columns, structure_layout, table_metadata, Cell, ColumnType, TableColumn,
    TableSubject, ENCODED_MESSAGE, ROWS_MESSAGE, SEQUENCE_MESSAGE, STRUCTURE_MESSAGE,
};
use crate::lineage::json::object_key;
use crate::live::rows::{position, position_meets, position_of, FeatureValue, StreamKey};
use crate::text::{
    append_decimal, append_texts, copy_texts, decimal, join, join3, join4, refusal, same_text,
    views,
};
use vstd::multiset::*;
use vstd::prelude::*;
use vstd::string::*;

verus! {

impl StreamSummary {
    /// A stream of which nothing was seen.
    pub fn empty(stream: StreamKey) -> (summary: Self)
        ensures
            summary == (StreamSummary {
                stream,
                rows: 0,
                structure_events: 0,
                sequence_events: 0,
                first_decision: None,
                last_decision: None,
            }),
    {
        StreamSummary {
            stream,
            rows: 0,
            structure_events: 0,
            sequence_events: 0,
            first_decision: None,
            last_decision: None,
        }
    }

    /// Counts a row that closed at a moment.
    pub fn note_row(&mut self, close_time_micros: i64)
        requires
            old(self).rows < u64::MAX,
        ensures
            *final(self) == (StreamSummary {
                rows: (old(self).rows + 1) as u64,
                first_decision: if old(self).first_decision is None {
                    Some(close_time_micros)
                } else {
                    old(self).first_decision
                },
                last_decision: Some(close_time_micros),
                ..*old(self)
            }),
    {
        if self.first_decision.is_none() {
            self.first_decision = Some(close_time_micros);
        }
        self.last_decision = Some(close_time_micros);
        self.rows = self.rows + 1;
    }

    /// Counts a structure event.
    pub fn note_structure(&mut self)
        requires
            old(self).structure_events < u64::MAX,
        ensures
            *final(self) == (StreamSummary {
                structure_events: (old(self).structure_events + 1) as u64,
                ..*old(self)
            }),
    {
        self.structure_events = self.structure_events + 1;
    }

    /// Counts a sequence event.
    pub fn note_sequence(&mut self)
        requires
            old(self).sequence_events < u64::MAX,
        ensures
            *final(self) == (StreamSummary {
                sequence_events: (old(self).sequence_events + 1) as u64,
                ..*old(self)
            }),
    {
        self.sequence_events = self.sequence_events + 1;
    }
}

/// The first and last moment of a dataset, as its manifest prints them.
#[derive(Debug)]
pub struct Coverage {
    pub first_event_time: String,
    pub last_event_time: String,
}

/// Whether what was observed is what a manifest records.
pub open spec fn observed_all(
    observations: u64,
    observed: Option<Coverage>,
    row_count: u64,
    coverage: Coverage,
) -> bool {
    &&& observations == row_count
    &&& observed is Some
    &&& observed->0.first_event_time@ == coverage.first_event_time@
    &&& observed->0.last_event_time@ == coverage.last_event_time@
}

/// Everything that the input's manifest records must have been observed; `shown` is the observed
/// coverage as the report prints it.
pub fn check_observed(
    observations: u64,
    observed: &Option<Coverage>,
    shown: &str,
    row_count: u64,
    coverage: &Coverage,
) -> (result: Result<(), String>)
    ensures
        refusal(result) == if observed_all(observations, *observed, row_count, *coverage) {
            None
        } else {
            Some(
                "input_manifest: observed "@ + decimal(observations as nat) + " records from "@
                    + shown@ + ", but the manifest records "@ + decimal(row_count as nat)
                    + " rows from "@ + coverage.first_event_time@ + " to "@
                    + coverage.last_event_time@ + "; nothing was published"@,
            )
        },
{
    let whole: bool = match observed {
        Some(observed) => same_text(
            observed.first_event_time.as_str(),
            coverage.first_event_time.as_str(),
        ) && same_text(observed.last_event_time.as_str(), coverage.last_event_time.as_str()),
        None => false,
    };
    if observations == row_count && whole {
        return Ok(());
    }
    let mut message = "input_manifest: observed ".to_owned();
    append_decimal(&mut message, observations);
    message.append(" records from ");
    message.append(shown);
    message.append(", but the manifest records ");
    append_decimal(&mut message, row_count);
    message.append(" rows from ");
    message.append(coverage.first_event_time.as_str());
    message.append(" to ");
    message.append(coverage.last_event_time.as_str());
    message.append("; nothing was published");
    Err(message)
}

/// The largest of some counts, or nothing.
pub open spec fn largest(counts: Seq<usize>) -> int
    decreases counts.len(),
{
    if counts.len() == 0 {
        0
    } else {
        let rest = largest(counts.drop_last());
        if counts.last() > rest {
            counts.last() as int
        } else {
            rest
        }
    }
}

/// The largest of some counts, or nothing.
pub fn largest_of(counts: &Vec<usize>) -> (most: usize)
    ensures
        most == largest(counts@),
{
    let mut most: usize = 0;
    let mut i: usize = 0;
    assert(counts@.take(0) =~= Seq::empty());
    while i < counts.len()
        invariant
            i <= counts@.len(),
            most == largest(counts@.take(i as int)),
        decreases counts@.len() - i,
    {
        assert(counts@.take(i + 1).drop_last() =~= counts@.take(i as int));
        if counts[i] > most {
            most = counts[i];
        }
        i = i + 1;
    }
    assert(counts@.take(i as int) =~= counts@);
    most
}

/// The columns that one fit keeps: its input, the readiness flags of the input that has most,
/// and its scratch.
pub fn live_fit_columns(flags: &Vec<usize>) -> (columns: usize)
    requires
        largest(flags@) + 2 <= usize::MAX,
    ensures
        columns == largest(flags@) + 2,
{
    largest_of(flags) + 2
}

/// Every column of every stream, stream by stream.
pub open spec fn jobs_of(columns: Seq<usize>) -> Seq<(usize, usize)>
    decreases columns.len(),
{
    if columns.len() == 0 {
        Seq::empty()
    } else {
        jobs_of(columns.drop_last()) + Seq::new(
            columns.last() as nat,
            |column: int| ((columns.len() - 1) as usize, column as usize),
        )
    }
}

/// The fits of a plan, in the order of the plan: which stream, and which of its encodings.
/// `columns` is how many encodings each stream has.
pub fn fit_jobs(columns: &Vec<usize>) -> (jobs: Vec<(usize, usize)>)
    ensures
        jobs@ == jobs_of(columns@),
{
    let mut jobs: Vec<(usize, usize)> = Vec::new();
    let mut stream: usize = 0;
    while stream < columns.len()
        invariant
            stream <= columns@.len(),
            jobs@ == jobs_of(columns@.take(stream as int)),
        decreases columns@.len() - stream,
    {
        let ghost before = jobs@;
        let mut column: usize = 0;
        while column < columns[stream]
            invariant
                stream < columns@.len(),
                column <= columns@[stream as int],
                jobs@ == before + Seq::new(
                    column as nat,
                    |column: int| (stream, column as usize),
                ),
            decreases columns@[stream as int] - column,
        {
            jobs.push((stream, column));
            column = column + 1;
            assert(jobs@ =~= before + Seq::new(
                column as nat,
                |column: int| (stream, column as usize),
            ));
        }
        assert(columns@.take(stream + 1).drop_last() =~= columns@.take(stream as int));
        assert(jobs@ =~= jobs_of(columns@.take(stream + 1)));
        stream = stream + 1;
    }
    assert(columns@.take(stream as int) =~= columns@);
    jobs
}

/// Whether a value of a row is ready: it is there, it does not say that it is not, and every
/// flag of the row is set.
pub open spec fn ready_at(
    value: Option<FeatureValue>,
    unready: Seq<String>,
    flags: Seq<Vec<Option<FeatureValue>>>,
    row: int,
) -> bool {
    &&& match value {
        None => false,
        Some(FeatureValue::Text(text)) => position_of(unready, text@) is None,
        Some(_) => true,
    }
    &&& forall|i: int|
        0 <= i < flags.len() ==> (#[trigger] flags[i])@[row] == Some(FeatureValue::Bool(true))
}

fn is_ready_at(
    value: &Option<FeatureValue>,
    unready: &Vec<String>,
    flags: &Vec<Vec<Option<FeatureValue>>>,
    row: usize,
) -> (ready: bool)
    requires
        forall|i: int| 0 <= i < flags@.len() ==> row < (#[trigger] flags@[i])@.len(),
    ensures
        ready == ready_at(*value, unready@, flags@, row as int),
{
    let present: bool = match value {
        None => false,
        Some(FeatureValue::Text(text)) => position(unready, text.as_str()).is_none(),
        Some(_) => true,
    };
    if !present {
        return false;
    }
    let mut i: usize = 0;
    while i < flags.len()
        invariant
            i <= flags@.len(),
            forall|j: int| 0 <= j < flags@.len() ==> row < (#[trigger] flags@[j])@.len(),
            forall|j: int|
                0 <= j < i ==> (#[trigger] flags@[j])@[row as int] == Some(
                    FeatureValue::Bool(true),
                ),
        decreases flags@.len() - i,
    {
        let set: bool = match &flags[i][row] {
            Some(FeatureValue::Bool(flag)) => *flag,
            _ => false,
        };
        if !set {
            assert(flags@[i as int]@[row as int] != Some(FeatureValue::Bool(true)));
            return false;
        }
        i = i + 1;
    }
    true
}

/// Takes the values that are not ready out of a column, so that an automatic encoding is not
/// fitted on them.
pub fn mask_unready(
    column: &mut Vec<Option<FeatureValue>>,
    unready: &Vec<String>,
    flags: &Vec<Vec<Option<FeatureValue>>>,
)
    requires
        forall|i: int|
            0 <= i < flags@.len() ==> old(column)@.len() <= (#[trigger] flags@[i])@.len(),
    ensures
        final(column)@ == Seq::new(
            old(column)@.len(),
            |row: int|
                if ready_at(old(column)@[row], unready@, flags@, row) {
                    old(column)@[row]
                } else {
                    None
                },
        ),
{
    let ghost before = column@;
    let mut row: usize = 0;
    while row < column.len()
        invariant
            row <= column@.len(),
            column@.len() == before.len(),
            forall|i: int|
                0 <= i < flags@.len() ==> before.len() <= (#[trigger] flags@[i])@.len(),
            forall|j: int| row <= j < column@.len() ==> column@[j] == #[trigger] before[j],
            forall|j: int|
                0 <= j < row ==> #[trigger] column@[j] == if ready_at(
                    before[j],
                    unready@,
                    flags@,
                    j,
                ) {
                    before[j]
                } else {
                    None
                },
        decreases column@.len() - row,
    {
        assert(column@[row as int] == before[row as int]);
        if !is_ready_at(&column[row], unready, flags, row) {
            column.set(row, None);
        }
        row = row + 1;
    }
}

/// The codes of one row, column by column.
pub open spec fn codes_at(codes: Seq<Vec<i16>>, row: int) -> Seq<i16> {
    codes.map_values(|column: Vec<i16>| column@[row])
}

fn code_row(codes: &Vec<Vec<i16>>, row: usize) -> (values: Vec<i16>)
    requires
        forall|i: int| 0 <= i < codes@.len() ==> row < (#[trigger] codes@[i])@.len(),
    ensures
        values@ == codes_at(codes@, row as int),
{
    let mut values: Vec<i16> = Vec::new();
    let mut i: usize = 0;
    while i < codes.len()
        invariant
            i <= codes@.len(),
            forall|j: int| 0 <= j < codes@.len() ==> row < (#[trigger] codes@[j])@.len(),
            values@ == codes_at(codes@, row as int).take(i as int),
        decreases codes@.len() - i,
    {
        values.push(codes[i][row]);
        i = i + 1;
        assert(values@ =~= codes_at(codes@, row as int).take(i as int));
    }
    assert(values@ =~= codes_at(codes@, row as int));
    values
}

/// The rows of encoded columns: as many as the first column has.
pub fn code_rows(codes: &Vec<Vec<i16>>) -> (rows: Vec<Vec<i16>>)
    requires
        forall|i: int|
            0 <= i < codes@.len() ==> codes@[0]@.len() <= (#[trigger] codes@[i])@.len(),
    ensures
        rows@.len() == (if codes@.len() == 0 {
            0
        } else {
            codes@[0]@.len()
        }),
        forall|row: int|
            0 <= row < rows@.len() ==> (#[trigger] rows@[row])@ == codes_at(codes@, row),
{
    let mut rows: Vec<Vec<i16>> = Vec::new();
    let count: usize = if codes.len() == 0 {
        0
    } else {
        codes[0].len()
    };
    let mut row: usize = 0;
    while row < count
        invariant
            row <= count,
            rows@.len() == row,
            codes@.len() > 0 ==> count == codes@[0]@.len(),
            codes@.len() == 0 ==> count == 0,
            forall|i: int|
                0 <= i < codes@.len() ==> codes@[0]@.len() <= (#[trigger] codes@[i])@.len(),
            forall|j: int|
                0 <= j < rows@.len() ==> (#[trigger] rows@[j])@ == codes_at(codes@, j),
        decreases count - row,
    {
        rows.push(code_row(codes, row));
        row = row + 1;
    }
    rows
}

/// The files that one stream was written to, and the objects that they are published as.
#[derive(Debug)]
pub struct StreamFiles {
    pub object_paths: Vec<String>,
    /// Its rows, structure events and sequence events.
    pub tables: Vec<String>,
    pub encoded: Option<String>,
}

impl StreamFiles {
    /// The files of the stream, in the order of its objects.
    pub open spec fn files(&self) -> Seq<Seq<char>> {
        views(self.tables@) + (match self.encoded {
            Some(path) => seq![path@],
            None => Seq::empty(),
        })
    }
}

/// The object paths of a generation: the plan's, then every stream's.
pub open spec fn all_paths(plan: Seq<char>, streams: Seq<StreamFiles>) -> Seq<Seq<char>>
    decreases streams.len(),
{
    if streams.len() == 0 {
        seq![plan]
    } else {
        all_paths(plan, streams.drop_last()) + views(streams.last().object_paths@)
    }
}

/// The files of a generation: the plan's, then every stream's.
pub open spec fn all_files(plan: Seq<char>, streams: Seq<StreamFiles>) -> Seq<Seq<char>>
    decreases streams.len(),
{
    if streams.len() == 0 {
        seq![plan]
    } else {
        all_files(plan, streams.drop_last()) + streams.last().files()
    }
}

/// The object paths and the files of a generation, in the order in which they are published.
pub fn publication(plan_path: &str, plan_file: &str, streams: &Vec<StreamFiles>) -> (lists: (
    Vec<String>,
    Vec<String>,
))
    ensures
        views(lists.0@) == all_paths(plan_path@, streams@),
        views(lists.1@) == all_files(plan_file@, streams@),
{
    let mut paths: Vec<String> = Vec::new();
    let mut files: Vec<String> = Vec::new();
    paths.push(plan_path.to_owned());
    files.push(plan_file.to_owned());
    let mut i: usize = 0;
    assert(views(paths@) =~= all_paths(plan_path@, streams@.take(0)));
    assert(views(files@) =~= all_files(plan_file@, streams@.take(0)));
    while i < streams.len()
        invariant
            i <= streams@.len(),
            views(paths@) == all_paths(plan_path@, streams@.take(i as int)),
            views(files@) == all_files(plan_file@, streams@.take(i as int)),
        decreases streams@.len() - i,
    {
        assert(streams@.take(i + 1).drop_last() =~= streams@.take(i as int));
        append_texts(&mut paths, &streams[i].object_paths);
        append_texts(&mut files, &streams[i].tables);
        let ghost had = files@;
        match &streams[i].encoded {
            Some(path) => {
                files.push(path.clone());
                assert(views(files@) =~= views(had).push(path@));
            },
            None => {},
        }
        assert(views(files@) =~= all_files(plan_file@, streams@.take(i + 1)));
        i = i + 1;
    }
    assert(streams@.take(i as int) =~= streams@);
    (paths, files)
}

/// Where every stream has as many files as objects, every object of a generation has one file.
pub proof fn every_object_has_a_file(
    plan_path: Seq<char>,
    plan_file: Seq<char>,
    streams: Seq<StreamFiles>,
)
    requires
        forall|i: int|
            0 <= i < streams.len() ==> (#[trigger] streams[i]).object_paths@.len()
                == streams[i].files().len(),
    ensures
        all_paths(plan_path, streams).len() == all_files(plan_file, streams).len(),
    decreases streams.len(),
{
    if streams.len() > 0 {
        let rest = streams.drop_last();
        assert forall|i: int| 0 <= i < rest.len() implies (#[trigger] rest[i]).object_paths@.len()
            == rest[i].files().len() by {
            assert(rest[i] == streams[i]);
        }
        every_object_has_a_file(plan_path, plan_file, rest);
        assert(streams.last() == streams[streams.len() - 1]);
    }
}

/// What storing an object gave back.
#[derive(Debug, Clone, Copy)]
pub struct Put {
    /// Whether the object was already there.
    pub reused: bool,
    pub crc32c: Option<u32>,
    pub generation: Option<i64>,
}

/// How many of some objects were already there.
pub open spec fn reused_count(puts: Seq<Put>) -> nat
    decreases puts.len(),
{
    if puts.len() == 0 {
        0
    } else {
        reused_count(puts.drop_last()) + (if puts.last().reused {
            1nat
        } else {
            0nat
        })
    }
}

/// Records with what storing each object gave back.
pub open spec fn stored(objects: Seq<ObjectRecord>, puts: Seq<Put>) -> Seq<ObjectRecord> {
    Seq::new(
        objects.len(),
        |i: int|
            ObjectRecord {
                crc32c: puts[i].crc32c,
                generation: puts[i].generation,
                ..objects[i]
            },
    )
}

/// Notes what storing each object gave back, and counts those that were already there.
pub fn note_puts(objects: &mut Vec<ObjectRecord>, puts: &Vec<Put>) -> (reused: usize)
    requires
        old(objects)@.len() == puts@.len(),
    ensures
        final(objects)@ == stored(old(objects)@, puts@),
        reused == reused_count(puts@),
{
    let ghost before = objects@;
    let mut reused: usize = 0;
    let mut i: usize = 0;
    while i < objects.len()
        invariant
            i <= objects@.len(),
            objects@.len() == before.len(),
            before.len() == puts@.len(),
            reused <= i,
            reused == reused_count(puts@.take(i as int)),
            forall|j: int| i <= j < objects@.len() ==> objects@[j] == #[trigger] before[j],
            forall|j: int|
                0 <= j < i ==> #[trigger] objects@[j] == stored(before, puts@)[j],
        decreases objects@.len() - i,
    {
        assert(puts@.take(i + 1).drop_last() =~= puts@.take(i as int));
        assert(objects@[i as int] == before[i as int]);
        if puts[i].reused {
            reused = reused + 1;
        }
        let noted = ObjectRecord {
            role: objects[i].role,
            path: objects[i].path.clone(),
            key: objects[i].key.clone(),
            bytes: objects[i].bytes,
            sha256: objects[i].sha256.clone(),
            crc32c: puts[i].crc32c,
            generation: puts[i].generation,
        };
        objects.set(i, noted);
        i = i + 1;
    }
    assert(puts@.take(i as int) =~= puts@);
    assert(objects@ =~= stored(before, puts@));
    reused
}

/// What made a feature generation.
#[derive(Debug)]
pub struct BuildFacts {
    pub frozen_from: Option<String>,
    pub config_hash: String,
    pub code_revision: String,
    /// How many observations the build consumed.
    pub observations: u64,
}

/// Whether records are those of normalized objects, before anything was stored.
pub open spec fn are_normalized(
    objects: Seq<ObjectRecord>,
    paths: Seq<String>,
    identities: Seq<ObjectIdentity>,
) -> bool {
    &&& objects.len() == paths.len()
    &&& forall|i: int|
        0 <= i < objects.len() ==> is_record(
            #[trigger] objects[i],
            ObjectRole::Normalized,
            paths[i]@,
            identities[i],
        )
}

/// The records of the objects of a build, one for each path.
pub fn normalized_records(paths: &Vec<String>, identities: &Vec<ObjectIdentity>) -> (objects: Vec<
    ObjectRecord,
>)
    requires
        paths@.len() == identities@.len(),
    ensures
        are_normalized(objects@, paths@, identities@),
{
    let mut objects: Vec<ObjectRecord> = Vec::new();
    let mut i: usize = 0;
    while i < paths.len()
        invariant
            i <= paths@.len(),
            paths@.len() == identities@.len(),
            objects@.len() == i,
            forall|j: int|
                0 <= j < i ==> is_record(
                    #[trigger] objects@[j],
                    ObjectRole::Normalized,
                    paths@[j]@,
                    identities@[j],
                ),
        decreases paths@.len() - i,
    {
        let key = object_key(identities[i].sha256.as_str());
        objects.push(record(ObjectRole::Normalized, paths[i].as_str(), key, &identities[i]));
        i = i + 1;
    }
    objects
}

/// The manifest of a build: the instrument is the plan's, the role and the input are those of the
/// bound input, the profile is the bound one's, and the objects are as they were stored.
pub fn feature_manifest(
    generation: String,
    key: String,
    plan: &PlanFacts,
    input: &InputManifest,
    profile: &ProfileManifest,
    facts: BuildFacts,
    streams: Vec<StreamSummary>,
    objects: Vec<ObjectRecord>,
) -> (manifest: FeatureManifest)
    ensures
        manifest == (FeatureManifest {
            generation,
            key,
            broker: plan.broker,
            provider_symbol: plan.provider_symbol,
            instrument: plan.instrument,
            role: input.role,
            role_name: input.role_name,
            input_generation: input.generation,
            plan_identity: plan.identity,
            frozen_from: facts.frozen_from,
            profile_generation: profile.generation,
            config_hash: facts.config_hash,
            code_revision: facts.code_revision,
            observations: facts.observations,
            streams,
            objects,
        }),
{
    FeatureManifest {
        generation,
        key,
        broker: plan.broker.clone(),
        provider_symbol: plan.provider_symbol.clone(),
        instrument: plan.instrument.clone(),
        role: input.role,
        role_name: input.role_name.clone(),
        input_generation: input.generation.clone(),
        plan_identity: plan.identity.clone(),
        frozen_from: facts.frozen_from,
        profile_generation: profile.generation.clone(),
        config_hash: facts.config_hash,
        code_revision: facts.code_revision,
        observations: facts.observations,
        streams,
        objects,
    }
}

/// Whether a committed manifest describes a fresh build.
pub open spec fn same_generation(
    committed: FeatureManifest,
    fresh: FeatureManifest,
    identities: Seq<ObjectIdentity>,
) -> bool {
    &&& committed.generation@ == fresh.generation@
    &&& committed.role == fresh.role
    &&& committed.observations == fresh.observations
    &&& committed.streams@ == fresh.streams@
    &&& objects_agree(committed.objects@, fresh.objects@, identities)
}

fn same_summaries(left: &Vec<StreamSummary>, right: &Vec<StreamSummary>) -> (same: bool)
    ensures
        same == (left@ == right@),
{
    if left.len() != right.len() {
        return false;
    }
    let mut i: usize = 0;
    while i < left.len()
        invariant
            i <= left@.len(),
            left@.len() == right@.len(),
            forall|j: int| 0 <= j < i ==> left@[j] == #[trigger] right@[j],
        decreases left@.len() - i,
    {
        let a: StreamSummary = left[i];
        let b: StreamSummary = right[i];
        let first: bool = match (a.first_decision, b.first_decision) {
            (Some(a), Some(b)) => a == b,
            (None, None) => true,
            _ => false,
        };
        let last: bool = match (a.last_decision, b.last_decision) {
            (Some(a), Some(b)) => a == b,
            (None, None) => true,
            _ => false,
        };
        if a.stream != b.stream || a.rows != b.rows || a.structure_events != b.structure_events
            || a.sequence_events != b.sequence_events || !first || !last {
            assert(left@[i as int] != right@[i as int]);
            return false;
        }
        i = i + 1;
    }
    assert(left@ =~= right@);
    true
}

/// A manifest that is already committed at `uri` must describe this build.
pub fn check_committed(
    committed: &FeatureManifest,
    fresh: &FeatureManifest,
    identities: &Vec<ObjectIdentity>,
    uri: &str,
) -> (result: Result<(), String>)
    ensures
        refusal(result) == if same_generation(*committed, *fresh, identities@) {
            None
        } else {
            Some(
                uri@
                    + " records a different generation, object set, observation count, or streams than this build produced"@,
            )
        },
{
    if same_text(committed.generation.as_str(), fresh.generation.as_str()) && committed.role
        == fresh.role && committed.observations == fresh.observations && same_summaries(
        &committed.streams,
        &fresh.streams,
    ) && same_objects(&committed.objects, &fresh.objects, identities) {
        Ok(())
    } else {
        Err(
            join(
                uri,
                " records a different generation, object set, observation count, or streams than this build produced",
            ),
        )
    }
}

/// The manifest bytes that are about to become ready: those that are committed already, where
/// they describe this build, and otherwise the fresh ones.
pub fn ready_bytes(
    committed: Option<(FeatureManifest, Vec<u8>)>,
    fresh: &FeatureManifest,
    bytes: Vec<u8>,
    identities: &Vec<ObjectIdentity>,
    uri: &str,
) -> (ready: Result<Vec<u8>, String>)
    ensures
        match committed {
            None => ready == Ok::<Vec<u8>, String>(bytes),
            Some((manifest, kept)) => if same_generation(manifest, *fresh, identities@) {
                ready == Ok::<Vec<u8>, String>(kept)
            } else {
                refusal(ready) == Some(
                    uri@
                        + " records a different generation, object set, observation count, or streams than this build produced"@,
                )
            },
        },
{
    match committed {
        None => Ok(bytes),
        Some((manifest, kept)) => match check_committed(&manifest, fresh, identities, uri) {
            Ok(_) => Ok(kept),
            Err(message) => Err(message),
        },
    }
}

/// A manifest that is to be written under its generation's key, to the destination and then
/// locally, and what its verification said.
#[derive(Debug)]
pub struct Commit {
    pub bytes: Vec<u8>,
    pub verified: String,
}

/// Marks a generation ready: `verified` is what the verification of its published objects under
/// these manifest bytes came to. A generation that its own verification rejects is never marked.
pub fn commit(bytes: Vec<u8>, verified: Result<String, String>) -> (committed: Result<
    Commit,
    String,
>)
    ensures
        match verified {
            Ok(said) => committed == Ok::<Commit, String>(Commit { bytes, verified: said }),
            Err(reason) => refusal(committed) == Some(reason@),
        },
{
    match verified {
        Ok(said) => Ok(Commit { bytes, verified: said }),
        Err(reason) => Err(reason),
    }
}

/// The report of a build, with its verification on a second line.
pub open spec fn report_of(
    manifest: FeatureManifest,
    reused: nat,
    timings: Option<Seq<char>>,
    verified: Seq<char>,
) -> Seq<char> {
    "features "@ + manifest.instrument@ + " "@ + manifest.role_name@ + " generation "@
        + manifest.generation@ + " plan "@ + manifest.plan_identity@ + " input "@
        + manifest.input_generation@ + " observations "@ + decimal(manifest.observations as nat)
        + " rows "@ + decimal(rows_of(manifest.streams@) as nat) + " events "@ + decimal(
        events_of(manifest.streams@) as nat,
    ) + " objects "@ + decimal(manifest.objects@.len()) + " reused "@ + decimal(reused) + (
    match timings {
        Some(timings) => " ["@ + timings + "]"@,
        None => " (already published)"@,
    }) + "\n"@ + verified
}

/// The report of a build; `timings` is how long each part took, where the manifest was new.
pub fn report(manifest: &FeatureManifest, reused: usize, timings: Option<&str>, verified: &str) -> (
    report: String)
    requires
        rows_of(manifest.streams@) <= u64::MAX,
        events_of(manifest.streams@) <= u64::MAX,
    ensures
        report@ == report_of(
            *manifest,
            reused as nat,
            match timings {
                Some(timings) => Some(timings@),
                None => None,
            },
            verified@,
        ),
{
    let sums = totals(&manifest.streams);
    let mut report = join4(
        "features ",
        manifest.instrument.as_str(),
        " ",
        manifest.role_name.as_str(),
    );
    report.append(" generation ");
    report.append(manifest.generation.as_str());
    report.append(" plan ");
    report.append(manifest.plan_identity.as_str());
    report.append(" input ");
    report.append(manifest.input_generation.as_str());
    report.append(" observations ");
    append_decimal(&mut report, manifest.observations);
    report.append(" rows ");
    append_decimal(&mut report, sums.0);
    report.append(" events ");
    append_decimal(&mut report, sums.1);
    report.append(" objects ");
    append_decimal(&mut report, manifest.objects.len() as u64);
    report.append(" reused ");
    append_decimal(&mut report, reused as u64);
    let closing = match timings {
        Some(timings) => join3(" [", timings, "]"),
        None => " (already published)".to_owned(),
    };
    report.append(closing.as_str());
    report.append("\n");
    report.append(verified);
    report
}

/// The paths of objects.
pub open spec fn paths_of(objects: Seq<ObjectRecord>) -> Seq<Seq<char>> {
    objects.map_values(|object: ObjectRecord| object.path@)
}

proof fn multiset_of_removed(texts: Seq<Seq<char>>, at: int)
    requires
        0 <= at < texts.len(),
    ensures
        texts.to_multiset() == texts.remove(at).to_multiset().insert(texts[at]),
{
    broadcast use vstd::seq_lib::group_to_multiset_ensures;

    assert(texts.to_multiset().count(texts[at]) > 0) by {
        assert(texts.contains(texts[at]));
    }
    assert(texts.to_multiset() =~= texts.to_multiset().remove(texts[at]).insert(texts[at]));
}

/// The objects of a manifest must be exactly the objects of its plan, in any order.
pub fn same_object_set(objects: &Vec<ObjectRecord>, expected: &Vec<String>) -> (same: bool)
    ensures
        same == (paths_of(objects@).to_multiset() == views(expected@).to_multiset()),
{
    broadcast use vstd::seq_lib::group_to_multiset_ensures;

    let mut remaining: Vec<String> = copy_texts(expected);
    let ghost all = paths_of(objects@);
    if objects.len() != expected.len() {
        assert(all.to_multiset().len() == objects@.len());
        assert(views(expected@).to_multiset().len() == expected@.len());
        return false;
    }
    let mut i: usize = 0;
    assert(views(expected@).to_multiset() =~= all.take(0).to_multiset().add(
        views(remaining@).to_multiset(),
    )) by {
        assert(all.take(0).to_multiset().len() == 0);
        assert(all.take(0).to_multiset() =~= Multiset::empty());
    }
    while i < objects.len()
        invariant
            i <= objects@.len(),
            all == paths_of(objects@),
            objects@.len() == expected@.len(),
            remaining@.len() == expected@.len() - i,
            views(expected@).to_multiset() == all.take(i as int).to_multiset().add(
                views(remaining@).to_multiset(),
            ),
        decreases objects@.len() - i,
    {
        let ghost path = objects@[i as int].path@;
        proof {
            assert(all.take(i + 1) =~= all.take(i as int).push(path));
        }
        match position(&remaining, objects[i].path.as_str()) {
            Some(at) => {
                let ghost before = remaining@;
                remaining.remove(at);
                proof {
                    broadcast use vstd::seq_lib::group_to_multiset_ensures;

                    position_meets(before, path);
                    multiset_of_removed(views(before), at as int);
                    assert(views(before).remove(at as int) =~= views(remaining@));
                    assert(views(before)[at as int] == path);
                    assert(all.take(i + 1).to_multiset() =~= all.take(i as int).to_multiset().insert(
                        path,
                    ));
                    assert(views(expected@).to_multiset() =~= all.take(i + 1).to_multiset().add(
                        views(remaining@).to_multiset(),
                    ));
                }
            },
            None => {
                proof {
                    broadcast use vstd::seq_lib::group_to_multiset_ensures;

                    position_meets(remaining@, path);
                    assert(views(remaining@).to_multiset().count(path) == 0);
                    let rest = all.skip(i as int);
                    assert(all =~= all.take(i as int) + rest);
                    vstd::seq_lib::lemma_multiset_commutative(all.take(i as int), rest);
                    assert(rest[0] == path);
                    assert(rest.contains(path));
                    assert(rest.to_multiset().count(path) > 0);
                    assert(all.to_multiset().count(path) == all.take(
                        i as int,
                    ).to_multiset().count(path) + rest.to_multiset().count(path));
                    assert(views(expected@).to_multiset().count(path) == all.take(
                        i as int,
                    ).to_multiset().count(path));
                }
                return false;
            },
        }
        i = i + 1;
    }
    proof {
        assert(all.take(i as int) =~= all);
        assert(views(remaining@).to_multiset().len() == 0);
        assert(views(remaining@).to_multiset() =~= Multiset::empty());
        assert(views(expected@).to_multiset() =~= all.to_multiset());
    }
    true
}

/// What a table of a stream must be.
#[derive(Debug)]
pub struct ExpectedTable {
    pub message: &'static str,
    pub rows: u64,
    pub columns: Vec<TableColumn>,
    pub metadata: Vec<(String, String)>,
}

/// What a table that was read is.
#[derive(Debug)]
pub struct TableFacts {
    pub columns: Vec<TableColumn>,
    pub metadata: Vec<(String, String)>,
    pub rows: u64,
}

fn encoded_columns(outputs: &Vec<String>) -> (columns: Vec<TableColumn>)
    ensures
        column_views(columns@) == views(outputs@).map_values(
            |name: Seq<char>| (name, ColumnType::Int16),
        ),
{
    let ghost wanted = views(outputs@).map_values(|name: Seq<char>| (name, ColumnType::Int16));
    let mut columns: Vec<TableColumn> = Vec::new();
    let mut i: usize = 0;
    assert(column_views(columns@) =~= wanted.take(0));
    while i < outputs.len()
        invariant
            i <= outputs@.len(),
            wanted == views(outputs@).map_values(|name: Seq<char>| (name, ColumnType::Int16)),
            column_views(columns@) == wanted.take(i as int),
        decreases outputs@.len() - i,
    {
        let ghost had = columns@;
        columns.push(TableColumn::new(outputs[i].as_str(), ColumnType::Int16));
        i = i + 1;
        assert(column_views(columns@) =~= column_views(had).push(wanted[i - 1]));
        assert(column_views(columns@) =~= wanted.take(i as int));
    }
    assert(wanted.take(i as int) =~= wanted);
    columns
}

/// The tables of a stream, in the order of its objects: rows, structure events, sequence events,
/// and encoded rows. `rows` are the columns that the plan puts into rows, `encoded` the outputs
/// of its encodings.
pub fn expected_tables(
    subject: &TableSubject,
    summary: &StreamSummary,
    rows: Vec<TableColumn>,
    encoded: &Vec<String>,
    raw_identity: &str,
    plan_identity: &str,
) -> (tables: Vec<ExpectedTable>)
    ensures
        tables@.len() == 4,
        tables@[0].message@ == ROWS_MESSAGE@,
        tables@[0].rows == summary.rows,
        tables@[0].columns@ == rows@,
        tables@[1].message@ == STRUCTURE_MESSAGE@,
        tables@[1].rows == summary.structure_events,
        column_views(tables@[1].columns@) == structure_layout(),
        tables@[2].message@ == SEQUENCE_MESSAGE@,
        tables@[2].rows == summary.sequence_events,
        column_views(tables@[2].columns@) == sequence_layout(),
        forall|i: int|
            0 <= i < 3 ==> metadata_views((#[trigger] tables@[i]).metadata@) == metadata_of(
                *subject,
                "raw_identity"@,
                raw_identity@,
            ),
        tables@[3].message@ == ENCODED_MESSAGE@,
        tables@[3].rows == summary.rows,
        column_views(tables@[3].columns@) == views(encoded@).map_values(
            |name: Seq<char>| (name, ColumnType::Int16),
        ),
        metadata_views(tables@[3].metadata@) == metadata_of(
            *subject,
            "plan_identity"@,
            plan_identity@,
        ),
{
    let mut tables: Vec<ExpectedTable> = Vec::new();
    tables.push(
        ExpectedTable {
            message: ROWS_MESSAGE,
            rows: summary.rows,
            columns: rows,
            metadata: table_metadata(subject, "raw_identity", raw_identity),
        },
    );
    tables.push(
        ExpectedTable {
            message: STRUCTURE_MESSAGE,
            rows: summary.structure_events,
            columns: structure_columns(),
            metadata: table_metadata(subject, "raw_identity", raw_identity),
        },
    );
    tables.push(
        ExpectedTable {
            message: SEQUENCE_MESSAGE,
            rows: summary.sequence_events,
            columns: sequence_columns(),
            metadata: table_metadata(subject, "raw_identity", raw_identity),
        },
    );
    tables.push(
        ExpectedTable {
            message: ENCODED_MESSAGE,
            rows: summary.rows,
            columns: encoded_columns(encoded),
            metadata: table_metadata(subject, "plan_identity", plan_identity),
        },
    );
    tables
}

fn same_columns(left: &Vec<TableColumn>, right: &Vec<TableColumn>) -> (same: bool)
    ensures
        same == (column_views(left@) == column_views(right@)),
{
    let ghost a = column_views(left@);
    let ghost b = column_views(right@);
    if left.len() != right.len() {
        assert(a.len() != b.len());
        return false;
    }
    let mut i: usize = 0;
    while i < left.len()
        invariant
            i <= left@.len(),
            left@.len() == right@.len(),
            a == column_views(left@),
            b == column_views(right@),
            forall|j: int| 0 <= j < i ==> a[j] == #[trigger] b[j],
        decreases left@.len() - i,
    {
        if !same_text(left[i].name.as_str(), right[i].name.as_str()) || left[i].ty != right[i].ty {
            assert(a[i as int] != b[i as int]);
            return false;
        }
        i = i + 1;
    }
    assert(a =~= b);
    true
}

fn same_metadata(left: &Vec<(String, String)>, right: &Vec<(String, String)>) -> (same: bool)
    ensures
        same == (metadata_views(left@) == metadata_views(right@)),
{
    let ghost a = metadata_views(left@);
    let ghost b = metadata_views(right@);
    if left.len() != right.len() {
        assert(a.len() != b.len());
        return false;
    }
    let mut i: usize = 0;
    while i < left.len()
        invariant
            i <= left@.len(),
            left@.len() == right@.len(),
            a == metadata_views(left@),
            b == metadata_views(right@),
            forall|j: int| 0 <= j < i ==> a[j] == #[trigger] b[j],
        decreases left@.len() - i,
    {
        if !same_text(left[i].0.as_str(), right[i].0.as_str()) || !same_text(
            left[i].1.as_str(),
            right[i].1.as_str(),
        ) {
            assert(a[i as int] != b[i as int]);
            return false;
        }
        i = i + 1;
    }
    assert(a =~= b);
    true
}

/// A table at a location must be what the plan and the manifest say.
pub fn check_table(table: &TableFacts, expected: &ExpectedTable, location: &str) -> (result: Result<
    (),
    String,
>)
    ensures
        refusal(result) == if column_views(table.columns@) == column_views(expected.columns@)
            && metadata_views(table.metadata@) == metadata_views(expected.metadata@)
            && table.rows == expected.rows {
            None
        } else {
            Some(
                location@
                    + ": columns, metadata, or row count disagree with the plan and manifest"@,
            )
        },
{
    if same_columns(&table.columns, &expected.columns) && same_metadata(
        &table.metadata,
        &expected.metadata,
    ) && table.rows == expected.rows {
        Ok(())
    } else {
        Err(
            join(
                location,
                ": columns, metadata, or row count disagree with the plan and manifest",
            ),
        )
    }
}

/// The moments that a column of cells holds.
pub open spec fn moments(cells: Seq<Option<Cell>>) -> Seq<i64>
    decreases cells.len(),
{
    if cells.len() == 0 {
        Seq::empty()
    } else {
        match cells.last() {
            Some(Cell::Time(micros)) => moments(cells.drop_last()).push(micros),
            _ => moments(cells.drop_last()),
        }
    }
}

/// The first and the last moment that a column of cells holds.
pub fn decision_bounds(cells: &Vec<Option<Cell>>) -> (bounds: (Option<i64>, Option<i64>))
    ensures
        bounds.0 == (if moments(cells@).len() == 0 {
            None
        } else {
            Some(moments(cells@)[0])
        }),
        bounds.1 == (if moments(cells@).len() == 0 {
            None
        } else {
            Some(moments(cells@).last())
        }),
{
    let mut first: Option<i64> = None;
    let mut last: Option<i64> = None;
    let mut i: usize = 0;
    assert(cells@.take(0) =~= Seq::empty());
    while i < cells.len()
        invariant
            i <= cells@.len(),
            first == (if moments(cells@.take(i as int)).len() == 0 {
                None
            } else {
                Some(moments(cells@.take(i as int))[0])
            }),
            last == (if moments(cells@.take(i as int)).len() == 0 {
                None
            } else {
                Some(moments(cells@.take(i as int)).last())
            }),
        decreases cells@.len() - i,
    {
        assert(cells@.take(i + 1).drop_last() =~= cells@.take(i as int));
        if let Some(Cell::Time(micros)) = &cells[i] {
            if first.is_none() {
                first = Some(*micros);
            }
            last = Some(*micros);
        }
        i = i + 1;
    }
    assert(cells@.take(i as int) =~= cells@);
    (first, last)
}

/// The bounds of the decisions in a stream's rows must be those of its summary.
pub fn check_decisions(
    bounds: (Option<i64>, Option<i64>),
    summary: &StreamSummary,
    location: &str,
) -> (result: Result<(), String>)
    ensures
        refusal(result) == if bounds.0 == summary.first_decision && bounds.1
            == summary.last_decision {
            None
        } else {
            Some(location@ + ": decision-time bounds disagree with the manifest"@)
        },
{
    let first: bool = match (bounds.0, summary.first_decision) {
        (Some(a), Some(b)) => a == b,
        (None, None) => true,
        _ => false,
    };
    let last: bool = match (bounds.1, summary.last_decision) {
        (Some(a), Some(b)) => a == b,
        (None, None) => true,
        _ => false,
    };
    if first && last {
        Ok(())
    } else {
        Err(join(location, ": decision-time bounds disagree with the manifest"))
    }
}

/// What is reported of a generation that verified.
pub open spec fn verified_line(manifest: FeatureManifest, bytes: u64) -> Seq<char> {
    "verified "@ + manifest.instrument@ + " "@ + manifest.role_name@ + " generation "@
        + manifest.generation@ + " rows "@ + decimal(rows_of(manifest.streams@) as nat)
        + " events "@ + decimal(events_of(manifest.streams@) as nat) + " objects "@ + decimal(
        manifest.objects@.len(),
    ) + " bytes "@ + decimal(bytes as nat)
}

/// What is reported of a generation that verified, `bytes` of whose objects were read.
pub fn verified_report(manifest: &FeatureManifest, bytes: u64) -> (line: String)
    requires
        rows_of(manifest.streams@) <= u64::MAX,
        events_of(manifest.streams@) <= u64::MAX,
    ensures
        line@ == verified_line(*manifest, bytes),
{
    let sums = totals(&manifest.streams);
    let mut line = join4(
        "verified ",
        manifest.instrument.as_str(),
        " ",
        manifest.role_name.as_str(),
    );
    line.append(" generation ");
    line.append(manifest.generation.as_str());
    line.append(" rows ");
    append_decimal(&mut line, sums.0);
    line.append(" events ");
    append_decimal(&mut line, sums.1);
    line.append(" objects ");
    append_decimal(&mut line, manifest.objects.len() as u64);
    line.append(" bytes ");
    append_decimal(&mut line, bytes);
    line
}

} // verus!
