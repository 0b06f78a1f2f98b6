//! What a run checks and restores before it trades: its account, its warm-up history, and the
//! journal of the runs before it.

use crate::live::deployment::Mode;
use crate::live::finance::FinancialEvent;
use crate::live::journal::{archive_key, is_segment, segment_key, valid_segment, Record, RecordKind, UPLOADED};
use crate::live::receipt::Segment;
use crate::table::Table;
use crate::text::{append_decimal, decimal, finishes_with, refusal, same_text, strip_suffix, text_of};
use vstd::prelude::*;
use vstd::string::*;

verus! {

/// A broker account in its currency.
#[derive(Debug, Clone, Copy)]
pub struct AccountBinding<'a> {
    pub broker: &'a str,
    pub account: &'a str,
    pub currency: &'a str,
}

/// Checks that the connected account is the one that the deployment assesses.
pub fn check_account(connected: AccountBinding<'_>, assessed: AccountBinding<'_>) -> (checked:
    Result<(), String>)
    ensures
        refusal(checked) == (if connected.broker@ == assessed.broker@ && connected.account@
            == assessed.account@ && connected.currency@ == assessed.currency@ {
            None
        } else {
            Some("live: broker account binding mismatch"@)
        }),
{
    if !same_text(connected.broker, assessed.broker) || !same_text(
        connected.account,
        assessed.account,
    ) || !same_text(connected.currency, assessed.currency) {
        return Err("live: broker account binding mismatch".to_owned());
    }
    Ok(())
}

/// What a warm-up history is, its coverage in canonical text.
#[derive(Debug)]
pub struct Warmup {
    pub instrument: String,
    pub price_scale: u8,
    pub last_event_micros: i64,
    pub row_count: u64,
    pub coverage: String,
}

/// Checks a warm-up history before it is replayed: it belongs to the bound instrument and
/// precedes the observation window.
pub fn check_warmup(warmup: &Warmup, instrument: &str, price_scale: u8, observation_start: i64) -> (
checked: Result<(), String>)
    ensures
        refusal(checked) == (if warmup.instrument@ != instrument@ || warmup.price_scale
            != price_scale {
            Some("live: warmup instrument or scale mismatch"@)
        } else if warmup.last_event_micros >= observation_start {
            Some("live: warmup must precede the observation window"@)
        } else {
            None
        }),
{
    if !same_text(warmup.instrument.as_str(), instrument) || warmup.price_scale != price_scale {
        return Err("live: warmup instrument or scale mismatch".to_owned());
    }
    if warmup.last_event_micros >= observation_start {
        return Err("live: warmup must precede the observation window".to_owned());
    }
    Ok(())
}

/// Checks that a warm-up history was replayed whole.
pub fn check_replayed(warmup: &Warmup, observations: u64, coverage: &Option<String>) -> (checked:
    Result<(), String>)
    ensures
        refusal(checked) == (if observations == warmup.row_count && text_of(*coverage) == Some(
            warmup.coverage@,
        ) {
            None
        } else {
            Some("live: warmup coverage or row count mismatch"@)
        }),
{
    let covered: bool = match coverage {
        Some(coverage) => same_text(coverage.as_str(), warmup.coverage.as_str()),
        None => false,
    };
    if observations != warmup.row_count || !covered {
        return Err("live: warmup coverage or row count mismatch".to_owned());
    }
    Ok(())
}

/// The events of the ledger in a journal.
pub open spec fn ledger_of(records: Seq<Record>) -> Seq<FinancialEvent>
    decreases records.len(),
{
    if records.len() == 0 {
        Seq::empty()
    } else {
        let before = ledger_of(records.drop_last());
        match records.last().kind {
            RecordKind::Ledger { event } => before.push(event),
            _ => before,
        }
    }
}

/// The events of the ledger in a journal.
pub fn ledger(records: &Vec<Record>) -> (events: Vec<FinancialEvent>)
    ensures
        events@ == ledger_of(records@),
{
    let mut events: Vec<FinancialEvent> = Vec::new();
    let mut i: usize = 0;
    assert(records@.take(0) =~= Seq::empty());
    while i < records.len()
        invariant
            i <= records@.len(),
            events@ == ledger_of(records@.take(i as int)),
        decreases records@.len() - i,
    {
        assert(records@.take(i + 1).drop_last() =~= records@.take(i as int));
        if let RecordKind::Ledger { event } = &records[i].kind {
            events.push(event.clone());
        }
        i = i + 1;
    }
    assert(records@.take(i as int) =~= records@);
    events
}

/// What a journal leaves to restore.
#[derive(Debug, Clone, Copy, PartialEq, Eq, Structural)]
pub enum History {
    /// The journal is new.
    New,
    /// The journal has no ledger: the engine starts afresh.
    Unled,
    /// The engine is restored from the ledger.
    Ledger,
}

/// Whether a journal starts with this configuration and definition.
pub open spec fn started_with(
    record: Record,
    config_hash: Seq<char>,
    definition: Seq<char>,
) -> bool {
    match record.kind {
        RecordKind::Started { config_hash: hash, definition: identity, .. } => hash@ == config_hash
            && identity@ == definition,
        _ => false,
    }
}

/// Whether a record may stand in a journal without a ledger.
pub open spec fn precedes_ledger(record: Record) -> bool {
    record.kind is Started || record.kind is Discontinuity
}

/// Why a journal cannot be restored.
pub open spec fn history_refusal(
    records: Seq<Record>,
    config_hash: Seq<char>,
    definition: Seq<char>,
) -> Option<Seq<char>> {
    if records.len() == 0 {
        None
    } else if !started_with(records[0], config_hash, definition) {
        Some("live: journal Started configuration or definition mismatch"@)
    } else if ledger_of(records).len() == 0 && exists|i: int|
        0 <= i < records.len() && !precedes_ledger(#[trigger] records[i]) {
        Some("live: journal has financial records without a ledger"@)
    } else {
        None
    }
}

/// Reads what a journal leaves to restore, and its ledger.
pub fn history(records: &Vec<Record>, config_hash: &str, definition: &str) -> (found: Result<
    (History, Vec<FinancialEvent>),
    String,
>)
    ensures
        refusal(found) == history_refusal(records@, config_hash@, definition@),
        found matches Ok((history, events)) ==> {
            &&& events@ == ledger_of(records@)
            &&& history == (if records@.len() == 0 {
                History::New
            } else if ledger_of(records@).len() == 0 {
                History::Unled
            } else {
                History::Ledger
            })
        },
{
    let events = ledger(records);
    if records.len() == 0 {
        return Ok((History::New, events));
    }
    let started: bool = match &records[0].kind {
        RecordKind::Started { config_hash: hash, definition: identity, .. } => same_text(
            hash.as_str(),
            config_hash,
        ) && same_text(identity.as_str(), definition),
        _ => false,
    };
    if !started {
        return Err("live: journal Started configuration or definition mismatch".to_owned());
    }
    if events.len() > 0 {
        return Ok((History::Ledger, events));
    }
    let mut i: usize = 0;
    while i < records.len()
        invariant
            i <= records@.len(),
            records@.len() > 0,
            events@ == ledger_of(records@),
            events@.len() == 0,
            started_with(records@[0], config_hash@, definition@),
            forall|j: int| 0 <= j < i ==> precedes_ledger(#[trigger] records@[j]),
        decreases records@.len() - i,
    {
        let allowed: bool = match &records[i].kind {
            RecordKind::Started { .. } => true,
            RecordKind::Discontinuity { .. } => true,
            _ => false,
        };
        if !allowed {
            assert(!precedes_ledger(records@[i as int]));
            return Err("live: journal has financial records without a ledger".to_owned());
        }
        i = i + 1;
    }
    Ok((History::Unled, events))
}

/// Which engine a run goes on with: a recorded run always starts afresh.
pub fn keeps_restored(history: History, mode: Mode, same_definition: bool) -> (keeps: Result<
    bool,
    String,
>)
    ensures
        refusal(keeps) == (if history !is New && !same_definition {
            Some("live: restored definition mismatch"@)
        } else {
            None
        }),
        keeps matches Ok(keeps) ==> keeps == (history !is New && mode !is Replay),
{
    match history {
        History::New => Ok(false),
        _ => if !same_definition {
            Err("live: restored definition mismatch".to_owned())
        } else {
            Ok(mode != Mode::Replay)
        },
    }
}

/// The first record that a run writes: a new journal is started, an old one notes the restart.
pub fn opening_record(
    history: History,
    config_hash: &str,
    definition: &str,
    code_revision: &str,
) -> (kind: RecordKind)
    ensures
        match history {
            History::New => kind matches RecordKind::Started {
                config_hash: hash,
                definition: identity,
                code_revision: revision,
            } && hash@ == config_hash@ && identity@ == definition@ && revision@ == code_revision@,
            _ => kind matches RecordKind::Discontinuity { reason } && reason@
                == "restart: restore financial state and rebuild causal history"@,
        },
{
    match history {
        History::New => RecordKind::Started {
            config_hash: config_hash.to_owned(),
            definition: definition.to_owned(),
            code_revision: code_revision.to_owned(),
        },
        _ => RecordKind::Discontinuity {
            reason: "restart: restore financial state and rebuild causal history".to_owned(),
        },
    }
}

/// A journal that a run started is a journal that the next run of the same deployment restores,
/// and one of another configuration or definition never is.
pub proof fn a_started_journal_restores(
    records: Seq<Record>,
    config_hash: Seq<char>,
    definition: Seq<char>,
)
    requires
        records.len() > 0,
        ledger_of(records).len() > 0,
    ensures
        (history_refusal(records, config_hash, definition) is None) == started_with(
            records[0],
            config_hash,
            definition,
        ),
{
}

/// Whether a record is evidence that a recorded run must reproduce.
pub open spec fn is_evidence(kind: RecordKind) -> bool {
    kind is Ledger || kind is Refused || kind is DueTick
}

/// Whether a record is evidence that a recorded run must reproduce.
pub fn evidence(kind: &RecordKind) -> (found: bool)
    ensures
        found == is_evidence(*kind),
{
    match kind {
        RecordKind::Ledger { .. } => true,
        RecordKind::Refused { .. } => true,
        RecordKind::DueTick { .. } => true,
        _ => false,
    }
}

/// Evidence that a recorded run must reproduce, in canonical text.
#[derive(Debug)]
pub struct Expected {
    pub time_micros: i64,
    pub text: String,
}

/// The evidence of a journal, and how far a recorded run has reproduced it.
#[derive(Debug)]
pub struct Prefix {
    pub expected: Vec<Expected>,
    pub at: usize,
}

/// What the evidence of a journal says of a new record at a time.
pub open spec fn judged(
    expected: Seq<Expected>,
    at: nat,
    kind: RecordKind,
    text: Seq<char>,
    now: i64,
) -> Result<bool, Seq<char>> {
    if !is_evidence(kind) || at >= expected.len() {
        Ok(false)
    } else if expected[at as int].text@ != text || (kind !is Ledger
        && expected[at as int].time_micros != now) {
        Err("live replay: journal evidence diverges at prefix "@ + decimal(at))
    } else {
        Ok(true)
    }
}

impl Prefix {
    /// At most all of the evidence was reproduced.
    pub open spec fn wf(&self) -> bool {
        self.at <= self.expected@.len()
    }

    /// Nothing to reproduce.
    pub fn none() -> (prefix: Prefix)
        ensures
            prefix.wf(),
            prefix.expected@.len() == 0,
            prefix.at == 0,
    {
        Prefix { expected: Vec::new(), at: 0 }
    }

    /// The evidence of a journal whose records have these canonical texts.
    pub fn of(records: &Vec<Record>, texts: &Vec<String>) -> (prefix: Prefix)
        requires
            records@.len() == texts@.len(),
        ensures
            prefix.wf(),
            prefix.at == 0,
            listed(prefix.expected@) == evidence_of(records@, texts@, records@.len()),
    {
        let mut expected: Vec<Expected> = Vec::new();
        let mut i: usize = 0;
        assert(listed(expected@) =~= evidence_of(records@, texts@, 0));
        while i < records.len()
            invariant
                i <= records@.len(),
                records@.len() == texts@.len(),
                listed(expected@) == evidence_of(records@, texts@, i as nat),
            decreases records@.len() - i,
        {
            let ghost before = listed(expected@);
            if evidence(&records[i].kind) {
                expected.push(
                    Expected { time_micros: records[i].time_micros, text: texts[i].clone() },
                );
                assert(listed(expected@) =~= before.push(
                    (records@[i as int].time_micros, texts@[i as int]@),
                ));
            }
            i = i + 1;
        }
        Prefix { expected, at: 0 }
    }

    /// Holds a new record against the evidence. What the journal holds already is reproduced,
    /// not written again.
    pub fn record(&mut self, kind: &RecordKind, text: &str, now: i64) -> (reproduced: Result<
        bool,
        String,
    >)
        requires
            old(self).wf(),
        ensures
            final(self).wf(),
            final(self).expected == old(self).expected,
            match judged(old(self).expected@, old(self).at as nat, *kind, text@, now) {
                Ok(found) => reproduced == Ok::<bool, String>(found) && final(self).at == old(
                    self,
                ).at + (if found {
                    1int
                } else {
                    0int
                }),
                Err(message) => refusal(reproduced) == Some(message) && final(self).at == old(
                    self,
                ).at,
            },
    {
        if !evidence(kind) || self.at >= self.expected.len() {
            return Ok(false);
        }
        let ledger: bool = match kind {
            RecordKind::Ledger { .. } => true,
            _ => false,
        };
        let expected = &self.expected[self.at];
        if !same_text(expected.text.as_str(), text) || (!ledger && expected.time_micros != now) {
            let mut message = String::from_str(
                "live replay: journal evidence diverges at prefix ",
            );
            append_decimal(&mut message, self.at as u64);
            return Err(message);
        }
        self.at = self.at + 1;
        Ok(true)
    }

    /// Whether all of the evidence was reproduced.
    pub fn reproduced(&self) -> (all: bool)
        requires
            self.wf(),
        ensures
            all == (self.at == self.expected@.len()),
    {
        self.at == self.expected.len()
    }

    /// Checks at the end of a recorded run that all of the evidence was reproduced.
    pub fn finish(&self) -> (checked: Result<(), String>)
        requires
            self.wf(),
        ensures
            refusal(checked) == (if self.at < self.expected@.len() {
                Some(
                    "live replay: recorded log ended before the journal prefix reproduced"@,
                )
            } else {
                None
            }),
    {
        if self.at < self.expected.len() {
            return Err(
                "live replay: recorded log ended before the journal prefix reproduced".to_owned(),
            );
        }
        Ok(())
    }
}

/// The times and texts of expected evidence.
pub open spec fn listed(expected: Seq<Expected>) -> Seq<(i64, Seq<char>)> {
    expected.map_values(|one: Expected| (one.time_micros, one.text@))
}

/// The times and texts of the evidence among the first `count` records.
pub open spec fn evidence_of(records: Seq<Record>, texts: Seq<String>, count: nat) -> Seq<
    (i64, Seq<char>),
>
    decreases count,
{
    if count == 0 {
        Seq::empty()
    } else {
        let before = evidence_of(records, texts, (count - 1) as nat);
        if is_evidence(records[count - 1].kind) {
            before.push((records[count - 1].time_micros, texts[count - 1]@))
        } else {
            before
        }
    }
}

/// A file beside the journal.
#[derive(Debug)]
pub struct StoredFile {
    pub name: String,
    pub sha256: String,
    pub bytes: u64,
}

/// Whether a file is marked as uploaded but is no segment.
pub open spec fn is_foreign_mark(file: StoredFile) -> bool {
    finishes_with(file.name@, UPLOADED@) && !is_segment(
        file.name@.subrange(0, file.name@.len() - UPLOADED@.len()),
    )
}

/// The archived segments of a run by their keys.
pub open spec fn segments_of(files: Seq<StoredFile>, deployment: Seq<char>, count: nat) -> Map<
    Seq<char>,
    (Seq<char>, u64),
>
    decreases count,
{
    if count == 0 {
        Map::empty()
    } else {
        let before = segments_of(files, deployment, (count - 1) as nat);
        let file = files[count - 1];
        if finishes_with(file.name@, UPLOADED@) {
            before.insert(
                archive_key(
                    deployment,
                    file.name@.subrange(0, file.name@.len() - UPLOADED@.len()),
                ),
                (file.sha256@, file.bytes),
            )
        } else {
            before
        }
    }
}

/// The identities of archived segments.
pub open spec fn identities(segments: Map<Seq<char>, Segment>) -> Map<Seq<char>, (Seq<char>, u64)> {
    segments.map_values(|segment: Segment| (segment.sha256@, segment.bytes))
}

/// Every segment stands under its own key.
pub open spec fn keyed(segments: Map<Seq<char>, Segment>) -> bool {
    forall|key: Seq<char>| #[trigger]
        segments.dom().contains(key) ==> segments[key].key@ == key
}

/// The segments that were uploaded before the run, by the files that are marked.
pub fn uploaded_segments(files: &Vec<StoredFile>, deployment: &str) -> (found: Result<
    Table<Segment>,
    String,
>)
    ensures
        refusal(found) == (if exists|i: int|
            0 <= i < files@.len() && is_foreign_mark(#[trigger] files@[i]) {
            Some("invalid journal segment name"@)
        } else {
            None
        }),
        found matches Ok(segments) ==> {
            &&& identities(segments@) == segments_of(files@, deployment@, files@.len())
            &&& keyed(segments@)
        },
{
    let mut segments: Table<Segment> = Table::new();
    let mut i: usize = 0;
    assert(identities(segments@) =~= segments_of(files@, deployment@, 0));
    while i < files.len()
        invariant
            i <= files@.len(),
            identities(segments@) == segments_of(files@, deployment@, i as nat),
            keyed(segments@),
            forall|j: int| 0 <= j < i ==> !is_foreign_mark(#[trigger] files@[j]),
        decreases files@.len() - i,
    {
        let file = &files[i];
        if let Some(name) = strip_suffix(file.name.as_str(), UPLOADED) {
            if !valid_segment(name) {
                assert(is_foreign_mark(files@[i as int]));
                return Err("invalid journal segment name".to_owned());
            }
            let ghost before = segments@;
            let key = segment_key(deployment, name);
            let segment = Segment {
                key: key.clone(),
                sha256: file.sha256.clone(),
                bytes: file.bytes,
            };
            segments.insert(key, segment);
            assert(identities(segments@) =~= identities(before).insert(
                segment.key@,
                (file.sha256@, file.bytes),
            ));
        }
        i = i + 1;
    }
    Ok(segments)
}

/// Adds a segment whose upload was verified; one that is there already stays.
pub fn add_segment(segments: &mut Table<Segment>, segment: Segment)
    requires
        keyed(old(segments)@),
    ensures
        final(segments)@ == (if old(segments)@.dom().contains(segment.key@) {
            old(segments)@
        } else {
            old(segments)@.insert(segment.key@, segment)
        }),
        keyed(final(segments)@),
{
    if !segments.contains(segment.key.as_str()) {
        let key = segment.key.clone();
        segments.insert(key, segment);
    }
}

} // verus!
