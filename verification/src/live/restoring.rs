//! What holds of every beginning and every end of a run: what is restored from a journal, in which
//! order a run begins, and which claims may be forgotten.

use crate::live::archive::{
    about, archived_through, concerns, ends, file_name, is_archived, is_deletable, is_end, range_of,
};
use crate::live::control::Claim;
use crate::live::deployment::{
    deployment_key, refit_refusal, without_slashes, DeploymentManifest, Mode,
};
use crate::live::entries::{AUTHORIZATION, BALANCE, WARMUP};
use crate::live::finance::EventKind;
use crate::live::journal::{archive_key, is_segment, Record, RecordKind, UPLOADED};
use crate::live::opening::{
    evidence_of, history_refusal, is_evidence, is_foreign_mark, judged, ledger_of, segments_of,
    started_with, Expected, StoredFile,
};
use crate::live::startup::{begins, vetoed, Beginning, Known, Stage};
use crate::text::{finishes_with, text_of, views};
use vstd::prelude::*;

verus! {

/// The name of a file holds no slash, and is the rest of its key, which before it is empty or ends
/// in a slash.
pub proof fn a_file_name_follows_the_last_slash(key: Seq<char>)
    ensures
        forall|i: int| 0 <= i < file_name(key).len() ==> #[trigger] file_name(key)[i] != '/',
        file_name(key).len() <= key.len(),
        key.subrange(key.len() - file_name(key).len(), key.len() as int) == file_name(key),
        file_name(key).len() < key.len() ==> key[key.len() - file_name(key).len() - 1] == '/',
    decreases key.len(),
{
    if key.len() > 0 && key.last() != '/' {
        let shorter = key.drop_last();
        a_file_name_follows_the_last_slash(shorter);
        let name = file_name(shorter);
        let at = shorter.len() - name.len();
        assert(file_name(key) == name.push(key.last()));
        assert(key.subrange(at, key.len() as int) == name.push(key.last())) by {
            assert forall|i: int| 0 <= i < name.len() implies key.subrange(at, key.len() as int)[i]
                == name[i] by {
                assert(shorter.subrange(at, shorter.len() as int)[i] == name[i]);
            }
            assert(key.subrange(at, key.len() as int) =~= name.push(key.last()));
        }
    } else {
        assert(file_name(key) == Seq::<char>::empty());
        assert(key.subrange(key.len() as int, key.len() as int) == Seq::<char>::empty());
    }
}

/// Segments hold a journal without a gap exactly where each is full and starts where the one
/// before it ends; they then hold as many records as they are full segments.
pub proof fn archived_segments_leave_no_gap(
    keys: Seq<Seq<char>>,
    segment_records: u64,
    count: nat,
)
    ensures
        archived_through(keys, segment_records, count) is Some <==> forall|i: int|
            0 <= i < count ==> (range_of(file_name(#[trigger] keys[i])) matches Some((first, last))
                && first == i * segment_records + 1 && last == (i + 1) * segment_records),
        archived_through(keys, segment_records, count) matches Some(through) ==> through == count
            * segment_records,
    decreases count,
{
    if count > 0 {
        let fewer = (count - 1) as nat;
        archived_segments_leave_no_gap(keys, segment_records, fewer);
        assert((fewer + 1) * segment_records == fewer * segment_records + segment_records)
            by (nonlinear_arith);
        let key = keys[count - 1];
        if archived_through(keys, segment_records, count) is Some {
            assert forall|i: int| 0 <= i < count implies (range_of(
                file_name(#[trigger] keys[i]),
            ) matches Some((first, last)) && first == i * segment_records + 1 && last == (i + 1)
                * segment_records) by {
                if i == count - 1 {
                    assert(i * segment_records == fewer * segment_records);
                }
            }
        } else if archived_through(keys, segment_records, fewer) is Some {
            assert(!(range_of(file_name(key)) matches Some((first, last)) && first == (count - 1)
                * segment_records + 1 && last == count * segment_records));
            assert(!(range_of(file_name(keys[count - 1])) matches Some((first, last)) && first
                == (count - 1) * segment_records + 1 && last == ((count - 1) + 1)
                * segment_records));
        }
    } else {
        assert(0 * segment_records == 0);
    }
}

/// The lifecycle of a command ends with its settlement, or with a reconciliation that leaves it
/// unbought or closed; what ends a lifecycle is about the command.
pub proof fn a_lifecycle_ends_with_its_money(event: EventKind, command: Seq<char>)
    ensures
        (event matches EventKind::Settled { command: of, .. } ==> ends(event) == Some(of@)
            && concerns(event) == Some(of@)),
        (event matches EventKind::Reconciled { command: of, resolution, .. } ==> concerns(event)
            == Some(of@) && (ends(event) == Some(of@) || ends(event) is None) && (ends(event)
            is None <==> resolution is Purchased)),
        ends(event) is Some ==> concerns(event) == ends(event) && (event is Settled
            || event is Reconciled),
{
}

/// A record is about the command that it names, whatever of it: that it was decided, claimed,
/// written, answered or settled.
pub proof fn a_record_is_about_the_command_it_names(record: Record)
    ensures
        (record.kind matches RecordKind::Claimed { command, .. } ==> about(record) == Some(
            command@,
        )),
        (record.kind matches RecordKind::Written { command, .. } ==> about(record) == Some(
            command@,
        )),
        (record.kind matches RecordKind::DueTick { command, .. } ==> about(record) == Some(
            command@,
        )),
        (record.kind matches RecordKind::Ledger { event } ==> match event.kind {
            EventKind::Signal(signal) => about(record) == text_of(signal.command),
            EventKind::Acknowledged { command } => about(record) == Some(command@),
            EventKind::Accepted { command, .. } => about(record) == Some(command@),
            EventKind::Confirmed { command, .. } => about(record) == Some(command@),
            EventKind::Released { command, .. } => about(record) == Some(command@),
            EventKind::PossiblySent { command } => about(record) == Some(command@),
            EventKind::Unresolved { command, .. } => about(record) == Some(command@),
            EventKind::CashObserved { matched, .. } => about(record) == text_of(matched),
            EventKind::Settled { command, .. } => about(record) == Some(command@),
            EventKind::Reconciled { command, .. } => about(record) == Some(command@),
            EventKind::Other => about(record) is None,
        }),
        about(record) is Some ==> record.kind is Ledger || record.kind is Claimed
            || record.kind is Written || record.kind is DueTick,
{
}

/// A claim is forgotten exactly where it is reconciled, its lifecycle is over, and full segments
/// without a gap hold every record about it.
pub proof fn a_claim_is_forgotten_once_archived(
    claims: Map<Seq<char>, Claim>,
    records: Seq<Record>,
    keys: Seq<Seq<char>>,
    segment_records: u64,
    command: Seq<char>,
)
    ensures
        is_deletable(claims, records, keys, segment_records, command) <==> {
            &&& claims.dom().contains(command)
            &&& claims[command].state is Reconciled
            &&& archived_through(keys, segment_records, keys.len()) is Some
            &&& forall|i: int|
                0 <= i < records.len() && about(#[trigger] records[i]) == Some(command)
                    ==> records[i].sequence <= keys.len() * segment_records
            &&& exists|i: int|
                0 <= i < records.len() && (#[trigger] records[i]).kind is Ledger && ends(
                    records[i].kind->event.kind,
                ) == Some(command)
        },
{
    archived_segments_leave_no_gap(keys, segment_records, keys.len());
    if is_deletable(claims, records, keys, segment_records, command) {
        assert(is_archived(records, keys, segment_records, command));
        let i = choose|i: int| 0 <= i < records.len() && is_end(#[trigger] records[i], command);
        assert(records[i].kind is Ledger);
    }
    if exists|i: int|
        0 <= i < records.len() && (#[trigger] records[i]).kind is Ledger && ends(
            records[i].kind->event.kind,
        ) == Some(command) {
        let i = choose|i: int|
            0 <= i < records.len() && (#[trigger] records[i]).kind is Ledger && ends(
                records[i].kind->event.kind,
            ) == Some(command);
        assert(is_end(records[i], command));
    }
}

/// A manifest is a deployment of a contract exactly where its kind, its version, its contract and
/// its hash are all as they must be; two deployments have two keys.
pub proof fn a_deployment_is_known_by_its_contents(
    manifest: DeploymentManifest,
    execution_contract: Seq<char>,
    content_hash: Seq<char>,
    other: Seq<char>,
)
    ensures
        manifest.describes(execution_contract, content_hash) <==> manifest.kind@
            == "live_deployment"@ && manifest.schema_version == 1
            && manifest.execution_contract@ == execution_contract && manifest.hash@
            == content_hash,
        deployment_key(manifest.hash@) == deployment_key(other) ==> manifest.hash@ == other,
{
    if deployment_key(manifest.hash@) == deployment_key(other) {
        let a = deployment_key(manifest.hash@);
        let b = deployment_key(other);
        let start = "live/deployments/"@.len() as int;
        let end = a.len() - ".json"@.len();
        assert(a.subrange(start, end) == manifest.hash@);
        assert(b.subrange(start, end) == other);
    }
}

/// A text without the slashes at its end is a beginning of it that ends in no slash, and only
/// slashes are gone.
pub proof fn only_slashes_are_taken_off(text: Seq<char>)
    ensures
        without_slashes(text).len() <= text.len(),
        text.subrange(0, without_slashes(text).len() as int) == without_slashes(text),
        forall|i: int| without_slashes(text).len() <= i < text.len() ==> #[trigger] text[i] == '/',
        without_slashes(text).len() > 0 ==> without_slashes(text).last() != '/',
    decreases text.len(),
{
    reveal_strlit("/");
    if finishes_with(text, "/"@) {
        let shorter = text.subrange(0, text.len() - 1);
        assert(text.subrange(text.len() - 1, text.len() as int)[0] == '/');
        only_slashes_are_taken_off(shorter);
        let trimmed = without_slashes(text);
        assert(trimmed == without_slashes(shorter));
        assert(text.subrange(0, trimmed.len() as int) == shorter.subrange(
            0,
            trimmed.len() as int,
        ));
        assert forall|i: int| trimmed.len() <= i < text.len() implies #[trigger] text[i] == '/' by {
            if i < shorter.len() {
                assert(shorter[i] == text[i]);
            }
        }
    } else if text.len() > 0 {
        assert(without_slashes(text) == text);
        if text.last() == '/' {
            assert(text.subrange(text.len() - 1, text.len() as int) == "/"@);
        }
        assert(text.subrange(0, text.len() as int) == text);
    }
}

/// Refits and warm-ups fit exactly where there is one of each for every instrument, the refits in
/// the instruments' order.
pub proof fn one_refit_for_every_instrument(
    instruments: Seq<String>,
    refits: Seq<String>,
    warmups: nat,
)
    ensures
        refit_refusal(instruments, refits, warmups) is None <==> {
            &&& refits.len() == instruments.len()
            &&& warmups == instruments.len()
            &&& forall|i: int|
                0 <= i < instruments.len() ==> (#[trigger] refits[i])@ == instruments[i]@
        },
{
    if refits.len() == instruments.len() {
        if views(refits) == views(instruments) {
            assert forall|i: int| 0 <= i < instruments.len() implies (#[trigger] refits[i])@
                == instruments[i]@ by {
                assert(views(refits)[i] == views(instruments)[i]);
            }
        }
        if forall|i: int| 0 <= i < instruments.len() ==> (#[trigger] refits[i])@
            == instruments[i]@ {
            assert(views(refits) =~= views(instruments));
        }
    }
}

/// Whether a record is one of the ledger.
pub open spec fn is_ledger() -> spec_fn(Record) -> bool {
    |record: Record| record.kind is Ledger
}

/// The ledger of a journal is the events of its ledger records, all of them, in their order.
pub proof fn a_ledger_is_all_its_events(records: Seq<Record>)
    ensures
        ledger_of(records) == records.filter(is_ledger()).map_values(
            |record: Record| record.kind->event,
        ),
    decreases records.len(),
{
    reveal(Seq::filter);
    if records.len() > 0 {
        a_ledger_is_all_its_events(records.drop_last());
        assert(ledger_of(records) =~= records.filter(is_ledger()).map_values(
            |record: Record| record.kind->event,
        ));
    } else {
        assert(ledger_of(records) =~= records.filter(is_ledger()).map_values(
            |record: Record| record.kind->event,
        ));
    }
}

/// A journal is restored exactly where it is new, or started with this configuration and
/// definition and, where it has no event of the ledger, holds nothing but starts and breaks.
pub proof fn a_journal_is_restored_by_its_start(
    records: Seq<Record>,
    config_hash: Seq<char>,
    definition: Seq<char>,
)
    ensures
        history_refusal(records, config_hash, definition) is None <==> records.len() == 0 || {
            &&& records[0].kind is Started
            &&& started_with(records[0], config_hash, definition)
            &&& (exists|i: int| 0 <= i < records.len() && (#[trigger] records[i]).kind is Ledger)
                || forall|i: int|
                0 <= i < records.len() ==> (#[trigger] records[i]).kind is Started
                    || records[i].kind is Discontinuity
        },
        records.len() > 0 ==> (started_with(records[0], config_hash, definition) <==> (
        records[0].kind matches RecordKind::Started { config_hash: hash, definition: of, .. }
            && hash@ == config_hash && of@ == definition)),
{
    a_ledger_is_empty_without_events(records);
    if forall|i: int|
        0 <= i < records.len() ==> (#[trigger] records[i]).kind is Started
            || records[i].kind is Discontinuity {
        assert forall|i: int| 0 <= i < records.len() implies crate::live::opening::precedes_ledger(
            #[trigger] records[i],
        ) by {
            assert(records[i].kind is Started || records[i].kind is Discontinuity);
        }
    } else {
        let i = choose|i: int|
            0 <= i < records.len() && !((#[trigger] records[i]).kind is Started
                || records[i].kind is Discontinuity);
        assert(!crate::live::opening::precedes_ledger(records[i]));
    }
}

proof fn a_ledger_is_empty_without_events(records: Seq<Record>)
    ensures
        ledger_of(records).len() > 0 <==> exists|i: int|
            0 <= i < records.len() && (#[trigger] records[i]).kind is Ledger,
    decreases records.len(),
{
    if records.len() > 0 {
        let fewer = records.drop_last();
        a_ledger_is_empty_without_events(fewer);
        if exists|i: int| 0 <= i < fewer.len() && (#[trigger] fewer[i]).kind is Ledger {
            let i = choose|i: int| 0 <= i < fewer.len() && (#[trigger] fewer[i]).kind is Ledger;
            assert(records[i] == fewer[i]);
            assert(records[i].kind is Ledger);
        }
        if records.last().kind is Ledger {
            assert(records[records.len() - 1].kind is Ledger);
        }
        if exists|i: int| 0 <= i < records.len() && (#[trigger] records[i]).kind is Ledger {
            let i = choose|i: int| 0 <= i < records.len() && (#[trigger] records[i]).kind is Ledger;
            if i < fewer.len() {
                assert(fewer[i] == records[i]);
            }
        }
    }
}

/// A record is reproduced where it is evidence and says what the journal says next, at the same
/// time unless it is of the ledger; evidence that says otherwise is refused; everything else is
/// new.
pub proof fn evidence_is_reproduced_in_its_place(
    expected: Seq<Expected>,
    at: nat,
    kind: RecordKind,
    text: Seq<char>,
    now: i64,
)
    ensures
        is_evidence(kind) <==> kind is Ledger || kind is Refused || kind is DueTick,
        judged(expected, at, kind, text, now) == Ok::<bool, Seq<char>>(true) <==> {
            &&& at < expected.len()
            &&& kind is Ledger || kind is Refused || kind is DueTick
            &&& expected[at as int].text@ == text
            &&& kind is Ledger || expected[at as int].time_micros == now
        },
        judged(expected, at, kind, text, now) == Ok::<bool, Seq<char>>(false) <==> at
            >= expected.len() || !(kind is Ledger || kind is Refused || kind is DueTick),
{
}

/// What a journal has to reproduce is the time and the text of each of its records of evidence,
/// and of no other.
pub proof fn every_evidence_is_expected(
    records: Seq<Record>,
    texts: Seq<String>,
    count: nat,
    one: (i64, Seq<char>),
)
    ensures
        evidence_of(records, texts, count).contains(one) <==> exists|i: int|
            0 <= i < count && (#[trigger] records[i]).time_micros == one.0 && texts[i]@ == one.1
                && (records[i].kind is Ledger || records[i].kind is Refused
                || records[i].kind is DueTick),
    decreases count,
{
    if count > 0 {
        let fewer = (count - 1) as nat;
        every_evidence_is_expected(records, texts, fewer, one);
        let before = evidence_of(records, texts, fewer);
        let all = evidence_of(records, texts, count);
        if all.contains(one) {
            let k = choose|k: int| 0 <= k < all.len() && all[k] == one;
            if k < before.len() {
                assert(before[k] == one);
                assert(before.contains(one));
            } else {
                assert(records[count - 1].time_micros == one.0);
            }
        }
        if exists|i: int|
            0 <= i < count && (#[trigger] records[i]).time_micros == one.0 && texts[i]@ == one.1
                && (records[i].kind is Ledger || records[i].kind is Refused
                || records[i].kind is DueTick) {
            let i = choose|i: int|
                0 <= i < count && (#[trigger] records[i]).time_micros == one.0 && texts[i]@
                    == one.1 && (records[i].kind is Ledger || records[i].kind is Refused
                    || records[i].kind is DueTick);
            if i < fewer {
                assert(before.contains(one));
                let k = choose|k: int| 0 <= k < before.len() && before[k] == one;
                assert(all[k] == one);
            } else {
                assert(all[all.len() - 1] == one);
            }
        }
    }
}

/// Whether a file is the mark of an uploaded segment.
pub open spec fn marks(file: StoredFile, deployment: Seq<char>, key: Seq<char>) -> bool {
    exists|name: Seq<char>|
        file.name@ == name + UPLOADED@ && key == #[trigger] archive_key(deployment, name)
}

/// A segment was archived exactly where a file marks it, and it has the digest and the size of the
/// last file that does.
pub proof fn a_segment_is_archived_by_its_mark(
    files: Seq<StoredFile>,
    deployment: Seq<char>,
    count: nat,
    key: Seq<char>,
)
    requires
        count <= files.len(),
    ensures
        segments_of(files, deployment, count).dom().contains(key) <==> exists|i: int|
            0 <= i < count && marks(#[trigger] files[i], deployment, key),
        forall|i: int|
            0 <= i < count && marks(#[trigger] files[i], deployment, key) && (forall|j: int|
                i < j < count ==> !marks(#[trigger] files[j], deployment, key)) ==> segments_of(
                files,
                deployment,
                count,
            )[key] == (files[i].sha256@, files[i].bytes),
    decreases count,
{
    if count > 0 {
        let fewer = (count - 1) as nat;
        a_segment_is_archived_by_its_mark(files, deployment, fewer, key);
        let file = files[count - 1];
        let before = segments_of(files, deployment, fewer);
        let all = segments_of(files, deployment, count);
        if finishes_with(file.name@, UPLOADED@) {
            let name = file.name@.subrange(0, file.name@.len() - UPLOADED@.len());
            assert(file.name@ == name + UPLOADED@);
            if archive_key(deployment, name) == key {
                assert(marks(file, deployment, key));
            } else if marks(file, deployment, key) {
                let other = choose|other: Seq<char>|
                    file.name@ == other + UPLOADED@ && key == #[trigger] archive_key(
                        deployment,
                        other,
                    );
                assert(other == name) by {
                    assert((other + UPLOADED@).subrange(0, other.len() as int) == other);
                }
            }
        } else if marks(file, deployment, key) {
            let other = choose|other: Seq<char>|
                file.name@ == other + UPLOADED@ && key == #[trigger] archive_key(deployment, other);
            assert((other + UPLOADED@).subrange(
                other.len() as int,
                (other + UPLOADED@).len() as int,
            ) == UPLOADED@);
        }
        if !marks(file, deployment, key) {
            assert(all.dom().contains(key) == before.dom().contains(key));
            assert(before.dom().contains(key) ==> all[key] == before[key]);
        }
        assert forall|i: int|
            0 <= i < count && marks(#[trigger] files[i], deployment, key) && (forall|j: int|
                i < j < count ==> !marks(#[trigger] files[j], deployment, key)) implies all[key]
            == (files[i].sha256@, files[i].bytes) by {
            if i < fewer {
                assert(!marks(files[count - 1], deployment, key));
                assert(before.dom().contains(key));
            }
        }
    }
}

/// A mark is refused exactly where what it marks is no segment.
pub proof fn a_mark_of_no_segment_is_refused(file: StoredFile)
    ensures
        is_foreign_mark(file) <==> exists|name: Seq<char>|
            file.name@ == #[trigger] (name + UPLOADED@) && !is_segment(name),
{
    if is_foreign_mark(file) {
        let name = file.name@.subrange(0, file.name@.len() - UPLOADED@.len());
        assert(file.name@ == name + UPLOADED@);
    }
    if exists|name: Seq<char>| file.name@ == #[trigger] (name + UPLOADED@) && !is_segment(name) {
        let name = choose|name: Seq<char>|
            file.name@ == #[trigger] (name + UPLOADED@) && !is_segment(name);
        assert(file.name@.subrange(0, file.name@.len() - UPLOADED@.len()) == name);
        assert(file.name@.subrange(
            file.name@.len() - UPLOADED@.len(),
            file.name@.len() as int,
        ) == UPLOADED@);
    }
}

/// Each step of a beginning is taken at its stage and no other: what the journal says is restored
/// and recovered only outside a recorded run, the market is turned to only once nothing is awaited
/// any more, and reports are received until then.
pub proof fn each_step_has_its_stage(stage: Stage, known: Known)
    ensures
        begins(stage, known).1 == Some(Beginning::RestoreDue) <==> stage is Begin
            && !(known.mode is Replay),
        begins(stage, known).1 == Some(Beginning::RecordOpening) <==> stage is Restored,
        begins(stage, known).1 == Some(Beginning::Drain) <==> stage is Recorded,
        begins(stage, known).1 == Some(Beginning::Acquire) <==> stage is Drained,
        begins(stage, known).1 == Some(Beginning::Recover) <==> stage is Leased
            && !(known.mode is Replay),
        begins(stage, known).1 == Some(Beginning::AskAccount) <==> stage is Recovered,
        begins(stage, known).1 == Some(Beginning::AskAuthorization) <==> stage is Asked,
        begins(stage, known).1 == Some(Beginning::Receive) <==> stage is Waiting && !known.failed
            && (known.balance_pending || known.authorization_pending),
        begins(stage, known).1 == Some(Beginning::Subscribe) <==> stage is Waiting && (known.failed
            || (!known.balance_pending && !known.authorization_pending)),
        begins(stage, known).1 == Some(Beginning::WriteHealth) <==> stage is Subscribed,
        begins(stage, known).0 is Restored <==> stage is Begin,
        begins(stage, known).0 is Recorded <==> stage is Restored,
        begins(stage, known).0 is Drained <==> stage is Recorded,
        begins(stage, known).0 is Leased <==> stage is Drained,
        begins(stage, known).0 is Recovered <==> stage is Leased,
        begins(stage, known).0 is Asked <==> stage is Recovered,
        begins(stage, known).0 is Running <==> stage is Subscribed || stage is Running,
{
}

/// A run begins cold and unreconciled, and a live one unauthorized; no other veto comes, and none
/// is lifted.
pub proof fn a_run_begins_under_its_vetoes(
    stage: Stage,
    mode: Mode,
    before: Set<Seq<char>>,
    reason: Seq<char>,
)
    ensures
        vetoed(stage, mode, before).contains(reason) <==> {
            ||| before.contains(reason)
            ||| stage is Restored && (reason == WARMUP@ || reason == BALANCE@)
            ||| stage is Asked && mode is Live && reason == AUTHORIZATION@
        },
{
}

} // verus!
