//! The end of a run: which claims are archived whole and may be deleted, and when publication is
//! called off.

use crate::live::control::{Claim, ClaimState};
use crate::live::finance::{EventKind, Resolution};
use crate::live::journal::{
    names_in_order, names_segment, segment_names_differ, segment_range, Record, RecordKind,
};
use crate::live::receipt::Segment;
use crate::table::{in_order, Table};
use crate::text::{refusal, same_text, text_of, views};
use vstd::prelude::*;
use vstd::string::*;

verus! {

/// What follows the last slash of a key.
pub open spec fn file_name(key: Seq<char>) -> Seq<char>
    decreases key.len(),
{
    if key.len() == 0 || key.last() == '/' {
        Seq::empty()
    } else {
        file_name(key.drop_last()).push(key.last())
    }
}

proof fn file_name_starts(key: Seq<char>, at: int)
    requires
        0 <= at <= key.len(),
        at == 0 || key[at - 1] == '/',
        forall|i: int| at <= i < key.len() ==> key[i] != '/',
    ensures
        file_name(key) == key.subrange(at, key.len() as int),
    decreases key.len(),
{
    if at < key.len() {
        let shorter = key.drop_last();
        file_name_starts(shorter, at);
        assert(key.subrange(at, key.len() as int) =~= shorter.subrange(
            at,
            shorter.len() as int,
        ).push(key.last()));
    } else {
        assert(key.subrange(at, key.len() as int) =~= Seq::empty());
    }
}

/// What follows the last slash of a key.
pub fn last_part(key: &str) -> (name: String)
    ensures
        name@ == file_name(key@),
{
    let length: usize = key.unicode_len();
    let mut at: usize = length;
    while at > 0 && key.get_char(at - 1) != '/'
        invariant
            at <= length,
            length == key@.len(),
            forall|i: int| at <= i < length ==> key@[i] != '/',
        decreases at,
    {
        at = at - 1;
    }
    proof {
        file_name_starts(key@, at as int);
    }
    key.substring_char(at, length).to_owned()
}

/// The range of records that a segment's name gives.
pub open spec fn range_of(name: Seq<char>) -> Option<(u64, u64)> {
    if exists|first: u64, last: u64| #[trigger] names_segment(name, first, last) {
        Some(choose|range: (u64, u64)| #[trigger] names_segment(name, range.0, range.1))
    } else {
        None
    }
}

proof fn range_is(name: Seq<char>, first: u64, last: u64)
    requires
        names_segment(name, first, last),
    ensures
        range_of(name) == Some((first, last)),
{
    let pair = (first, last);
    assert(names_segment(name, pair.0, pair.1));
    let range = choose|range: (u64, u64)| #[trigger] names_segment(name, range.0, range.1);
    segment_names_differ(range.0, range.1, first, last);
}

/// How far full segments under the first `count` keys hold the journal without a gap.
pub open spec fn archived_through(
    keys: Seq<Seq<char>>,
    segment_records: u64,
    count: nat,
) -> Option<u64>
    decreases count,
{
    if count == 0 {
        Some(0)
    } else {
        match (
            archived_through(keys, segment_records, (count - 1) as nat),
            range_of(file_name(keys[count - 1])),
        ) {
            (Some(through), Some((first, last))) => if first == through + 1 && last - first + 1
                == segment_records {
                Some(last)
            } else {
                None
            },
            _ => None,
        }
    }
}

proof fn archive_gap_stands(keys: Seq<Seq<char>>, segment_records: u64, count: nat, total: nat)
    requires
        count <= total,
        archived_through(keys, segment_records, count) is None,
    ensures
        archived_through(keys, segment_records, total) is None,
    decreases total,
{
    if count < total {
        archive_gap_stands(keys, segment_records, count, (total - 1) as nat);
    }
}

/// How far archived full segments hold the journal without a gap.
pub fn through(segments: &Table<Segment>, segment_records: u64) -> (last: Option<u64>)
    ensures
        last == archived_through(
            in_order(segments@.dom()),
            segment_records,
            in_order(segments@.dom()).len(),
        ),
{
    let count: usize = segments.len();
    let ghost keys = segments.keys();
    let mut through: u64 = 0;
    let mut i: usize = 0;
    while i < count
        invariant
            i <= count,
            keys == segments.keys(),
            keys == in_order(segments@.dom()),
            count == keys.len(),
            archived_through(keys, segment_records, i as nat) == Some(through),
        decreases count - i,
    {
        let (key, _) = segments.at(i);
        let name = last_part(key);
        let follows: Option<u64> = match segment_range(name.as_str()) {
            Some((first, last)) => {
                proof {
                    range_is(name@, first, last);
                }
                if through < u64::MAX && first == through + 1 && segment_records > 0 && last
                    - first == segment_records - 1 {
                    Some(last)
                } else {
                    None
                }
            },
            None => None,
        };
        match follows {
            Some(last) => {
                through = last;
            },
            None => {
                proof {
                    archive_gap_stands(keys, segment_records, (i + 1) as nat, count as nat);
                }
                return None;
            },
        }
        i = i + 1;
    }
    Some(through)
}

/// The command whose lifecycle an event of the ledger ends.
pub open spec fn ends(event: EventKind) -> Option<Seq<char>> {
    match event {
        EventKind::Settled { command, .. } => Some(command@),
        EventKind::Reconciled { command, resolution, .. } => if resolution is Purchased {
            None
        } else {
            Some(command@)
        },
        _ => None,
    }
}

/// The command that an event of the ledger is about.
pub open spec fn concerns(event: EventKind) -> Option<Seq<char>> {
    match event {
        EventKind::Signal(signal) => text_of(signal.command),
        EventKind::Acknowledged { command } => Some(command@),
        EventKind::Accepted { command, .. } => Some(command@),
        EventKind::Confirmed { command, .. } => Some(command@),
        EventKind::Released { command, .. } => Some(command@),
        EventKind::PossiblySent { command } => Some(command@),
        EventKind::Unresolved { command, .. } => Some(command@),
        EventKind::CashObserved { matched, .. } => text_of(matched),
        EventKind::Settled { command, .. } => Some(command@),
        EventKind::Reconciled { command, .. } => Some(command@),
        EventKind::Other => None,
    }
}

/// The command that a record is about.
pub open spec fn about(record: Record) -> Option<Seq<char>> {
    match record.kind {
        RecordKind::Ledger { event } => concerns(event.kind),
        RecordKind::Claimed { command, .. } => Some(command@),
        RecordKind::Written { command, .. } => Some(command@),
        RecordKind::DueTick { command, .. } => Some(command@),
        _ => None,
    }
}

/// Whether a record ends the lifecycle of a command.
pub open spec fn is_end(record: Record, command: Seq<char>) -> bool {
    record.kind matches RecordKind::Ledger { event } && ends(event.kind) == Some(command)
}

/// Whether archived full segments hold the complete lifecycle of a command: it is over, and
/// every record about it lies in them.
pub open spec fn is_archived(
    records: Seq<Record>,
    keys: Seq<Seq<char>>,
    segment_records: u64,
    command: Seq<char>,
) -> bool {
    match archived_through(keys, segment_records, keys.len()) {
        Some(through) => {
            &&& forall|i: int|
                0 <= i < records.len() && about(#[trigger] records[i]) == Some(command)
                    ==> records[i].sequence <= through
            &&& exists|i: int| 0 <= i < records.len() && is_end(#[trigger] records[i], command)
        },
        None => false,
    }
}

fn names(id: &Option<String>, command: &str) -> (same: bool)
    ensures
        same == (text_of(*id) == Some(command@)),
{
    match id {
        Some(id) => same_text(id.as_str(), command),
        None => false,
    }
}

fn event_about(event: &EventKind, command: &str) -> (found: bool)
    ensures
        found == (concerns(*event) == Some(command@)),
{
    match event {
        EventKind::Signal(signal) => names(&signal.command, command),
        EventKind::Acknowledged { command: id } => same_text(id.as_str(), command),
        EventKind::Accepted { command: id, .. } => same_text(id.as_str(), command),
        EventKind::Confirmed { command: id, .. } => same_text(id.as_str(), command),
        EventKind::Released { command: id, .. } => same_text(id.as_str(), command),
        EventKind::PossiblySent { command: id } => same_text(id.as_str(), command),
        EventKind::Unresolved { command: id, .. } => same_text(id.as_str(), command),
        EventKind::CashObserved { matched, .. } => names(matched, command),
        EventKind::Settled { command: id, .. } => same_text(id.as_str(), command),
        EventKind::Reconciled { command: id, .. } => same_text(id.as_str(), command),
        EventKind::Other => false,
    }
}

fn record_about(record: &Record, command: &str) -> (found: bool)
    ensures
        found == (about(*record) == Some(command@)),
{
    match &record.kind {
        RecordKind::Ledger { event } => event_about(&event.kind, command),
        RecordKind::Claimed { command: id, .. } => same_text(id.as_str(), command),
        RecordKind::Written { command: id, .. } => same_text(id.as_str(), command),
        RecordKind::DueTick { command: id, .. } => same_text(id.as_str(), command),
        _ => false,
    }
}

fn record_ends(record: &Record, command: &str) -> (found: bool)
    ensures
        found == is_end(*record, command@),
{
    match &record.kind {
        RecordKind::Ledger { event } => match &event.kind {
            EventKind::Settled { command: id, .. } => same_text(id.as_str(), command),
            EventKind::Reconciled { command: id, resolution, .. } => match resolution {
                Resolution::Purchased { .. } => false,
                _ => same_text(id.as_str(), command),
            },
            _ => false,
        },
        _ => false,
    }
}

/// Whether archived full segments hold the complete lifecycle of a command.
pub fn claim_archived(
    records: &Vec<Record>,
    segments: &Table<Segment>,
    segment_records: u64,
    command: &str,
) -> (archived: bool)
    ensures
        archived == is_archived(
            records@,
            in_order(segments@.dom()),
            segment_records,
            command@,
        ),
{
    let last: u64 = match through(segments, segment_records) {
        Some(last) => last,
        None => {
            return false;
        },
    };
    let ghost keys = in_order(segments@.dom());
    let mut over: bool = false;
    let mut i: usize = 0;
    while i < records.len()
        invariant
            i <= records@.len(),
            keys == in_order(segments@.dom()),
            archived_through(keys, segment_records, keys.len()) == Some(last),
            over == (exists|j: int| 0 <= j < i && is_end(#[trigger] records@[j], command@)),
            forall|j: int|
                0 <= j < i && about(#[trigger] records@[j]) == Some(command@)
                    ==> records@[j].sequence <= last,
        decreases records@.len() - i,
    {
        let record = &records[i];
        if record_ends(record, command) {
            over = true;
            assert(is_end(records@[i as int], command@));
        }
        if record_about(record, command) && record.sequence > last {
            assert(about(records@[i as int]) == Some(command@));
            return false;
        }
        i = i + 1;
    }
    over
}

/// Whether a claim may be deleted.
pub open spec fn is_deletable(
    claims: Map<Seq<char>, Claim>,
    records: Seq<Record>,
    keys: Seq<Seq<char>>,
    segment_records: u64,
    command: Seq<char>,
) -> bool {
    &&& claims.dom().contains(command)
    &&& claims[command].state is Reconciled
    &&& is_archived(records, keys, segment_records, command)
}

/// The claims that may be deleted, in order: each is reconciled, and verified full segments own
/// its complete lifecycle.
pub fn deletable(
    claims: &Table<Claim>,
    records: &Vec<Record>,
    segments: &Table<Segment>,
    segment_records: u64,
) -> (commands: Vec<String>)
    ensures
        views(commands@) == in_order(
            Set::new(
                |command: Seq<char>|
                    is_deletable(
                        claims@,
                        records@,
                        in_order(segments@.dom()),
                        segment_records,
                        command,
                    ),
            ),
        ),
{
    let count: usize = claims.len();
    let ghost keys = in_order(segments@.dom());
    let ghost wanted = Set::new(
        |command: Seq<char>|
            is_deletable(claims@, records@, keys, segment_records, command),
    );
    let mut found: Table<()> = Table::new();
    let mut i: usize = 0;
    while i < count
        invariant
            i <= count,
            count == claims.keys().len(),
            keys == in_order(segments@.dom()),
            wanted == Set::new(
                |command: Seq<char>|
                    is_deletable(claims@, records@, keys, segment_records, command),
            ),
            forall|j: int|
                0 <= j < count ==> claims@.dom().contains(#[trigger] claims.keys()[j]),
            found@.dom() == claims.keys().take(i as int).to_set().intersect(wanted),
        decreases count - i,
    {
        let ghost before = claims.keys().take(i as int);
        let ghost after = claims.keys().take(i + 1);
        let (command, claim) = claims.at(i);
        assert(after =~= before.push(command@));
        assert forall|text: Seq<char>| after.to_set().contains(text) == (
        before.to_set().contains(text) || text == command@) by {
            if before.contains(text) {
                let j = choose|j: int| 0 <= j < before.len() && before[j] == text;
                assert(after[j] == text);
            }
            if text == command@ {
                assert(after[i as int] == text);
            }
        }
        if claim.state == ClaimState::Reconciled && claim_archived(
            records,
            segments,
            segment_records,
            command,
        ) {
            found.insert(command.to_owned(), ());
        }
        i = i + 1;
        assert(found@.dom() =~= after.to_set().intersect(wanted));
    }
    proof {
        assert(claims.keys().take(i as int) =~= claims.keys());
        assert(claims.keys().to_set() =~= claims@.dom());
        assert(found@.dom() =~= wanted);
    }
    names_in_order(&found)
}

/// Nothing of a deleted claim is lost: every record about its command lies in the archived
/// segments.
pub proof fn deleted_claims_are_archived_whole(
    claims: Map<Seq<char>, Claim>,
    records: Seq<Record>,
    keys: Seq<Seq<char>>,
    segment_records: u64,
    command: Seq<char>,
    i: int,
)
    requires
        is_deletable(claims, records, keys, segment_records, command),
        0 <= i < records.len(),
        about(records[i]) == Some(command),
    ensures
        archived_through(keys, segment_records, keys.len()) is Some,
        records[i].sequence <= archived_through(keys, segment_records, keys.len())->0,
{
}

/// Calls off publication where the run was cut off.
pub fn check_archival_interruption(interrupted: bool) -> (checked: Result<(), String>)
    ensures
        refusal(checked) == (if interrupted {
            Some("live: archival interrupted before final publication"@)
        } else {
            None
        }),
{
    if interrupted {
        return Err("live: archival interrupted before final publication".to_owned());
    }
    Ok(())
}

/// Whether the next closed segment may be uploaded: one at a time, and after a failure only when
/// a renewal is due.
pub fn may_upload(uploads: usize, errors: usize, renewal_due: bool) -> (may: bool)
    ensures
        may == (uploads == 0 && (renewal_due || errors == 0)),
{
    uploads == 0 && (renewal_due || errors == 0)
}

/// The first failed upload of a run, by its name.
pub fn upload_failure(errors: &Table<String>) -> (failure: Option<String>)
    ensures
        text_of(failure) == (if errors@.dom() == Set::<Seq<char>>::empty() {
            None
        } else {
            Some(errors@[in_order(errors@.dom())[0]]@)
        }),
{
    if errors.is_empty() {
        return None;
    }
    let count: usize = errors.len();
    let (_, reason) = errors.at(0);
    Some(reason.clone())
}

} // verus!
