//! Contracts whose first tick at or after expiry is still to be recorded.

use crate::live::claims::{is_signal_of, signals};
use crate::live::finance::EventKind;
use crate::live::journal::{names_in_order, Record, RecordKind};
use crate::live::rows::{position, position_of};
use crate::search::{first_where, first_where_absent, first_where_found, first_where_meets};
use crate::table::{in_order, lists, Table};
use crate::text::{same_text, views};
use vstd::prelude::*;
use vstd::string::*;

verus! {

/// The instrument of a record that is the signal of a command.
pub open spec fn signalled_instrument(
    record: Record,
    instruments: Seq<String>,
    command: Seq<char>,
) -> Option<int> {
    match record.kind {
        RecordKind::Ledger { event } => if signals(event, command) {
            match event.kind {
                EventKind::Signal(signal) => position_of(instruments, signal.instrument@),
                _ => None,
            }
        } else {
            None
        },
        _ => None,
    }
}

/// The bound instrument of a command, by its first signal for one.
pub open spec fn instrument_of(
    records: Seq<Record>,
    instruments: Seq<String>,
    command: Seq<char>,
) -> Option<int> {
    match first_where(
        records,
        |record: Record| signalled_instrument(record, instruments, command) is Some,
    ) {
        Some(at) => signalled_instrument(records[at], instruments, command),
        None => None,
    }
}

/// The bound instrument of a command.
pub fn find_instrument(records: &Vec<Record>, instruments: &Vec<String>, command: &str) -> (found:
    Option<usize>)
    ensures
        found matches Some(at) ==> at < instruments@.len() && instrument_of(
            records@,
            instruments@,
            command@,
        ) == Some(at as int),
        found is None ==> instrument_of(records@, instruments@, command@) is None,
{
    let ghost wanted = |record: Record|
        signalled_instrument(record, instruments@, command@) is Some;
    let mut i: usize = 0;
    while i < records.len()
        invariant
            i <= records@.len(),
            wanted == (|record: Record|
                signalled_instrument(record, instruments@, command@) is Some),
            forall|j: int| 0 <= j < i ==> !wanted(#[trigger] records@[j]),
        decreases records@.len() - i,
    {
        let mut found: Option<usize> = None;
        if let RecordKind::Ledger { event } = &records[i].kind {
            if is_signal_of(event, command) {
                if let EventKind::Signal(signal) = &event.kind {
                    found = position(instruments, signal.instrument.as_str());
                }
            }
        }
        if let Some(at) = found {
            assert(signalled_instrument(records@[i as int], instruments@, command@) == Some(
                at as int,
            ));
            proof {
                first_where_found(records@, wanted, i as int);
            }
            return Some(at);
        }
        i = i + 1;
    }
    proof {
        first_where_absent(records@, wanted);
    }
    None
}

/// Whether a record is the tick after a command's expiry.
pub open spec fn is_tick_of(record: Record, command: Seq<char>) -> bool {
    record.kind matches RecordKind::DueTick { command: id, .. } && id@ == command
}

/// Whether a journal holds the tick after a command's expiry.
pub open spec fn ticked(records: Seq<Record>, command: Seq<char>) -> bool {
    exists|i: int| 0 <= i < records.len() && is_tick_of(#[trigger] records[i], command)
}

/// Whether a journal holds the tick after a command's expiry.
pub fn has_tick(records: &Vec<Record>, command: &str) -> (found: bool)
    ensures
        found == ticked(records@, command@),
{
    let mut i: usize = 0;
    while i < records.len()
        invariant
            i <= records@.len(),
            forall|j: int| 0 <= j < i ==> !is_tick_of(#[trigger] records@[j], command@),
        decreases records@.len() - i,
    {
        let found: bool = match &records[i].kind {
            RecordKind::DueTick { command: id, .. } => same_text(id.as_str(), command),
            _ => false,
        };
        if found {
            assert(is_tick_of(records@[i as int], command@));
            return true;
        }
        i = i + 1;
    }
    false
}

/// Notes that a command's contract runs until `expiry`: the first note stands. A tick that is
/// recorded already is not awaited again, but for a recorded run, which reproduces it.
pub fn note_due(
    due: &mut Table<(usize, i64)>,
    records: &Vec<Record>,
    instruments: &Vec<String>,
    command: &str,
    expiry: i64,
    replay: bool,
)
    ensures
        final(due)@ == (match instrument_of(records@, instruments@, command@) {
            Some(at) => if (replay || !ticked(records@, command@)) && !old(due)@.dom().contains(
                command@,
            ) {
                old(due)@.insert(command@, (at as usize, expiry))
            } else {
                old(due)@
            },
            None => old(due)@,
        }),
{
    if let Some(at) = find_instrument(records, instruments, command) {
        if (replay || !has_tick(records, command)) && !due.contains(command) {
            due.insert(command.to_owned(), (at, expiry));
        }
    }
}

/// The expiry that a record confirms for a command.
pub open spec fn confirms(record: Record, command: Seq<char>) -> Option<i64> {
    match record.kind {
        RecordKind::Ledger { event } => match event.kind {
            EventKind::Confirmed { command: id, expiry_micros: Some(expiry), .. } => if id@
                == command {
                Some(expiry)
            } else {
                None
            },
            _ => None,
        },
        _ => None,
    }
}

/// The expiry that a journal confirms first for a command.
pub open spec fn expiry_of(records: Seq<Record>, command: Seq<char>) -> Option<i64> {
    match first_where(records, |record: Record| confirms(record, command) is Some) {
        Some(at) => confirms(records[at], command),
        None => None,
    }
}

/// The expiry that a journal confirms first for a command.
pub fn find_expiry(records: &Vec<Record>, command: &str) -> (expiry: Option<i64>)
    ensures
        expiry == expiry_of(records@, command@),
{
    let ghost wanted = |record: Record| confirms(record, command@) is Some;
    let mut i: usize = 0;
    while i < records.len()
        invariant
            i <= records@.len(),
            wanted == (|record: Record| confirms(record, command@) is Some),
            forall|j: int| 0 <= j < i ==> !wanted(#[trigger] records@[j]),
        decreases records@.len() - i,
    {
        let mut found: Option<i64> = None;
        if let RecordKind::Ledger { event } = &records[i].kind {
            if let EventKind::Confirmed { command: id, expiry_micros: Some(expiry), .. } =
                &event.kind {
                if same_text(id.as_str(), command) {
                    found = Some(*expiry);
                }
            }
        }
        if found.is_some() {
            assert(confirms(records@[i as int], command@) == found);
            proof {
                first_where_found(records@, wanted, i as int);
            }
            return found;
        }
        i = i + 1;
    }
    proof {
        first_where_absent(records@, wanted);
    }
    None
}

/// What a journal leaves due: the confirmed commands of bound instruments without a tick.
pub open spec fn due_of(records: Seq<Record>, instruments: Seq<String>) -> Map<
    Seq<char>,
    (usize, i64),
> {
    Map::new(
        |command: Seq<char>|
            expiry_of(records, command) is Some && instrument_of(
                records,
                instruments,
                command,
            ) is Some && !ticked(records, command),
        |command: Seq<char>|
            (
                instrument_of(records, instruments, command)->0 as usize,
                expiry_of(records, command)->0,
            ),
    )
}

/// Restores from a journal what is due.
pub fn restore_due(records: &Vec<Record>, instruments: &Vec<String>) -> (due: Table<(usize, i64)>)
    ensures
        due@ == due_of(records@, instruments@),
{
    let mut due: Table<(usize, i64)> = Table::new();
    let mut i: usize = 0;
    while i < records.len()
        invariant
            i <= records@.len(),
            forall|command: Seq<char>| #[trigger]
                due@.dom().contains(command) ==> due_of(
                    records@,
                    instruments@,
                ).dom().contains(command) && due@[command] == due_of(
                    records@,
                    instruments@,
                )[command],
            forall|command: Seq<char>, j: int|
                0 <= j < i && (#[trigger] confirms(records@[j], command)) is Some && due_of(
                    records@,
                    instruments@,
                ).dom().contains(command) ==> due@.dom().contains(command),
        decreases records@.len() - i,
    {
        let ghost before = due@;
        if let RecordKind::Ledger { event } = &records[i].kind {
            if let EventKind::Confirmed { command, expiry_micros: Some(_), .. } = &event.kind {
                assert(confirms(records@[i as int], command@) is Some);
                let id = command.as_str();
                if let Some(expiry) = find_expiry(records, id) {
                    note_due(&mut due, records, instruments, id, expiry, false);
                }
                proof {
                    first_where_meets(
                        records@,
                        |record: Record| confirms(record, command@) is Some,
                    );
                    assert(expiry_of(records@, command@) is Some);
                }
            }
        }
        proof {
            assert forall|command: Seq<char>, j: int|
                0 <= j < i + 1 && (#[trigger] confirms(records@[j], command)) is Some && due_of(
                    records@,
                    instruments@,
                ).dom().contains(command) implies due@.dom().contains(command) by {
                if j < i {
                    assert(before.dom().contains(command));
                }
            }
        }
        i = i + 1;
    }
    proof {
        assert forall|command: Seq<char>|
            due_of(records@, instruments@).dom().contains(command) implies due@.dom().contains(
            command,
        ) by {
            let wanted = |record: Record| confirms(record, command) is Some;
            first_where_meets(records@, wanted);
            let at = first_where(records@, wanted)->0;
            assert(confirms(records@[at], command) is Some);
        }
        assert(due@ =~= due_of(records@, instruments@));
    }
    due
}

/// The commands whose contracts a tick of an instrument ends.
pub open spec fn ended_by(
    due: Map<Seq<char>, (usize, i64)>,
    instrument: usize,
    time_micros: i64,
) -> Set<Seq<char>> {
    Set::new(
        |command: Seq<char>|
            due.dom().contains(command) && {
                let (at, expiry) = due[command];
                at == instrument && time_micros >= expiry
            },
    )
}

/// Takes the commands whose contracts a tick of an instrument ends, in order; they are due no
/// longer.
pub fn take_due(due: &mut Table<(usize, i64)>, instrument: usize, time_micros: i64) -> (commands:
    Vec<String>)
    ensures
        views(commands@) == in_order(ended_by(old(due)@, instrument, time_micros)),
        final(due)@ == old(due)@.remove_keys(ended_by(old(due)@, instrument, time_micros)),
{
    let ghost all = due@;
    let ghost ended = ended_by(all, instrument, time_micros);
    let mut found: Table<()> = Table::new();
    let count: usize = due.len();
    let mut i: usize = 0;
    while i < count
        invariant
            i <= count,
            count == due.keys().len(),
            due@ == all,
            ended == ended_by(all, instrument, time_micros),
            forall|j: int| 0 <= j < count ==> due@.dom().contains(#[trigger] due.keys()[j]),
            found@.dom() == due.keys().take(i as int).to_set().intersect(ended),
        decreases count - i,
    {
        let ghost before = due.keys().take(i as int);
        let ghost after = due.keys().take(i + 1);
        let (command, entry) = due.at(i);
        let (at, expiry) = *entry;
        assert(after =~= before.push(command@));
        assert forall|text: Seq<char>| after.to_set().contains(text) == (
        before.to_set().contains(text) || text == command@) by {
            if before.contains(text) {
                let j = choose|j: int| 0 <= j < before.len() && before[j] == text;
                assert(after[j] == text);
            }
            if text == command@ {
                assert(after[i as int] == text);
            }
        }
        if at == instrument && time_micros >= expiry {
            found.insert(command.to_owned(), ());
        }
        i = i + 1;
        assert(found@.dom() =~= after.to_set().intersect(ended));
    }
    proof {
        assert(due.keys().take(i as int) =~= due.keys());
        assert(due.keys().to_set() =~= due@.dom());
        assert(found@.dom() =~= ended);
    }
    let commands = names_in_order(&found);
    let ghost names = views(commands@);
    let total: usize = found.len();
    let mut k: usize = 0;
    assert(due@ =~= all.remove_keys(names.take(0).to_set()));
    while k < commands.len()
        invariant
            k <= commands@.len(),
            names == views(commands@),
            due@ == all.remove_keys(names.take(k as int).to_set()),
        decreases commands@.len() - k,
    {
        let ghost before = names.take(k as int);
        let ghost after = names.take(k + 1);
        let _ = due.remove(commands[k].as_str());
        assert(after =~= before.push(commands@[k as int]@));
        assert forall|text: Seq<char>| after.to_set().contains(text) == (
        before.to_set().contains(text) || text == commands@[k as int]@) by {
            if before.contains(text) {
                let j = choose|j: int| 0 <= j < before.len() && before[j] == text;
                assert(after[j] == text);
            }
            if text == commands@[k as int]@ {
                assert(after[k as int] == text);
            }
        }
        k = k + 1;
        assert(due@ =~= all.remove_keys(after.to_set()));
    }
    proof {
        assert(names.take(k as int) =~= names);
        assert(lists(found.keys(), found@.dom()));
        assert(names.to_set() =~= ended);
    }
    commands
}

} // verus!
