//! The owner's dispatch claims: what the ledger does to them, and how they are recovered after a
//! restart.

use crate::live::control::{claim_updated, seen, set_claim, Claim, ClaimState};
use crate::live::entries::{after_veto, Vetoes, LEASE_LOST, UNRESOLVED_CLAIM, UNRESOLVED_EVIDENCE};
use crate::live::finance::{EventKind, FinancialEvent, Resolution};
use crate::live::journal::{names_in_order, Record, RecordKind};
use crate::table::{in_order, Table};
use crate::text::{join, join4, same_text, text_of, views};
use vstd::prelude::*;
use vstd::string::*;

verus! {

/// Whether a claim's command may have been sent and is not resolved.
pub open spec fn is_unresolved(claim: Claim) -> bool {
    claim.state is Claimed || claim.state is PossiblySent
}

/// Whether some claim is unresolved.
pub open spec fn some_unresolved(claims: Map<Seq<char>, Claim>) -> bool {
    exists|command: Seq<char>|
        claims.dom().contains(command) && is_unresolved(#[trigger] claims[command])
}

/// Whether some claim is unresolved.
pub fn has_unresolved(claims: &Table<Claim>) -> (found: bool)
    ensures
        found == some_unresolved(claims@),
{
    let count: usize = claims.len();
    let mut i: usize = 0;
    while i < count
        invariant
            i <= count,
            count == claims.keys().len(),
            crate::table::lists(claims.keys(), claims@.dom()),
            forall|j: int|
                0 <= j < count ==> claims@.dom().contains(#[trigger] claims.keys()[j]),
            forall|j: int|
                0 <= j < i ==> !is_unresolved(claims@[#[trigger] claims.keys()[j]]),
        decreases count - i,
    {
        let (command, claim) = claims.at(i);
        if claim.state == ClaimState::Claimed || claim.state == ClaimState::PossiblySent {
            assert(is_unresolved(claims@[command@]));
            return true;
        }
        i = i + 1;
    }
    proof {
        if some_unresolved(claims@) {
            let command = choose|command: Seq<char>|
                claims@.dom().contains(command) && is_unresolved(#[trigger] claims@[command]);
            assert(claims.keys().to_set().contains(command));
            let j = choose|j: int| 0 <= j < count && claims.keys()[j] == command;
            assert(!is_unresolved(claims@[claims.keys()[j]]));
        }
    }
    false
}

/// Sets the state of a claim of this deployment, and the references that are given. Says whether
/// the control database must be told.
pub fn update_claim(
    claims: &mut Table<Claim>,
    deployment: &str,
    command: &str,
    state: ClaimState,
    contract_ref: Option<&str>,
    transaction_ref: Option<&str>,
) -> (tell: bool)
    ensures
        tell == (old(claims)@.dom().contains(command@) && old(claims)@[command@].deployment@
            == deployment@),
        !tell ==> final(claims)@ == old(claims)@,
        tell ==> {
            &&& final(claims)@ == old(claims)@.insert(command@, final(claims)@[command@])
            &&& claim_updated(
                old(claims)@[command@],
                final(claims)@[command@],
                state,
                seen(contract_ref),
                seen(transaction_ref),
            )
        },
{
    let tell: bool = match claims.get(command) {
        Some(claim) => same_text(claim.deployment.as_str(), deployment),
        None => false,
    };
    if tell {
        let ghost before = claims@;
        if let Some(claim) = claims.remove(command) {
            let updated = set_claim(claim, state, contract_ref, transaction_ref);
            claims.insert(command.to_owned(), updated);
            assert(claims@ =~= before.insert(command@, updated));
        }
    }
    tell
}

/// The veto that a claim update which did not go through raises.
pub open spec fn update_veto(command: Seq<char>) -> Seq<char> {
    "claim update unavailable: "@ + command
}

/// Takes the control database's answer to a claim update. An answer that did not come leaves a
/// discontinuity in the journal.
pub fn update_answered(
    vetoes: &mut Vetoes,
    claims: &Table<Claim>,
    command: &str,
    answer: &Result<bool, String>,
) -> (discontinuity: Option<String>)
    ensures
        final(vetoes)@ == after_veto(
            {
                let told = after_veto(
                    old(vetoes)@,
                    update_veto(command@),
                    *answer != Ok::<bool, String>(true),
                );
                if *answer == Ok::<bool, String>(false) {
                    after_veto(told, LEASE_LOST@, true)
                } else {
                    told
                }
            },
            UNRESOLVED_CLAIM@,
            some_unresolved(claims@),
        ),
        text_of(discontinuity) == (match *answer {
            Err(reason) => Some("claim update "@ + command@ + ": "@ + reason@),
            Ok(_) => None,
        }),
{
    let told: bool = match answer {
        Ok(true) => true,
        _ => false,
    };
    let reason = join("claim update unavailable: ", command);
    vetoes.set(reason.as_str(), !told);
    let discontinuity = match answer {
        Ok(false) => {
            vetoes.set(LEASE_LOST, true);
            None
        },
        Err(reason) => Some(join4("claim update ", command, ": ", reason.as_str())),
        Ok(true) => None,
    };
    vetoes.set(UNRESOLVED_CLAIM, has_unresolved(claims));
    discontinuity
}

/// What the owner has to do about an event of the ledger.
#[derive(Debug, Clone, Copy, PartialEq, Eq, Structural)]
pub enum Consequence {
    Nothing,
    /// A signal with a command is to be dispatched.
    Dispatch,
    /// A contract runs until this time.
    Due(i64),
    /// The command is over: its claim is reconciled.
    Over,
}

/// What the owner has to do about an event of the ledger.
pub open spec fn consequence_of(event: EventKind) -> Consequence {
    match event {
        EventKind::Signal(signal) => if signal.command is Some {
            Consequence::Dispatch
        } else {
            Consequence::Nothing
        },
        EventKind::Confirmed { expiry_micros: Some(expiry), .. } => Consequence::Due(expiry),
        EventKind::Settled { .. } => Consequence::Over,
        EventKind::Reconciled { resolution, .. } => if resolution is Purchased {
            Consequence::Nothing
        } else {
            Consequence::Over
        },
        _ => Consequence::Nothing,
    }
}

/// The liability that an event ties to a command.
pub open spec fn tied(event: EventKind) -> Option<(Seq<char>, String)> {
    match event {
        EventKind::Accepted { command, liability: Some(liability), .. } => Some(
            (liability.contract_ref@, command),
        ),
        EventKind::Reconciled {
            command,
            resolution: Resolution::Purchased { liability, .. },
            ..
        } => Some((liability.contract_ref@, command)),
        _ => None,
    }
}

/// The contracts of commands after an event.
pub open spec fn after_tie(contracts: Map<Seq<char>, String>, event: EventKind) -> Map<
    Seq<char>,
    String,
> {
    match tied(event) {
        Some((contract, command)) => contracts.insert(contract, command),
        None => contracts,
    }
}

/// Whether an event is evidence that cash and ledger disagree.
pub open spec fn disagrees(event: EventKind) -> bool {
    match event {
        EventKind::Accepted { liability, discrepancy, deficit, .. } => liability is Some && (
        discrepancy || deficit is Some),
        EventKind::Settled { discrepancy, deficit, .. } => discrepancy || deficit is Some,
        _ => false,
    }
}

/// Whether an event may change the compatibility receipt.
pub open spec fn bears_on_receipt(event: EventKind) -> bool {
    event is Accepted || event is Confirmed || event is Settled || event is Reconciled
        || event is Released || event is Unresolved || event is CashObserved
}

/// Whether an event may change the compatibility receipt.
pub fn changes_receipt(event: &FinancialEvent) -> (changes: bool)
    ensures
        changes == bears_on_receipt(event.kind),
{
    match &event.kind {
        EventKind::Accepted { .. } => true,
        EventKind::Confirmed { .. } => true,
        EventKind::Settled { .. } => true,
        EventKind::Reconciled { .. } => true,
        EventKind::Released { .. } => true,
        EventKind::Unresolved { .. } => true,
        EventKind::CashObserved { .. } => true,
        _ => false,
    }
}

fn tie(contracts: &mut Table<String>, event: &EventKind)
    ensures
        final(contracts)@ == after_tie(old(contracts)@, *event),
{
    match event {
        EventKind::Accepted { command, liability: Some(liability), .. } => {
            contracts.insert(liability.contract_ref.clone(), command.clone());
        },
        EventKind::Reconciled {
            command,
            resolution: Resolution::Purchased { liability, .. },
            ..
        } => {
            contracts.insert(liability.contract_ref.clone(), command.clone());
        },
        _ => {},
    }
}

/// Takes one event that the engine reports.
pub fn drained(contracts: &mut Table<String>, vetoes: &mut Vetoes, event: &FinancialEvent) -> (
consequence: Consequence)
    ensures
        consequence == consequence_of(event.kind),
        final(contracts)@ == after_tie(old(contracts)@, event.kind),
        final(vetoes)@ == (if disagrees(event.kind) {
            after_veto(old(vetoes)@, UNRESOLVED_EVIDENCE@, true)
        } else {
            old(vetoes)@
        }),
{
    tie(contracts, &event.kind);
    match &event.kind {
        EventKind::Signal(signal) => match &signal.command {
            Some(_) => Consequence::Dispatch,
            None => Consequence::Nothing,
        },
        EventKind::Accepted { liability: Some(_), discrepancy, deficit, .. } => {
            if *discrepancy || deficit.is_some() {
                vetoes.set(UNRESOLVED_EVIDENCE, true);
            }
            Consequence::Nothing
        },
        EventKind::Confirmed { expiry_micros: Some(expiry), .. } => Consequence::Due(*expiry),
        EventKind::Settled { discrepancy, deficit, .. } => {
            if *discrepancy || deficit.is_some() {
                vetoes.set(UNRESOLVED_EVIDENCE, true);
            }
            Consequence::Over
        },
        EventKind::Reconciled { resolution, .. } => match resolution {
            Resolution::Purchased { .. } => Consequence::Nothing,
            _ => Consequence::Over,
        },
        _ => Consequence::Nothing,
    }
}

/// What the owner has to do once the events that the engine handed over are recorded: the signals
/// that are dispatched, by their places, and whether the compatibility receipt is assessed anew.
#[derive(Debug)]
pub struct Handover {
    pub signals: Vec<usize>,
    pub assess: bool,
}

/// The places of the signals that are dispatched, among the first `count` events.
pub open spec fn dispatched(events: Seq<FinancialEvent>, count: nat) -> Seq<int>
    decreases count,
{
    if count == 0 {
        Seq::empty()
    } else {
        let before = dispatched(events, (count - 1) as nat);
        if consequence_of(events[count - 1].kind) is Dispatch {
            before.push(count - 1)
        } else {
            before
        }
    }
}

/// Decides what follows from the events that the engine handed over. While recorded evidence is
/// reproduced the receipt is not assessed.
pub fn handover(events: &Vec<FinancialEvent>, reproduced: bool) -> (follows: Handover)
    ensures
        follows.signals@.map_values(|place: usize| place as int) == dispatched(
            events@,
            events@.len(),
        ),
        follows.assess == (reproduced && exists|i: int|
            0 <= i < events@.len() && bears_on_receipt((#[trigger] events@[i]).kind)),
{
    let mut signals: Vec<usize> = Vec::new();
    let mut changed: bool = false;
    let mut i: usize = 0;
    assert(signals@.map_values(|place: usize| place as int) =~= Seq::empty());
    while i < events.len()
        invariant
            i <= events@.len(),
            signals@.map_values(|place: usize| place as int) == dispatched(events@, i as nat),
            changed == exists|j: int|
                0 <= j < i && bears_on_receipt((#[trigger] events@[j]).kind),
        decreases events@.len() - i,
    {
        let ghost before = signals@;
        let dispatch: bool = match &events[i].kind {
            EventKind::Signal(signal) => signal.command.is_some(),
            _ => false,
        };
        if dispatch {
            signals.push(i);
            assert(signals@.map_values(|place: usize| place as int) =~= before.map_values(
                |place: usize| place as int,
            ).push(i as int));
        }
        if changes_receipt(&events[i]) {
            changed = true;
            assert(bears_on_receipt(events@[i as int].kind));
        }
        i = i + 1;
    }
    Handover { signals, assess: reproduced && changed }
}

/// Vetoes entries while the engine blocks the account or a claim is unresolved, once all events
/// were taken.
pub fn after_drain(vetoes: &mut Vetoes, blocked: bool, claims: &Table<Claim>)
    ensures
        final(vetoes)@ == after_veto(
            after_veto(old(vetoes)@, UNRESOLVED_EVIDENCE@, blocked),
            UNRESOLVED_CLAIM@,
            some_unresolved(claims@),
        ),
{
    vetoes.set(UNRESOLVED_EVIDENCE, blocked);
    vetoes.set(UNRESOLVED_CLAIM, has_unresolved(claims));
}

/// Whether an event is the signal of a command.
pub open spec fn signals(event: FinancialEvent, command: Seq<char>) -> bool {
    event.kind matches EventKind::Signal(signal) && text_of(signal.command) == Some(command)
}

/// Whether an event is the signal of a command.
pub fn is_signal_of(event: &FinancialEvent, command: &str) -> (found: bool)
    ensures
        found == signals(*event, command@),
{
    match &event.kind {
        EventKind::Signal(signal) => match &signal.command {
            Some(id) => same_text(id.as_str(), command),
            None => false,
        },
        _ => false,
    }
}

/// Whether an event says that a command may have been sent.
pub open spec fn doubts(event: FinancialEvent, command: Seq<char>) -> bool {
    event.kind matches EventKind::PossiblySent { command: id } && id@ == command
}

/// Whether a ledger says that a command may have been sent.
pub open spec fn doubted(ledger: Seq<FinancialEvent>, command: Seq<char>) -> bool {
    exists|i: int| 0 <= i < ledger.len() && doubts(#[trigger] ledger[i], command)
}

/// Whether a ledger says that a command may have been sent.
pub fn possibly_sent(ledger: &Vec<FinancialEvent>, command: &str) -> (found: bool)
    ensures
        found == doubted(ledger@, command@),
{
    let mut i: usize = 0;
    while i < ledger.len()
        invariant
            i <= ledger@.len(),
            forall|j: int| 0 <= j < i ==> !doubts(#[trigger] ledger@[j], command@),
        decreases ledger@.len() - i,
    {
        let found: bool = match &ledger[i].kind {
            EventKind::PossiblySent { command: id } => same_text(id.as_str(), command),
            _ => false,
        };
        if found {
            assert(doubts(ledger@[i as int], command@));
            return true;
        }
        i = i + 1;
    }
    false
}

/// Whether a record commits a command to be written.
pub open spec fn commits(record: Record, command: Seq<char>) -> bool {
    match record.kind {
        RecordKind::Claimed { command: id, .. } => id@ == command,
        RecordKind::Written { command: id, .. } => id@ == command,
        _ => false,
    }
}

/// Whether a journal commits a command to be written.
pub open spec fn committed_in(records: Seq<Record>, command: Seq<char>) -> bool {
    exists|i: int| 0 <= i < records.len() && commits(#[trigger] records[i], command)
}

/// Whether a journal commits a command to be written.
pub fn committed(records: &Vec<Record>, command: &str) -> (found: bool)
    ensures
        found == committed_in(records@, command@),
{
    let mut i: usize = 0;
    while i < records.len()
        invariant
            i <= records@.len(),
            forall|j: int| 0 <= j < i ==> !commits(#[trigger] records@[j], command@),
        decreases records@.len() - i,
    {
        let found: bool = match &records[i].kind {
            RecordKind::Claimed { command: id, .. } => same_text(id.as_str(), command),
            RecordKind::Written { command: id, .. } => same_text(id.as_str(), command),
            _ => false,
        };
        if found {
            assert(commits(records@[i as int], command@));
            return true;
        }
        i = i + 1;
    }
    false
}

/// Whether a ledger holds the signal of a command.
pub open spec fn signalled(ledger: Seq<FinancialEvent>, command: Seq<char>) -> bool {
    exists|i: int| 0 <= i < ledger.len() && signals(#[trigger] ledger[i], command)
}

fn has_signal(ledger: &Vec<FinancialEvent>, command: &str) -> (found: bool)
    ensures
        found == signalled(ledger@, command@),
{
    let mut i: usize = 0;
    while i < ledger.len()
        invariant
            i <= ledger@.len(),
            forall|j: int| 0 <= j < i ==> !signals(#[trigger] ledger@[j], command@),
        decreases ledger@.len() - i,
    {
        if is_signal_of(&ledger[i], command) {
            return true;
        }
        i = i + 1;
    }
    false
}

/// The veto that a claim of another deployment raises.
pub const FOREIGN_CLAIM: &'static str = "unresolved claim belongs to another deployment";

/// The signal of a claim as the next event of a ledger.
pub open spec fn signal_at(claim: Claim, sequence: u64) -> FinancialEvent {
    FinancialEvent { sequence, ..claim.signal }
}

/// Adopts a claim that the control database retains. A claim of this deployment whose signal the
/// ledger lost brings it back.
pub fn adopt(
    claims: &mut Table<Claim>,
    vetoes: &mut Vetoes,
    ledger: &mut Vec<FinancialEvent>,
    claim: Claim,
    deployment: &str,
) -> (restored: bool)
    ensures
        final(claims)@ == old(claims)@.insert(claim.command@, claim),
        final(vetoes)@ == (if claim.deployment@ != deployment@ {
            after_veto(old(vetoes)@, FOREIGN_CLAIM@, true)
        } else {
            old(vetoes)@
        }),
        restored == (claim.deployment@ == deployment@ && !signalled(
            old(ledger)@,
            claim.command@,
        )),
        final(ledger)@ == (if restored {
            old(ledger)@.push(signal_at(claim, old(ledger)@.len() as u64))
        } else {
            old(ledger)@
        }),
{
    let own: bool = same_text(claim.deployment.as_str(), deployment);
    let mut restored: bool = false;
    if !own {
        vetoes.set(FOREIGN_CLAIM, true);
    } else if !has_signal(ledger, claim.command.as_str()) {
        let mut signal = claim.signal.clone();
        signal.sequence = ledger.len() as u64;
        ledger.push(signal);
        restored = true;
    }
    let command = claim.command.clone();
    claims.insert(command, claim);
    restored
}

/// Which commands of a ledger are open, and which were accepted.
pub struct Standing {
    pub open: Set<Seq<char>>,
    pub accepted: Set<Seq<char>>,
    pub contracts: Map<Seq<char>, String>,
}

/// The command that an event closes.
pub open spec fn closes(event: EventKind) -> Option<Seq<char>> {
    match event {
        EventKind::Released { command, .. } => Some(command@),
        EventKind::Settled { command, .. } => Some(command@),
        EventKind::Reconciled { command, resolution, .. } => if resolution is Purchased {
            None
        } else {
            Some(command@)
        },
        _ => None,
    }
}

/// Where commands stand after one more event.
pub open spec fn after_standing(before: Standing, event: EventKind) -> Standing {
    match event {
        EventKind::Signal(signal) => match signal.command {
            Some(command) => Standing { open: before.open.insert(command@), ..before },
            None => before,
        },
        _ => match tied(event) {
            Some((contract, command)) => Standing {
                accepted: before.accepted.insert(command@),
                contracts: before.contracts.insert(contract, command),
                ..before
            },
            None => match closes(event) {
                Some(command) => Standing { open: before.open.remove(command), ..before },
                None => before,
            },
        },
    }
}

/// Where the commands of a ledger stand.
pub open spec fn standing_of(
    ledger: Seq<FinancialEvent>,
    contracts: Map<Seq<char>, String>,
) -> Standing
    decreases ledger.len(),
{
    if ledger.len() == 0 {
        Standing { open: Set::empty(), accepted: Set::empty(), contracts }
    } else {
        after_standing(standing_of(ledger.drop_last(), contracts), ledger.last().kind)
    }
}

/// Reads from a ledger which commands are open and which were accepted, and ties their
/// contracts.
pub fn standing(ledger: &Vec<FinancialEvent>, contracts: &mut Table<String>) -> (standing: (
    Table<()>,
    Table<()>,
))
    ensures
        standing.0@.dom() == standing_of(ledger@, old(contracts)@).open,
        standing.1@.dom() == standing_of(ledger@, old(contracts)@).accepted,
        final(contracts)@ == standing_of(ledger@, old(contracts)@).contracts,
{
    let ghost start = contracts@;
    let mut open: Table<()> = Table::new();
    let mut accepted: Table<()> = Table::new();
    let mut i: usize = 0;
    assert(ledger@.take(0) =~= Seq::empty());
    assert(open@.dom() =~= Set::empty());
    while i < ledger.len()
        invariant
            i <= ledger@.len(),
            open@.dom() == standing_of(ledger@.take(i as int), start).open,
            accepted@.dom() == standing_of(ledger@.take(i as int), start).accepted,
            contracts@ == standing_of(ledger@.take(i as int), start).contracts,
        decreases ledger@.len() - i,
    {
        let ghost before = standing_of(ledger@.take(i as int), start);
        assert(ledger@.take(i + 1).drop_last() =~= ledger@.take(i as int));
        assert(ledger@.take(i + 1).last() == ledger@[i as int]);
        tie(contracts, &ledger[i].kind);
        match &ledger[i].kind {
            EventKind::Signal(signal) => {
                if let Some(command) = &signal.command {
                    open.insert(command.clone(), ());
                }
            },
            EventKind::Accepted { command, liability: Some(_), .. } => {
                accepted.insert(command.clone(), ());
            },
            EventKind::Reconciled { command, resolution, .. } => match resolution {
                Resolution::Purchased { .. } => {
                    accepted.insert(command.clone(), ());
                },
                _ => {
                    let _ = open.remove(command.as_str());
                },
            },
            EventKind::Released { command, .. } => {
                let _ = open.remove(command.as_str());
            },
            EventKind::Settled { command, .. } => {
                let _ = open.remove(command.as_str());
            },
            _ => {},
        }
        i = i + 1;
        assert(open@.dom() =~= standing_of(ledger@.take(i as int), start).open);
        assert(accepted@.dom() =~= standing_of(ledger@.take(i as int), start).accepted);
        assert(contracts@ =~= standing_of(ledger@.take(i as int), start).contracts);
    }
    assert(ledger@.take(i as int) =~= ledger@);
    (open, accepted)
}

/// The open commands that no claim covers, in order.
pub fn orphans(open: &Table<()>, claims: &Table<Claim>) -> (list: Vec<String>)
    ensures
        views(list@) == in_order(open@.dom().difference(claims@.dom())),
{
    let count: usize = open.len();
    let mut found: Table<()> = Table::new();
    let mut i: usize = 0;
    while i < count
        invariant
            i <= count,
            count == open.keys().len(),
            found@.dom() == open.keys().take(i as int).to_set().difference(claims@.dom()),
        decreases count - i,
    {
        let ghost before = open.keys().take(i as int);
        let ghost after = open.keys().take(i + 1);
        let (command, _) = open.at(i);
        assert(after =~= before.push(command@));
        assert forall|text: Seq<char>| after.to_set().contains(text) == (
        before.to_set().contains(text) || text == command@) by {
            if before.contains(text) {
                let j = choose|j: int| 0 <= j < before.len() && before[j] == text;
                assert(after[j] == text);
            }
            if text == command@ {
                assert(after[i as int] == text);
            }
        }
        if !claims.contains(command) {
            found.insert(command.to_owned(), ());
        }
        i = i + 1;
        assert(found@.dom() =~= after.to_set().difference(claims@.dom()));
    }
    proof {
        assert(open.keys().take(i as int) =~= open.keys());
        assert(open.keys().to_set() =~= open@.dom());
        assert(found@.dom() =~= open@.dom().difference(claims@.dom()));
    }
    names_in_order(&found)
}

/// What becomes of an open command that no claim covers.
#[derive(Debug, Clone, Copy, PartialEq, Eq, Structural)]
pub enum OrphanFate {
    /// It was accepted: nothing is lost.
    Accepted,
    /// It may have been sent; the ledger is told so.
    Doubt,
    /// It may have been sent, as the ledger says already.
    Doubted,
    /// It was never committed, so it was not sent.
    NotSent,
}

/// The veto that a dispatch without a control row raises.
pub const MISSING_ROW: &'static str
    = "journaled dispatch has no control row; reconciliation required";

/// What becomes of an open command that no claim covers.
pub open spec fn orphan_fate(
    ledger: Seq<FinancialEvent>,
    records: Seq<Record>,
    accepted: Set<Seq<char>>,
    command: Seq<char>,
) -> OrphanFate {
    if accepted.contains(command) {
        OrphanFate::Accepted
    } else if doubted(ledger, command) {
        OrphanFate::Doubted
    } else if committed_in(records, command) {
        OrphanFate::Doubt
    } else {
        OrphanFate::NotSent
    }
}

/// Decides what becomes of an open command that no claim covers.
pub fn orphan(
    vetoes: &mut Vetoes,
    ledger: &Vec<FinancialEvent>,
    records: &Vec<Record>,
    accepted: &Table<()>,
    command: &str,
) -> (fate: OrphanFate)
    ensures
        fate == orphan_fate(ledger@, records@, accepted@.dom(), command@),
        final(vetoes)@ == (if fate is Doubt || fate is Doubted {
            after_veto(old(vetoes)@, MISSING_ROW@, true)
        } else {
            old(vetoes)@
        }),
{
    if accepted.contains(command) {
        return OrphanFate::Accepted;
    }
    let doubtful: bool = possibly_sent(ledger, command);
    if doubtful || committed(records, command) {
        vetoes.set(MISSING_ROW, true);
        if doubtful {
            OrphanFate::Doubted
        } else {
            OrphanFate::Doubt
        }
    } else {
        OrphanFate::NotSent
    }
}

/// What becomes of a claim of this deployment after a restart.
#[derive(Debug, Clone, Copy, PartialEq, Eq, Structural)]
pub enum ClaimFate {
    /// Its command is over.
    Reconciled,
    /// It is proven that its command was not sent.
    NotSent,
    /// Its command may have been sent; the ledger is told so if it does not say so.
    PossiblySent { tell: bool },
    /// Its command was accepted.
    Accepted,
}

/// What becomes of a claim of this deployment after a restart.
pub open spec fn claim_fate(
    state: ClaimState,
    open: bool,
    accepted: bool,
    doubted: bool,
) -> ClaimFate {
    if !open {
        ClaimFate::Reconciled
    } else if (state is NotSent || state is Rejected) && !accepted {
        ClaimFate::NotSent
    } else if !accepted {
        ClaimFate::PossiblySent { tell: !doubted }
    } else {
        ClaimFate::Accepted
    }
}

/// Decides what becomes of a claim after a restart; claims of other deployments are left alone.
pub fn recovered(
    claim: &Claim,
    deployment: &str,
    open: &Table<()>,
    accepted: &Table<()>,
    ledger: &Vec<FinancialEvent>,
) -> (fate: Option<ClaimFate>)
    ensures
        fate == (if claim.deployment@ != deployment@ {
            None
        } else {
            Some(
                claim_fate(
                    claim.state,
                    open@.dom().contains(claim.command@),
                    accepted@.dom().contains(claim.command@),
                    doubted(ledger@, claim.command@),
                ),
            )
        }),
{
    if !same_text(claim.deployment.as_str(), deployment) {
        return None;
    }
    let command = claim.command.as_str();
    let taken: bool = accepted.contains(command);
    if !open.contains(command) {
        Some(ClaimFate::Reconciled)
    } else if (claim.state == ClaimState::NotSent || claim.state == ClaimState::Rejected)
        && !taken {
        Some(ClaimFate::NotSent)
    } else if !taken {
        let doubtful: bool = possibly_sent(ledger, command);
        Some(ClaimFate::PossiblySent { tell: !doubtful })
    } else {
        Some(ClaimFate::Accepted)
    }
}

/// An ambiguous dispatch never becomes not sent merely because a restart lost its control row:
/// only a command that no record commits and no event doubts does.
pub proof fn a_committed_orphan_is_never_taken_for_unsent(
    ledger: Seq<FinancialEvent>,
    records: Seq<Record>,
    accepted: Set<Seq<char>>,
    command: Seq<char>,
)
    requires
        committed_in(records, command) || doubted(ledger, command),
    ensures
        orphan_fate(ledger, records, accepted, command) !is NotSent,
{
}

/// A claim is taken for unsent only on proof: its row says that it was not sent or was rejected.
pub proof fn a_claim_is_unsent_only_on_proof(
    state: ClaimState,
    open: bool,
    accepted: bool,
    doubted: bool,
)
    requires
        claim_fate(state, open, accepted, doubted) is NotSent,
    ensures
        state is NotSent || state is Rejected,
        !accepted,
{
}

/// Whether a claim is among others whose purchase may have been sent.
pub open spec fn possibly_sent_among(claims: Map<Seq<char>, Claim>) -> bool {
    exists|command: Seq<char>|
        claims.dom().contains(command) && (#[trigger] claims[command]).state is PossiblySent
}

/// What an unresolved row of the control database tells.
#[derive(Debug, Clone, Copy, PartialEq, Eq, Structural)]
pub enum Refresh {
    Nothing,
    /// The operator has proven that the command was not sent.
    NotSent,
    /// The operator has given the broker's references.
    References,
}

/// What an unresolved row of the control database tells of a claim that may have been sent.
pub open spec fn refresh_of(
    claims: Map<Seq<char>, Claim>,
    row: Claim,
    deployment: Seq<char>,
) -> Refresh {
    if !claims.dom().contains(row.command@) || row.deployment@ != deployment
        || claims[row.command@].state !is PossiblySent {
        Refresh::Nothing
    } else if row.state is NotSent {
        Refresh::NotSent
    } else if row.state is Accepted {
        Refresh::References
    } else {
        Refresh::Nothing
    }
}

/// Reads an unresolved row of the control database. Given references are taken over; the claim
/// stays possibly sent until broker evidence matches them.
pub fn refresh(claims: &mut Table<Claim>, row: Claim, deployment: &str) -> (told: Refresh)
    ensures
        told == refresh_of(old(claims)@, row, deployment@),
        final(claims)@ == (if told is References {
            old(claims)@.insert(
                row.command@,
                Claim {
                    contract_ref: row.contract_ref,
                    transaction_ref: row.transaction_ref,
                    ..old(claims)@[row.command@]
                },
            )
        } else {
            old(claims)@
        }),
{
    let relevant: bool = match claims.get(row.command.as_str()) {
        Some(local) => local.state == ClaimState::PossiblySent && same_text(
            row.deployment.as_str(),
            deployment,
        ),
        None => false,
    };
    if !relevant {
        return Refresh::Nothing;
    }
    if row.state == ClaimState::NotSent {
        return Refresh::NotSent;
    }
    if row.state == ClaimState::Accepted {
        let ghost before = claims@;
        if let Some(local) = claims.remove(row.command.as_str()) {
            let mut updated = local;
            updated.contract_ref = row.contract_ref;
            updated.transaction_ref = row.transaction_ref;
            claims.insert(row.command, updated);
            assert(claims@ =~= before.insert(row.command@, updated));
        }
        return Refresh::References;
    }
    Refresh::Nothing
}

} // verus!
