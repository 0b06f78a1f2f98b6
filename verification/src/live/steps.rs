//! The steps of a dispatch and of a recovery: what the owner records, tells the engine, and asks
//! of the broker and of the control database, in this order.

use crate::live::claims::{ClaimFate, OrphanFate, Refresh};
use crate::live::control::{Claim, ClaimOutcome, ClaimState};
use crate::live::deployment::Mode;
use crate::live::dispatch::{
    admitted, age_limit_of, asks_for, binding_at, claim_of, claimed, claims_dispatch, contract_at,
    expired, find_binding, find_contract, is_expired, may_write, proposal_age_limit, purchase,
    routed, writes, Claimed, Dispatch, PreparedPurchase, Queue, Route, Written,
};
use crate::live::entries::{after_veto, Vetoes, LEASE_LOST, UNRESOLVED_CLAIM};
use crate::live::finance::{
    BrokerLiability, ContractTerms, Decimal, EventKind, EventSource, FinancialEvent, Outcome,
    Proposal, Resolution,
};
use crate::live::journal::RecordKind;
use crate::live::owner::proposal_veto;
use crate::live::receipt::{Binding, RiskPolicy};
use crate::live::reconcile::Match;
use crate::table::Table;
use crate::text::{append_signed, join, join3, refusal, signed_decimal, text_of};
use vstd::prelude::*;
use vstd::string::*;

verus! {

/// What the engine is told of a command.
#[derive(Debug)]
pub enum Told {
    NotSent { command: String, source: EventSource },
    PossiblySent { command: String, source: EventSource },
    Reconciliation { command: String, source: EventSource, resolution: Resolution },
}

/// One thing that the owner does.
#[derive(Debug)]
pub enum Action {
    /// The broker prepares a purchase.
    Prepare(PreparedPurchase),
    /// The control database makes a claim.
    Claim(Claim),
    /// The broker is sent the prepared purchase.
    Write,
    /// The engine is told what the broker made of the purchase.
    Outcome,
    /// The engine is told something else.
    Tell(Told),
    /// The journal records something.
    Record(RecordKind),
    /// A veto is raised.
    Veto(String),
    /// A claim is updated, here and in the control database.
    Update {
        command: String,
        state: ClaimState,
        contract_ref: Option<String>,
        transaction_ref: Option<String>,
    },
    /// The claims are read from the control database.
    Refresh,
    /// A contract is known as a command's.
    Tie { contract: String, command: String },
    /// The updates of a contract are subscribed to.
    Subscribe(String),
    /// A purchase is finished.
    Complete(String),
}

/// Whether a source is the owner's own, under this name.
pub open spec fn is_source(source: EventSource, id: Seq<char>, now: i64, mode: Mode) -> bool {
    &&& source.id@ == id
    &&& source.provider_time_micros == now
    &&& source.available_at_micros == now
    &&& source.simulated == (mode is Replay)
}

/// The owner's own evidence, under a name.
pub fn source(id: String, now: i64, mode: Mode) -> (source: EventSource)
    ensures
        is_source(source, id@, now, mode),
{
    EventSource {
        id,
        provider_time_micros: now,
        available_at_micros: now,
        simulated: mode == Mode::Replay,
    }
}

/// Whether the engine is told that a command was not sent.
pub open spec fn tells_not_sent(
    action: Action,
    command: Seq<char>,
    prefix: Seq<char>,
    now: i64,
    mode: Mode,
) -> bool {
    action matches Action::Tell(Told::NotSent { command: named, source }) && named@ == command
        && is_source(source, prefix + ":"@ + command, now, mode)
}

/// Whether the engine is told that a command may have been sent.
pub open spec fn tells_possibly_sent(
    action: Action,
    command: Seq<char>,
    id: Seq<char>,
    now: i64,
    mode: Mode,
) -> bool {
    action matches Action::Tell(Told::PossiblySent { command: named, source }) && named@ == command
        && is_source(source, id, now, mode)
}

/// Whether the engine is told, as a reconciliation, that a command was not sent.
pub open spec fn resolves_not_sent(
    action: Action,
    command: Seq<char>,
    prefix: Seq<char>,
    now: i64,
    mode: Mode,
) -> bool {
    action matches Action::Tell(Told::Reconciliation { command: named, source, resolution })
        && named@ == command && is_source(source, prefix + ":"@ + command, now, mode)
        && resolution is NotSent
}

/// Whether a claim is updated to a state, with these references.
pub open spec fn updates(
    action: Action,
    command: Seq<char>,
    state: ClaimState,
    contract_ref: Option<Seq<char>>,
    transaction_ref: Option<Seq<char>>,
) -> bool {
    action matches Action::Update { command: named, state: set, contract_ref: c, transaction_ref: t }
        && named@ == command && set == state && text_of(c) == contract_ref && text_of(t)
        == transaction_ref
}

/// Whether a veto is raised.
pub open spec fn raises(action: Action, reason: Seq<char>) -> bool {
    action matches Action::Veto(raised) && raised@ == reason
}

/// Whether the journal records a discontinuity.
pub open spec fn records_break(action: Action, reason: Seq<char>) -> bool {
    action matches Action::Record(RecordKind::Discontinuity { reason: noted }) && noted@ == reason
}

/// The preparation that follows a finished purchase.
pub open spec fn preparing(next: Option<PreparedPurchase>) -> Seq<Action> {
    match next {
        Some(next) => seq![Action::Prepare(next)],
        None => Seq::empty(),
    }
}

/// Whether actions begin with a preparation and go on with `rest` more.
pub open spec fn prepares_first(
    actions: Seq<Action>,
    next: Option<PreparedPurchase>,
    rest: nat,
) -> bool {
    actions.len() == preparing(next).len() + rest && actions.take(preparing(next).len() as int)
        == preparing(next)
}

/// Whether these actions give a purchase up: the next is prepared, and the engine is told that
/// the command was not sent.
pub open spec fn gives_up(
    actions: Seq<Action>,
    next: Option<PreparedPurchase>,
    command: Seq<char>,
    prefix: Seq<char>,
    now: i64,
    mode: Mode,
) -> bool {
    prepares_first(actions, next, 1) && tells_not_sent(actions.last(), command, prefix, now, mode)
}

fn tell_not_sent(command: &str, prefix: &str, now: i64, mode: Mode) -> (action: Action)
    ensures
        tells_not_sent(action, command@, prefix@, now, mode),
{
    let source = source(join3(prefix, ":", command), now, mode);
    Action::Tell(Told::NotSent { command: command.to_owned(), source })
}

fn tell_possibly_sent(command: &str, id: String, now: i64, mode: Mode) -> (action: Action)
    ensures
        tells_possibly_sent(action, command@, id@, now, mode),
{
    Action::Tell(
        Told::PossiblySent { command: command.to_owned(), source: source(id, now, mode) },
    )
}

/// Resolves a command that was not sent: the engine is told, as a reconciliation.
pub fn resolve_not_sent(command: &str, prefix: &str, now: i64, mode: Mode) -> (action: Action)
    ensures
        resolves_not_sent(action, command@, prefix@, now, mode),
{
    let source = source(join3(prefix, ":", command), now, mode);
    Action::Tell(
        Told::Reconciliation {
            command: command.to_owned(),
            source,
            resolution: Resolution::NotSent,
        },
    )
}

fn update(command: &str, state: ClaimState) -> (action: Action)
    ensures
        updates(action, command@, state, None, None),
{
    Action::Update { command: command.to_owned(), state, contract_ref: None, transaction_ref: None }
}

fn prepare_next(next: Option<PreparedPurchase>) -> (actions: Vec<Action>)
    ensures
        actions@ == preparing(next),
{
    let mut actions: Vec<Action> = Vec::new();
    if let Some(next) = next {
        actions.push(Action::Prepare(next));
        assert(actions@ =~= seq![Action::Prepare(next)]);
    } else {
        assert(actions@ =~= Seq::<Action>::empty());
    }
    actions
}

/// Gives a purchase up: it was not sent.
pub fn not_sent(queue: &mut Queue, command: &str, prefix: &str, now: i64, mode: Mode) -> (actions:
    Vec<Action>)
    requires
        old(queue).can_complete(command@),
    ensures
        old(queue).completed(*final(queue), command@),
        gives_up(actions@, old(queue).next_after(command@), command@, prefix@, now, mode),
{
    let mut actions = prepare_next(queue.complete(command));
    let ghost before = actions@;
    actions.push(tell_not_sent(command, prefix, now, mode));
    assert(actions@.take(before.len() as int) =~= before);
    actions
}

/// Dispatches a signal of the engine: in a run that only observes, or while entries are disabled,
/// it is not sent; otherwise its purchase is queued.
pub fn dispatch(
    queue: &mut Queue,
    signal: FinancialEvent,
    deployment: &str,
    enabled: bool,
    now: i64,
    mode: Mode,
) -> (actions: Result<Vec<Action>, String>)
    requires
        admitted(signal) matches Some((command, _)) ==> old(queue).can_complete(command),
    ensures
        refusal(actions) == (if admitted(signal) is None {
            Some("live: dispatch requires an admitted broker signal"@)
        } else {
            None
        }),
        actions is Err ==> *final(queue) == *old(queue),
        actions matches Ok(actions) ==> {
            let (command, _) = admitted(signal)->0;
            match routed(mode, enabled) {
                Route::Paper => {
                    &&& old(queue).completed(*final(queue), command)
                    &&& gives_up(
                        actions@,
                        old(queue).next_after(command),
                        command,
                        "paper"@,
                        now,
                        mode,
                    )
                },
                Route::Disabled => {
                    &&& old(queue).completed(*final(queue), command)
                    &&& gives_up(
                        actions@,
                        old(queue).next_after(command),
                        command,
                        "entry-disabled"@,
                        now,
                        mode,
                    )
                },
                Route::Queue => {
                    let queued = final(queue).dispatches@[command];
                    &&& asks_for(signal, deployment@, queued.prepared)
                    &&& queued.signal == signal
                    &&& queued.claim_at is None
                    &&& final(queue).dispatches@ == old(queue).dispatches@.insert(command, queued)
                    &&& final(queue).line() == old(queue).line().push(command)
                    &&& actions@ == preparing(
                        if old(queue).line().len() == 0 {
                            Some(queued.prepared)
                        } else {
                            None
                        },
                    )
                },
            }
        },
{
    let prepared = match purchase(&signal, deployment) {
        Ok(prepared) => prepared,
        Err(error) => {
            return Err(error);
        },
    };
    if mode == Mode::Paper {
        return Ok(not_sent(queue, prepared.command.as_str(), "paper", now, mode));
    }
    if !enabled {
        return Ok(not_sent(queue, prepared.command.as_str(), "entry-disabled", now, mode));
    }
    Ok(prepare_next(queue.push(signal, prepared)))
}

/// The broker could not prepare a purchase: it is given up.
pub fn preparation_failed(queue: &mut Queue, command: &str, now: i64, mode: Mode) -> (actions: Vec<
    Action,
>)
    requires
        old(queue).can_complete(command@),
    ensures
        old(queue).completed(*final(queue), command@),
        gives_up(
            actions@,
            old(queue).next_after(command@),
            command@,
            "prepare-failed"@,
            now,
            mode,
        ),
{
    not_sent(queue, command, "prepare-failed", now, mode)
}

/// The binding and the proposal of a signal that has one.
pub open spec fn offered(signal: FinancialEvent) -> Option<(Seq<char>, Proposal)> {
    match signal.kind {
        EventKind::Signal(signal) => match signal.proposal {
            Some(proposal) => Some((signal.binding@, proposal)),
            None => None,
        },
        _ => None,
    }
}

/// Why a prepared purchase cannot go on.
pub open spec fn preparation_refusal(queue: Queue, command: Seq<char>) -> Option<Seq<char>> {
    if !queue.dispatches@.dom().contains(command) {
        Some("live: prepared reply without command"@)
    } else if offered(queue.dispatches@[command].signal) is None {
        Some("live: missing dispatch proposal"@)
    } else {
        None
    }
}

/// The broker has prepared a purchase: its claim is made, unless entries were disabled or the
/// offer or the lease ran out meanwhile.
pub fn prepared(
    queue: &mut Queue,
    command: &str,
    bindings: &Vec<Binding>,
    risks: &Vec<RiskPolicy>,
    deployment: &str,
    token: u64,
    enabled: bool,
    now: i64,
    local_now: i64,
    deadline: i64,
    mode: Mode,
) -> (actions: Result<Vec<Action>, String>)
    requires
        old(queue).can_complete(command@),
        preparation_refusal(*old(queue), command@) is None && enabled ==> age_limit_of(
            bindings@,
            risks@,
            (offered(old(queue).dispatches@[command@].signal)->0).0,
        ) is Some,
    ensures
        refusal(actions) == preparation_refusal(*old(queue), command@),
        actions is Err ==> *final(queue) == *old(queue),
        actions matches Ok(actions) ==> {
            let dispatch = old(queue).dispatches@[command@];
            let (binding, proposal) = offered(dispatch.signal)->0;
            let limit = age_limit_of(bindings@, risks@, binding)->0;
            let next = old(queue).next_after(command@);
            if !enabled {
                &&& old(queue).completed(*final(queue), command@)
                &&& gives_up(
                    actions@,
                    next,
                    command@,
                    "entry-disabled-after-prepare"@,
                    now,
                    mode,
                )
            } else if is_expired(now, proposal.receipt_micros, limit, local_now, deadline) {
                &&& old(queue).completed(*final(queue), command@)
                &&& actions@.len() > 0
                &&& gives_up(
                    actions@.drop_last(),
                    next,
                    command@,
                    "claim-boundary-expired"@,
                    now,
                    mode,
                )
                &&& raises(actions@.last(), proposal_veto(binding))
            } else {
                &&& *final(queue) == *old(queue)
                &&& actions@.len() == 1
                &&& actions@[0] matches Action::Claim(claim)
                &&& claims_dispatch(claim, command@, dispatch, deployment@, token, limit)
            }
        },
{
    let (claim, receipt_micros, binding) = match queue.dispatches.get(command) {
        Some(dispatch) => match &dispatch.signal.kind {
            EventKind::Signal(signal) => match &signal.proposal {
                Some(proposal) => {
                    let limit: i64 = match proposal_age_limit(
                        bindings,
                        risks,
                        signal.binding.as_str(),
                    ) {
                        Some(limit) => limit,
                        None => 0,
                    };
                    (
                        claim_of(command, dispatch, deployment, token, limit),
                        proposal.receipt_micros,
                        signal.binding.clone(),
                    )
                },
                None => {
                    return Err("live: missing dispatch proposal".to_owned());
                },
            },
            _ => {
                return Err("live: missing dispatch proposal".to_owned());
            },
        },
        None => {
            return Err("live: prepared reply without command".to_owned());
        },
    };
    if !enabled {
        return Ok(not_sent(queue, command, "entry-disabled-after-prepare", now, mode));
    }
    if expired(now, receipt_micros, claim.max_proposal_age_micros, local_now, deadline) {
        let mut actions = not_sent(queue, command, "claim-boundary-expired", now, mode);
        let ghost before = actions@;
        actions.push(Action::Veto(join("proposal unavailable: ", binding.as_str())));
        assert(actions@.drop_last() =~= before);
        return Ok(actions);
    }
    let mut actions: Vec<Action> = Vec::new();
    actions.push(Action::Claim(claim));
    Ok(actions)
}

/// Whether the journal records that a claim was made.
pub open spec fn records_claim(action: Action, claim: Claim) -> bool {
    action matches Action::Record(RecordKind::Claimed { command, claim: made, token }) && command@
        == claim.command@ && made@ == claim.claim@ && token == claim.token
}

/// The control database has answered a claim. Only an inserted claim lets the purchase go on; any
/// other answer finishes it here, and unless the lease was lost the command may have been sent by
/// an earlier owner, or stands in doubt until the claims are read again.
pub fn claim_answered(
    queue: &mut Queue,
    claims: &mut Table<Claim>,
    vetoes: &mut Vetoes,
    claim: Claim,
    answer: Result<ClaimOutcome, String>,
    now: i64,
    mode: Mode,
) -> (actions: Vec<Action>)
    requires
        old(queue).can_complete(claim.command@),
    ensures
        ({
            let command = claim.command@;
            let next = old(queue).next_after(command);
            let rest = actions@.skip(preparing(next).len() as int);
            match answer {
                Ok(ClaimOutcome::Inserted) => {
                    &&& final(claims)@ == old(claims)@.insert(command, claim)
                    &&& final(vetoes)@ == old(vetoes)@
                    &&& final(queue).line() == old(queue).line()
                    &&& final(queue).dispatches@ == (if old(queue).dispatches@.dom().contains(
                        command,
                    ) {
                        old(queue).dispatches@.insert(
                            command,
                            Dispatch {
                                claim_at: Some(now),
                                ..old(queue).dispatches@[command]
                            },
                        )
                    } else {
                        old(queue).dispatches@
                    })
                    &&& actions@.len() == 1
                    &&& records_claim(actions@[0], claim)
                },
                Ok(ClaimOutcome::LeaseLost) => {
                    &&& final(claims)@ == old(claims)@
                    &&& final(vetoes)@ == after_veto(old(vetoes)@, LEASE_LOST@, true)
                    &&& old(queue).completed(*final(queue), command)
                    &&& gives_up(actions@, next, command, "claim-lease-lost"@, now, mode)
                },
                Ok(ClaimOutcome::Replay(existing)) => {
                    &&& final(claims)@ == old(claims)@.insert(
                        command,
                        Claim { state: ClaimState::PossiblySent, ..existing },
                    )
                    &&& final(vetoes)@ == after_veto(old(vetoes)@, UNRESOLVED_CLAIM@, true)
                    &&& old(queue).completed(*final(queue), command)
                    &&& prepares_first(actions@, next, 1)
                    &&& tells_possibly_sent(
                        rest[0],
                        command,
                        "claim-replay:"@ + command,
                        now,
                        mode,
                    )
                },
                Err(error) => {
                    &&& final(claims)@ == old(claims)@.insert(
                        command,
                        Claim { state: ClaimState::PossiblySent, ..claim },
                    )
                    &&& final(vetoes)@ == after_veto(old(vetoes)@, UNRESOLVED_CLAIM@, true)
                    &&& old(queue).completed(*final(queue), command)
                    &&& prepares_first(actions@, next, 4)
                    &&& records_break(rest[0], "claim commit uncertain: "@ + error@)
                    &&& tells_possibly_sent(
                        rest[1],
                        command,
                        "claim-uncertain:"@ + command,
                        now,
                        mode,
                    )
                    &&& rest[2] is Refresh
                    &&& resolves_not_sent(rest[3], command, "claim-commit-no-write"@, now, mode)
                },
            }
        }),
{
    let command = claim.command.clone();
    let made = claim.claim.clone();
    let token: u64 = claim.token;
    match claimed(claims, vetoes, claim, answer) {
        Claimed::Inserted => {
            queue.note_claim(command.as_str(), now);
            let mut actions: Vec<Action> = Vec::new();
            actions.push(Action::Record(RecordKind::Claimed { command, claim: made, token }));
            actions
        },
        Claimed::LeaseLost => not_sent(queue, command.as_str(), "claim-lease-lost", now, mode),
        Claimed::Replayed => {
            let mut actions = prepare_next(queue.complete(command.as_str()));
            let ghost first = actions@;
            let id = join("claim-replay:", command.as_str());
            actions.push(tell_possibly_sent(command.as_str(), id, now, mode));
            assert(actions@.take(first.len() as int) =~= first);
            actions
        },
        Claimed::Uncertain(reason) => {
            let mut actions = prepare_next(queue.complete(command.as_str()));
            let ghost first = actions@;
            actions.push(Action::Record(RecordKind::Discontinuity { reason }));
            let id = join("claim-uncertain:", command.as_str());
            actions.push(tell_possibly_sent(command.as_str(), id, now, mode));
            actions.push(Action::Refresh);
            actions.push(resolve_not_sent(command.as_str(), "claim-commit-no-write", now, mode));
            assert(actions@.take(first.len() as int) =~= first);
            actions
        },
    }
}

/// The terms that a claimed purchase is written under: those of the assessed baseline, and those
/// of the request template.
pub open spec fn terms_of(
    bindings: Seq<Binding>,
    baseline: Seq<ContractTerms>,
    contracts: Seq<ContractTerms>,
    binding: Seq<char>,
) -> Option<(ContractTerms, ContractTerms)> {
    match binding_at(bindings, binding) {
        Some(at) => match (
            contract_at(baseline, bindings[at].contract@),
            contract_at(contracts, bindings[at].contract@),
        ) {
            (Some(b), Some(c)) => Some((baseline[b], contracts[c])),
            _ => None,
        },
        None => None,
    }
}

/// Whether the journal records that a purchase is written.
pub open spec fn records_write(action: Action, command: Seq<char>, claim: Seq<char>) -> bool {
    action matches Action::Record(RecordKind::Written { command: named, claim: made }) && named@
        == command && made@ == claim
}

/// The claim is made. The purchase is recorded and then written, unless its offer is not the
/// assessed one or ran out, or the lease did: then the claim is closed as one that was not sent.
pub fn after_claim(
    queue: &mut Queue,
    command: &str,
    bindings: &Vec<Binding>,
    baseline: &Vec<ContractTerms>,
    contracts: &Vec<ContractTerms>,
    max_age: i64,
    now: i64,
    local_now: i64,
    deadline: i64,
    mode: Mode,
) -> (actions: Vec<Action>)
    requires
        old(queue).can_complete(command@),
        preparation_refusal(*old(queue), command@) is None,
        terms_of(
            bindings@,
            baseline@,
            contracts@,
            (offered(old(queue).dispatches@[command@].signal)->0).0,
        ) is Some,
    ensures
        ({
            let dispatch = old(queue).dispatches@[command@];
            let (binding, proposal) = offered(dispatch.signal)->0;
            let (assessed, template) = terms_of(bindings@, baseline@, contracts@, binding)->0;
            let over = is_expired(now, proposal.receipt_micros, max_age, local_now, deadline);
            let next = old(queue).next_after(command@);
            let told = preparing(next).len() as int + 1;
            if may_write(Claimed::Inserted, proposal, assessed, template, over) {
                &&& *final(queue) == *old(queue)
                &&& actions@.len() == 2
                &&& records_write(actions@[0], command@, dispatch.prepared.dispatch_claim@)
                &&& actions@[1] is Write
            } else {
                &&& old(queue).completed(*final(queue), command@)
                &&& actions@.len() == told + 3
                &&& updates(actions@[0], command@, ClaimState::NotSent, None, None)
                &&& actions@.subrange(1, told) == preparing(next)
                &&& tells_not_sent(actions@[told], command@, "write-boundary-expired"@, now, mode)
                &&& updates(actions@[told + 1], command@, ClaimState::Reconciled, None, None)
                &&& raises(actions@[told + 2], proposal_veto(binding))
            }
        }),
{
    let mut actions: Vec<Action> = Vec::new();
    let mut unavailable = String::new();
    let mut write: bool = false;
    if let Some(dispatch) = queue.dispatches.get(command) {
        if let EventKind::Signal(signal) = &dispatch.signal.kind {
            if let Some(proposal) = &signal.proposal {
                let over: bool = expired(
                    now,
                    proposal.receipt_micros,
                    max_age,
                    local_now,
                    deadline,
                );
                if let Some(at) = find_binding(bindings, signal.binding.as_str()) {
                    let contract = bindings[at].contract.as_str();
                    if let (Some(b), Some(c)) = (
                        find_contract(baseline, contract),
                        find_contract(contracts, contract),
                    ) {
                        write =
                        writes(&Claimed::Inserted, proposal, &baseline[b], &contracts[c], over);
                    }
                }
                unavailable = join("proposal unavailable: ", signal.binding.as_str());
                if write {
                    actions.push(
                        Action::Record(
                            RecordKind::Written {
                                command: command.to_owned(),
                                claim: dispatch.prepared.dispatch_claim.clone(),
                            },
                        ),
                    );
                }
            }
        }
    }
    if write {
        actions.push(Action::Write);
        return actions;
    }
    actions.push(update(command, ClaimState::NotSent));
    let ghost first = actions@;
    let mut given_up = not_sent(queue, command, "write-boundary-expired", now, mode);
    let ghost middle = given_up@;
    actions.append(&mut given_up);
    actions.push(update(command, ClaimState::Reconciled));
    actions.push(Action::Veto(unavailable));
    proof {
        let n = middle.len() as int;
        assert(actions@.subrange(1, n) =~= middle.take(n - 1));
        assert(actions@[n] == middle.last());
    }
    actions
}

/// The broker has answered a purchase that was written. The engine and the claim learn the
/// outcome; a purchase that was not made closes its claim, one that was made is followed, and the
/// next is prepared.
pub fn write_answered(command: &str, after: &Written) -> (actions: Vec<Action>)
    ensures
        ({
            let doubt: int = if after.state is PossiblySent {
                1
            } else {
                0
            };
            let closed: int = if after.reconciled {
                1
            } else {
                0
            };
            let followed: int = if after.contract_ref is Some {
                1
            } else {
                0
            };
            &&& actions@.len() == 3 + doubt + closed + followed
            &&& actions@[0] is Outcome
            &&& updates(
                actions@[1],
                command@,
                after.state,
                text_of(after.contract_ref),
                text_of(after.transaction_ref),
            )
            &&& doubt == 1 ==> raises(actions@[2], UNRESOLVED_CLAIM@)
            &&& closed == 1 ==> updates(
                actions@[2 + doubt],
                command@,
                ClaimState::Reconciled,
                None,
                None,
            )
            &&& followed == 1 ==> (actions@[2 + doubt + closed] matches Action::Subscribe(contract)
                && Some(contract@) == text_of(after.contract_ref))
            &&& actions@.last() matches Action::Complete(done)
            &&& done@ == command@
        }),
{
    let mut actions: Vec<Action> = Vec::new();
    actions.push(Action::Outcome);
    actions.push(
        Action::Update {
            command: command.to_owned(),
            state: after.state,
            contract_ref: after.contract_ref.clone(),
            transaction_ref: after.transaction_ref.clone(),
        },
    );
    if after.state == ClaimState::PossiblySent {
        actions.push(Action::Veto(UNRESOLVED_CLAIM.to_owned()));
    }
    if after.reconciled {
        actions.push(update(command, ClaimState::Reconciled));
    }
    if let Some(contract) = &after.contract_ref {
        actions.push(Action::Subscribe(contract.clone()));
    }
    actions.push(Action::Complete(command.to_owned()));
    actions
}

/// What is done about an open command that no claim covers.
pub fn orphan_steps(queue: &mut Queue, fate: OrphanFate, command: &str, now: i64, mode: Mode) -> (
actions: Vec<Action>)
    requires
        old(queue).can_complete(command@),
    ensures
        match fate {
            OrphanFate::Accepted => actions@.len() == 0 && *final(queue) == *old(queue),
            OrphanFate::Doubted => actions@.len() == 0 && *final(queue) == *old(queue),
            OrphanFate::Doubt => {
                &&& *final(queue) == *old(queue)
                &&& actions@.len() == 1
                &&& tells_possibly_sent(
                    actions@[0],
                    command@,
                    "recovery-missing-claim:"@ + command@,
                    now,
                    mode,
                )
            },
            OrphanFate::NotSent => {
                &&& old(queue).completed(*final(queue), command@)
                &&& gives_up(
                    actions@,
                    old(queue).next_after(command@),
                    command@,
                    "recovery-before-claim"@,
                    now,
                    mode,
                )
            },
        },
{
    let mut actions: Vec<Action> = Vec::new();
    match fate {
        OrphanFate::Accepted => {},
        OrphanFate::Doubted => {},
        OrphanFate::Doubt => {
            let id = join("recovery-missing-claim:", command);
            actions.push(tell_possibly_sent(command, id, now, mode));
        },
        OrphanFate::NotSent => {
            return not_sent(queue, command, "recovery-before-claim", now, mode);
        },
    }
    actions
}

/// What is done about a claim after a restart. A claim of another deployment has no fate here.
pub fn claim_steps(claim: &Claim, fate: Option<ClaimFate>, now: i64, mode: Mode) -> (actions: Vec<
    Action,
>)
    ensures
        match fate {
            None => actions@.len() == 0,
            Some(ClaimFate::Accepted) => actions@.len() == 0,
            Some(ClaimFate::Reconciled) => actions@.len() == 1 && updates(
                actions@[0],
                claim.command@,
                ClaimState::Reconciled,
                None,
                None,
            ),
            Some(ClaimFate::NotSent) => actions@.len() == 1 && resolves_not_sent(
                actions@[0],
                claim.command@,
                "recovery-proven-not-sent"@,
                now,
                mode,
            ),
            Some(ClaimFate::PossiblySent { tell }) => {
                &&& actions@.len() == (if tell {
                    2int
                } else {
                    1int
                })
                &&& tell ==> tells_possibly_sent(
                    actions@[0],
                    claim.command@,
                    "recovery-uncertain:"@ + claim.claim@,
                    now,
                    mode,
                )
                &&& updates(
                    actions@.last(),
                    claim.command@,
                    ClaimState::PossiblySent,
                    None,
                    None,
                )
            },
        },
{
    let command = claim.command.as_str();
    let mut actions: Vec<Action> = Vec::new();
    match fate {
        None => {},
        Some(ClaimFate::Accepted) => {},
        Some(ClaimFate::Reconciled) => {
            actions.push(update(command, ClaimState::Reconciled));
        },
        Some(ClaimFate::NotSent) => {
            actions.push(resolve_not_sent(command, "recovery-proven-not-sent", now, mode));
        },
        Some(ClaimFate::PossiblySent { tell }) => {
            if tell {
                let id = join("recovery-uncertain:", claim.claim.as_str());
                actions.push(tell_possibly_sent(command, id, now, mode));
            }
            actions.push(update(command, ClaimState::PossiblySent));
        },
    }
    actions
}

/// What is done about an unresolved row of the control database.
pub fn refresh_steps(told: Refresh, command: &str, now: i64, mode: Mode) -> (actions: Vec<Action>)
    ensures
        actions@.len() == (if told is NotSent {
            1int
        } else {
            0int
        }),
        told is NotSent ==> resolves_not_sent(
            actions@[0],
            command@,
            "operator-not-sent"@,
            now,
            mode,
        ),
{
    let mut actions: Vec<Action> = Vec::new();
    if told == Refresh::NotSent {
        actions.push(resolve_not_sent(command, "operator-not-sent", now, mode));
    }
    actions
}

/// Whether the engine is told that a command bought this.
pub open spec fn tells_purchase(
    action: Action,
    claim: Claim,
    debit: Decimal,
    liability: BrokerLiability,
    now: i64,
    mode: Mode,
) -> bool {
    action matches Action::Tell(Told::Reconciliation { command, source, resolution }) && command@
        == claim.command@ && is_source(source, "recovery-purchase:"@ + claim.claim@, now, mode)
        && resolution == (Resolution::Purchased { debit, liability })
}

/// Whether this is what is done about a claim that reconciliation has looked for.
pub open spec fn acts_on_match(
    actions: Seq<Action>,
    claim: Claim,
    found: Match,
    now: i64,
    mode: Mode,
) -> bool {
    match found {
        Match::Purchased(debit, liability) => {
            &&& actions.len() == 4
            &&& tells_purchase(actions[0], claim, debit, liability, now, mode)
            &&& actions[1] matches Action::Tie { contract, command }
            &&& contract@ == liability.contract_ref@
            &&& command@ == claim.command@
            &&& updates(
                actions[2],
                claim.command@,
                ClaimState::Accepted,
                Some(liability.contract_ref@),
                Some(liability.transaction_ref@),
            )
            &&& actions[3] matches Action::Subscribe(subscribed)
            &&& subscribed@ == liability.contract_ref@
        },
        _ => actions.len() == 0,
    }
}

/// What is done about a claim that reconciliation has looked for. A purchase that is found is the
/// claim's; a claim with none or several stays possibly sent.
pub fn match_steps(
    claims: &mut Table<Claim>,
    claim: &Claim,
    found: Match,
    now: i64,
    mode: Mode,
) -> (actions: Vec<Action>)
    ensures
        match found {
            Match::Ambiguous => final(claims)@ == (if old(claims)@.dom().contains(claim.command@) {
                old(claims)@.insert(
                    claim.command@,
                    Claim { state: ClaimState::PossiblySent, ..old(claims)@[claim.command@] },
                )
            } else {
                old(claims)@
            }),
            _ => final(claims)@ == old(claims)@,
        },
        acts_on_match(actions@, *claim, found, now, mode),
{
    let mut actions: Vec<Action> = Vec::new();
    match found {
        Match::Skip => {},
        Match::Purchased(debit, liability) => {
            let contract = liability.contract_ref.clone();
            let transaction = liability.transaction_ref.clone();
            let id = join("recovery-purchase:", claim.claim.as_str());
            actions.push(
                Action::Tell(
                    Told::Reconciliation {
                        command: claim.command.clone(),
                        source: source(id, now, mode),
                        resolution: Resolution::Purchased { debit, liability },
                    },
                ),
            );
            actions.push(
                Action::Tie { contract: contract.clone(), command: claim.command.clone() },
            );
            actions.push(
                Action::Update {
                    command: claim.command.clone(),
                    state: ClaimState::Accepted,
                    contract_ref: Some(contract.clone()),
                    transaction_ref: Some(transaction),
                },
            );
            actions.push(Action::Subscribe(contract));
        },
        Match::Ambiguous => {
            let ghost before = claims@;
            if let Some(local) = claims.remove(claim.command.as_str()) {
                let mut doubtful = local;
                doubtful.state = ClaimState::PossiblySent;
                claims.insert(claim.command.clone(), doubtful);
                assert(claims@ =~= before.insert(claim.command@, doubtful));
            } else {
                assert(claims@ =~= before);
            }
        },
    }
    actions
}

/// Whether the engine is told that a contract of a command expired without a credit.
pub open spec fn is_zero_credit(
    told: Told,
    command: Seq<char>,
    expiry: i64,
    received: i64,
    now: i64,
    mode: Mode,
) -> bool {
    told matches Told::Reconciliation { command: named, source, resolution } && {
        &&& named@ == command
        &&& source.id@ == "zero-credit:"@ + command + ":"@ + signed_decimal(expiry as int)
        &&& source.provider_time_micros == now
        &&& source.available_at_micros == received
        &&& source.simulated == (mode is Replay)
        &&& resolution == (Resolution::Settled {
            outcome: Outcome::Loss,
            gross_return: Decimal { units: 0, scale: 0 },
            terminal_fee: Decimal { units: 0, scale: 0 },
        })
    }
}

/// The engine is told that a contract expired without a credit: it is a loss, known since the
/// statement that shows none was received.
pub fn zero_credit(command: &str, expiry: i64, received: i64, now: i64, mode: Mode) -> (told: Told)
    ensures
        is_zero_credit(told, command@, expiry, received, now, mode),
{
    let mut id = join3("zero-credit:", command, ":");
    append_signed(&mut id, expiry);
    Told::Reconciliation {
        command: command.to_owned(),
        source: EventSource {
            id,
            provider_time_micros: now,
            available_at_micros: received,
            simulated: mode == Mode::Replay,
        },
        resolution: Resolution::Settled {
            outcome: Outcome::Loss,
            gross_return: Decimal::zero(0),
            terminal_fee: Decimal::zero(0),
        },
    }
}

} // verus!
