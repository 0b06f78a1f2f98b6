//! What holds of every live run: its lease and claims, its vetoes, what it writes, and how it
//! recovers and ends.

use crate::live::authorization::{objection, same_authorization, Authorization, Bindings};
use crate::live::claims::{
    claim_fate, closes, committed_in, consequence_of, disagrees, dispatched, doubted,
    is_unresolved, orphan_fate, possibly_sent_among, refresh_of, standing_of, tied, ClaimFate,
    Consequence,
};
use crate::live::control::{
    acquire_answer, claim_answer, claim_refusal, claim_updated, delivered, later_faults,
    next_fault, older, open_claims, release_answer, renew_answer, update_answer, Books, Claim,
    ClaimOutcome, ClaimState, Fault, Holder, Lease, Stored,
};
use crate::live::dispatch::{
    admitted, asks_for, claims_dispatch, is_expired, may_write, routed, state_after, Claimed,
    Dispatch, PreparedPurchase, PurchaseOutcome, Queue,
};
use crate::live::due::{confirms, due_of, ended_by, expiry_of, instrument_of, ticked};
use crate::live::entries::{
    after_gates, Gates, AUTHORIZATION, BALANCE, CONTINUITY, DEADLINE, SPOOL, UNRESOLVED_CLAIM,
    WARMUP,
};
use crate::live::finance::{ContractTerms, EventKind, FinancialEvent, Proposal, Resolution};
use crate::live::ingress::{failure_after, reasons_after, Grant, Ingress};
use crate::live::journal::{Record, RecordKind};
use crate::live::lease::deadline_refusal;
use crate::live::opening::{evidence_of, history_refusal, judged, ledger_of, Expected};
use crate::live::owner::{
    after_failure, failure_of, fails_replay, BALANCE_UNAVAILABLE, BROKER_RECOVERY, TRANSACTIONS,
};
use crate::live::deployment::Mode;
use crate::live::reconcile::{holds_stranger, pays_nothing, Match, OpenContract, StatementRow};
use crate::live::shutdown::{ending_refusal, is_done, Ending};
use crate::live::statement::{after_match, delay_of, settled_at_zero, Covered, Matching};
use crate::live::steps::{
    acts_on_match, gives_up, is_zero_credit, preparing, Action, Told,
};
use crate::live::workers::Intent;
use crate::table::in_order;
use crate::text::{begins_with, text_of};
use vstd::prelude::*;

verus! {

/// A lease is mapped to the local clock exactly where its answer came no earlier than it was
/// asked for, the margin is not negative, and nothing overflows on the way.
pub proof fn a_lease_is_mapped_where_it_can_be(sent: i64, received: i64, lease: Lease, margin: i64)
    ensures
        ({
            let ttl = lease.expires_at_micros - lease.server_now_micros;
            let trip = received - sent;
            deadline_refusal(sent, received, lease, margin) is None <==> {
                &&& received >= sent
                &&& margin >= 0
                &&& trip <= i64::MAX
                &&& i64::MIN <= ttl <= i64::MAX
                &&& i64::MIN <= sent + ttl <= i64::MAX
                &&& i64::MIN <= sent + ttl - trip <= i64::MAX
                &&& i64::MIN <= sent + ttl - trip - margin <= i64::MAX
            }
        }),
{
}

/// A lease is granted exactly where its lifetime is positive, no lease is live, and the token can
/// grow: then under the next token, until its lifetime is over. While one is live, nothing is
/// granted.
pub proof fn a_lease_is_granted_where_none_is_live(lease: Option<Holder>, now: i64, ttl: i64)
    ensures
        ({
            let live = lease matches Some(held) && held.expires > now;
            let last = match lease {
                Some(held) => held.token as int,
                None => 0,
            };
            let answer = acquire_answer(lease, now, ttl);
            &&& answer matches Ok(Some(granted)) ==> granted.token == last + 1
                && granted.expires_at_micros == now + ttl && granted.server_now_micros == now
            &&& (answer matches Ok(Some(_))) <==> ttl > 0 && now + ttl <= i64::MAX && !live && last
                + 1 <= i64::MAX
            &&& answer == Ok::<Option<Lease>, Seq<char>>(None) <==> ttl > 0 && now + ttl
                <= i64::MAX && live
        }),
{
}

/// A lease is renewed exactly for its owner, under its token, while it lives; and is then held
/// under the same token for a whole lifetime more.
pub proof fn a_lease_is_renewed_for_its_holder(
    lease: Option<Holder>,
    owner: Seq<char>,
    token: u64,
    now: i64,
    ttl: i64,
)
    ensures
        ({
            let held = lease matches Some(held) && held.owner == owner && held.token == token
                && held.expires > now;
            let answer = renew_answer(lease, owner, token, now, ttl);
            &&& (answer matches Ok(Some(_))) <==> ttl > 0 && now + ttl <= i64::MAX && held
            &&& answer matches Ok(Some(renewed)) ==> renewed.token == token
                && renewed.expires_at_micros == now + ttl && renewed.server_now_micros == now
            &&& answer is Err <==> ttl <= 0 || now + ttl > i64::MAX
        }),
        release_answer(lease, owner, token) <==> (lease matches Some(held) && held.owner == owner
            && held.token == token),
{
}

/// A claim is fit exactly where it is bound to the lease's token and deployment, and its signal is
/// an admitted one with an offer and a reservation, of the claim's command, of this account, and
/// of an instrument of this broker that is the offer's own.
pub proof fn a_claim_is_bound_to_its_lease(
    claim: Claim,
    broker: Seq<char>,
    account: Seq<char>,
    token: u64,
    deployment: Seq<char>,
)
    ensures
        claim_refusal(claim, broker, account, token, deployment) is None <==> {
            &&& claim.token == token
            &&& claim.deployment@ == deployment
            &&& claim.claim@.len() > 0
            &&& claim.signal.kind matches EventKind::Signal(signal) && signal.disposition
                is Admitted && signal.reservation is Some && (signal.command matches Some(command)
                && command@ == claim.command@) && (signal.proposal matches Some(proposal)
                && proposal.account@ == account && proposal.instrument@ == signal.instrument@
                && begins_with(proposal.instrument@, broker + ":"@))
        },
{
}

/// A claim is made only by the holder of the live lease, and once: one that is there is answered
/// as it is stored. Anyone else is told that the lease is lost.
pub proof fn a_claim_is_inserted_once_by_the_holder(
    books: Books,
    broker: Seq<char>,
    account: Seq<char>,
    owner: Seq<char>,
    token: u64,
    now: i64,
    claim: Claim,
)
    ensures
        ({
            let held = books.lease matches Some(held) && held.owner == owner && held.token == token
                && held.expires > now;
            let answer = claim_answer(books, broker, account, owner, token, now, claim);
            let fit = held && claim_refusal(
                claim,
                broker,
                account,
                token,
                books.lease->0.deployment,
            ) is None;
            &&& answer == Ok::<ClaimOutcome, Seq<char>>(ClaimOutcome::LeaseLost) <==> !held
            &&& answer == Ok::<ClaimOutcome, Seq<char>>(ClaimOutcome::Inserted) <==> fit
                && !books.claims.dom().contains(claim.command@)
            &&& fit && books.claims.dom().contains(claim.command@) ==> answer == Ok::<
                ClaimOutcome,
                Seq<char>,
            >(ClaimOutcome::Replay(books.claims[claim.command@].claim))
        }),
        update_answer(books, owner, token, now, claim.command@) <==> (
        books.lease matches Some(held) && held.owner == owner && held.token == token
            && held.expires > now) && books.claims.dom().contains(claim.command@)
            && books.claims[claim.command@].claim.token <= token,
{
}

/// An update of a claim sets its state and replaces the references that are given, and leaves all
/// else as it was.
pub proof fn an_update_keeps_what_was_claimed(
    before: Claim,
    after: Claim,
    state: ClaimState,
    contract_ref: Option<Seq<char>>,
    transaction_ref: Option<Seq<char>>,
)
    requires
        claim_updated(before, after, state, contract_ref, transaction_ref),
    ensures
        after.state == state,
        after.command == before.command && after.claim == before.claim && after.deployment
            == before.deployment && after.token == before.token && after.signal == before.signal
            && after.max_proposal_age_micros == before.max_proposal_age_micros,
        contract_ref matches Some(given) ==> (after.contract_ref matches Some(kept) && kept@
            == given),
        contract_ref is None ==> text_of(after.contract_ref) == text_of(before.contract_ref),
        transaction_ref matches Some(given) ==> (after.transaction_ref matches Some(kept) && kept@
            == given),
        transaction_ref is None ==> text_of(after.transaction_ref) == text_of(
            before.transaction_ref,
        ),
{
}

/// A partition always answers so, a lost response never gives a result, and otherwise the result
/// comes as it is; faults are used up one by one.
pub proof fn faults_hide_results<T>(faults: Seq<Fault>, result: Result<T, Seq<char>>)
    ensures
        delivered(Some(Fault::Partition), result) is Err,
        delivered(Some(Fault::LoseResponse), result) is Err,
        delivered(None, result) == result,
        faults.len() > 0 ==> next_fault(faults) == Some(faults[0]) && later_faults(faults).len()
            == faults.len() - 1,
        faults.len() == 0 ==> next_fault(faults) is None && later_faults(faults) == faults,
        forall|i: int|
            0 <= i < faults.len() - 1 ==> #[trigger] later_faults(faults)[i] == faults[i + 1],
{
}

/// The open claims are those that are not reconciled; an older one was made earlier.
pub proof fn open_claims_are_not_reconciled(claims: Map<Seq<char>, Stored>, command: Seq<char>)
    ensures
        open_claims(claims).dom().contains(command) <==> claims.dom().contains(command) && !(
        claims[command].claim.state is Reconciled),
        open_claims(claims).dom().contains(command) ==> open_claims(claims)[command]
            == claims[command],
        forall|a: Stored, b: Stored| a.created < b.created ==> #[trigger] older(a, b),
        forall|a: Stored, b: Stored| a.created > b.created ==> !#[trigger] older(a, b),
{
}

/// Each gate alone raises or lifts its own reason, and no reason but theirs changes.
pub proof fn each_gate_has_its_reason(reasons: Set<Seq<char>>, gates: Gates, reason: Seq<char>)
    ensures
        after_gates(reasons, gates).contains(WARMUP@) <==> !gates.warm,
        after_gates(reasons, gates).contains(BALANCE@) <==> !gates.balance_reconciled,
        after_gates(reasons, gates).contains(DEADLINE@) <==> gates.local_now >= gates.deadline,
        after_gates(reasons, gates).contains(SPOOL@) <==> gates.spool_bytes
            >= gates.max_spool_bytes,
        after_gates(reasons, gates).contains(UNRESOLVED_CLAIM@) <==> gates.unresolved_claim,
        reason != WARMUP@ && reason != BALANCE@ && reason != DEADLINE@ && reason != SPOOL@ && reason
            != UNRESOLVED_CLAIM@ ==> (after_gates(reasons, gates).contains(reason)
            <==> reasons.contains(reason)),
{
    reveal_strlit("causal warmup is incomplete");
    reveal_strlit("broker balance differs from assessed or restored cash");
    reveal_strlit("lease deadline reached");
    reveal_strlit("journal spool bound reached");
    reveal_strlit("unresolved dispatch claim");
    assert(WARMUP@[0] == 'c' && BALANCE@[0] == 'b' && DEADLINE@[0] == 'l' && SPOOL@[0] == 'j'
        && UNRESOLVED_CLAIM@[0] == 'u');
}

/// An authorization authorizes exactly where it is of the known version, bound to this deployment,
/// configuration, bundle, broker and account, names its operator and reason, and holds the hash of
/// its contents.
pub proof fn an_authorization_is_bound_to_everything(
    authorization: Authorization,
    expected: Bindings,
    content_hash: Seq<char>,
)
    ensures
        objection(authorization, expected, content_hash) is None <==> {
            &&& authorization.schema_version == 1
            &&& authorization.deployment@ == expected.deployment@
            &&& authorization.configuration@ == expected.configuration@
            &&& authorization.bundle_sha256@ == expected.bundle_sha256@
            &&& authorization.broker@ == expected.broker@
            &&& authorization.account@ == expected.account@
            &&& authorization.operator@.len() > 0
            &&& authorization.reason@.len() > 0
            &&& authorization.hash@ == content_hash
        },
{
}

/// Two authorizations are the same only where every field is.
pub proof fn the_same_authorization_agrees_in_every_field(a: Authorization, b: Authorization)
    ensures
        same_authorization(a, b) <==> a.schema_version == b.schema_version && a.deployment@
            == b.deployment@ && a.configuration@ == b.configuration@ && a.bundle_sha256@
            == b.bundle_sha256@ && a.broker@ == b.broker@ && a.account@ == b.account@
            && a.operator@ == b.operator@ && a.reason@ == b.reason@ && a.hash@ == b.hash@,
{
}

/// A claimed purchase is written exactly where its claim was inserted, its offer has the economics
/// of the baseline and the settlement and semantics of the template, and neither the offer nor
/// the lease ran out.
pub proof fn a_write_is_as_assessed(
    outcome: Claimed,
    proposal: Proposal,
    baseline: ContractTerms,
    template: ContractTerms,
    now: i64,
    max_age: i64,
    local_now: i64,
    deadline: i64,
)
    ensures
        may_write(
            outcome,
            proposal,
            baseline,
            template,
            is_expired(now, proposal.receipt_micros, max_age, local_now, deadline),
        ) <==> {
            &&& outcome is Inserted
            &&& proposal.economics@ == baseline.economics@
            &&& proposal.settlement@ == template.settlement@
            &&& proposal.semantics@ == template.semantics@
            &&& i64::MIN <= now - proposal.receipt_micros <= max_age
            &&& local_now < deadline
        },
{
}

/// A purchase asks for what its signal was offered: under the claim of its command, at the offer's
/// identity, and for no more than its quoted cost.
pub proof fn a_purchase_asks_for_its_offer(
    signal: FinancialEvent,
    deployment: Seq<char>,
    prepared: PreparedPurchase,
)
    requires
        asks_for(signal, deployment, prepared),
        admitted(signal) is Some,
    ensures
        signal.kind matches EventKind::Signal(signal) && (signal.command matches Some(command)
            && prepared.command@ == command@ && prepared.dispatch_claim@ == deployment + ":"@
            + command@) && (signal.proposal matches Some(proposal) && prepared.proposal_identity@
            == proposal.identity@ && prepared.maximum_price == proposal.quoted_cost),
{
}

/// A signal is admitted exactly where it has a command and an offer.
pub proof fn an_admitted_signal_has_a_command_and_an_offer(signal: FinancialEvent)
    ensures
        admitted(signal) is Some <==> (signal.kind matches EventKind::Signal(signal)
            && signal.command is Some && signal.proposal is Some),
{
}

/// The claim of a purchase holds its signal, is under the lease's token, names its deployment and
/// the age that its offer may have, and knows nothing of the broker yet.
pub proof fn a_claim_holds_its_dispatch(
    claim: Claim,
    command: Seq<char>,
    dispatch: Dispatch,
    deployment: Seq<char>,
    token: u64,
    age: i64,
)
    requires
        claims_dispatch(claim, command, dispatch, deployment, token, age),
    ensures
        claim.command@ == command && claim.claim@ == dispatch.prepared.dispatch_claim@,
        claim.deployment@ == deployment && claim.token == token,
        claim.max_proposal_age_micros == age,
        claim.signal == dispatch.signal,
        claim.state is Claimed,
        claim.contract_ref is None && claim.transaction_ref is None,
{
}

/// Only a run that trades, with entries enabled, queues a purchase.
pub proof fn only_enabled_runs_dispatch(mode: Mode, enabled: bool)
    ensures
        routed(mode, enabled) is Queue <==> !(mode is Paper) && enabled,
        routed(mode, enabled) is Paper <==> mode is Paper,
{
}

/// A purchase leaves its claim in the state that its outcome proves, and one whose outcome is not
/// known stays possibly sent.
pub proof fn an_outcome_gives_its_state(outcome: PurchaseOutcome)
    ensures
        state_after(outcome) is Accepted <==> outcome is Accepted,
        state_after(outcome) is Rejected <==> outcome is Rejected,
        state_after(outcome) is NotSent <==> outcome is ProvenNotSent,
        state_after(outcome) is PossiblySent <==> outcome is PossiblySent,
{
}

/// A finished purchase leaves the queue and nothing else does. Where it was first, the next of the
/// line is prepared; where it was not, nothing is.
pub proof fn a_finished_purchase_makes_room(
    before: Queue,
    after: Queue,
    command: Seq<char>,
    other: Seq<char>,
)
    requires
        before.completed(after, command),
    ensures
        !after.dispatches@.dom().contains(command),
        other != command ==> (after.dispatches@.dom().contains(other)
            <==> before.dispatches@.dom().contains(other)),
        other != command && before.dispatches@.dom().contains(other) ==> after.dispatches@[other]
            == before.dispatches@[other],
        before.line().len() > 0 && before.line()[0] == command ==> after.line().len()
            == before.line().len() - 1 && forall|i: int|
            0 <= i < after.line().len() ==> #[trigger] after.line()[i] == before.line()[i + 1],
        before.line().len() > 1 && before.line()[0] == command ==> before.next_after(command)
            == Some(before.dispatches@[before.line()[1]].prepared),
        !(before.line().len() > 0 && before.line()[0] == command) ==> after.line() == before.line()
            && before.next_after(command) is None,
{
}

/// A contract is due from its first confirmed expiry on, once, and only while no tick at or after
/// it was recorded.
pub proof fn a_contract_is_due_until_its_tick(
    records: Seq<Record>,
    instruments: Seq<String>,
    command: Seq<char>,
)
    ensures
        due_of(records, instruments).dom().contains(command) ==> !ticked(records, command)
            && expiry_of(records, command) is Some && instrument_of(
            records,
            instruments,
            command,
        ) is Some,
        expiry_of(records, command) is Some && instrument_of(
            records,
            instruments,
            command,
        ) is Some && !ticked(records, command) ==> due_of(records, instruments).dom().contains(
            command,
        ),
        ticked(records, command) <==> exists|i: int|
            0 <= i < records.len() && ((#[trigger] records[i]).kind matches RecordKind::DueTick {
                command: id,
                ..
            } && id@ == command),
{
    if ticked(records, command) {
        let i = choose|i: int|
            0 <= i < records.len() && crate::live::due::is_tick_of(#[trigger] records[i], command);
        assert(records[i].kind matches RecordKind::DueTick { command: id, .. } && id@ == command);
    }
    if exists|i: int|
        0 <= i < records.len() && ((#[trigger] records[i]).kind matches RecordKind::DueTick {
            command: id,
            ..
        } && id@ == command) {
        let i = choose|i: int|
            0 <= i < records.len() && ((#[trigger] records[i]).kind matches RecordKind::DueTick {
                command: id,
                ..
            } && id@ == command);
        assert(crate::live::due::is_tick_of(records[i], command));
    }
}

/// The expiry of a command is that of the first record that confirms one for it.
pub proof fn the_first_confirmation_gives_the_expiry(
    records: Seq<Record>,
    command: Seq<char>,
    at: int,
    event: FinancialEvent,
    expiry: i64,
)
    requires
        0 <= at < records.len(),
        records[at].kind == (RecordKind::Ledger { event }),
        event.kind matches EventKind::Confirmed { command: id, expiry_micros, .. } && id@
            == command && expiry_micros == Some(expiry),
        forall|i: int|
            0 <= i < at ==> !((#[trigger] records[i]).kind matches RecordKind::Ledger {
                event: earlier,
            } && (earlier.kind matches EventKind::Confirmed { command: id, expiry_micros, .. }
                && id@ == command && expiry_micros is Some)),
    ensures
        expiry_of(records, command) == Some(expiry),
{
    let wanted = |record: Record| confirms(record, command) is Some;
    assert(wanted(records[at]));
    assert forall|i: int| 0 <= i < at implies !wanted(#[trigger] records[i]) by {}
    crate::search::first_where_found(records, wanted, at);
}

/// A tick ends exactly the contracts of its instrument that expired at or before it.
pub proof fn a_tick_ends_what_expired(
    due: Map<Seq<char>, (usize, i64)>,
    instrument: usize,
    time: i64,
    command: Seq<char>,
    at: usize,
    expiry: i64,
)
    requires
        due.dom().contains(command),
        due[command] == (at, expiry),
    ensures
        ended_by(due, instrument, time).contains(command) <==> at == instrument && expiry <= time,
{
}

/// A claim is unresolved while it is claimed or possibly sent, and in no other state.
pub proof fn a_claim_is_unresolved_until_known(claim: Claim)
    ensures
        is_unresolved(claim) <==> claim.state is Claimed || claim.state is PossiblySent,
{
}

/// What follows from an event of the ledger: a signal with a command is dispatched, a confirmed
/// expiry is due, and a command is over once it is settled or resolved otherwise than as
/// purchased.
pub proof fn an_event_has_its_consequence(event: EventKind)
    ensures
        consequence_of(event) is Dispatch <==> (event matches EventKind::Signal(signal)
            && signal.command is Some),
        (consequence_of(event) matches Consequence::Due(at) ==> (
        event matches EventKind::Confirmed { expiry_micros, .. } && expiry_micros == Some(at))),
        (event matches EventKind::Confirmed { expiry_micros, .. } && expiry_micros is Some)
            ==> consequence_of(event) is Due,
        consequence_of(event) is Over <==> event is Settled || (
        event matches EventKind::Reconciled { resolution, .. } && !(resolution is Purchased)),
{
}

/// Cash and ledger disagree where an acceptance with a liability, or a settlement, shows a
/// discrepancy or a deficit.
pub proof fn a_discrepancy_is_a_disagreement(event: EventKind)
    ensures
        disagrees(event) <==> (event matches EventKind::Accepted {
            liability,
            discrepancy,
            deficit,
            ..
        } && liability is Some && (discrepancy || deficit is Some)) || (
        event matches EventKind::Settled { discrepancy, deficit, .. } && (discrepancy
            || deficit is Some)),
{
}

/// A contract belongs to the command that accepted it, or that was reconciled as having bought it.
pub proof fn a_liability_ties_its_contract(event: EventKind)
    ensures
        (event matches EventKind::Accepted { command, liability, .. } ==> (
        liability matches Some(liability) ==> tied(event) == Some(
            (liability.contract_ref@, command),
        ))),
        (event matches EventKind::Reconciled { command, resolution, .. } ==> (
        resolution matches Resolution::Purchased { liability, .. } ==> tied(event) == Some(
            (liability.contract_ref@, command),
        ))),
        tied(event) is Some ==> event is Accepted || event is Reconciled,
{
}

/// A command is closed by its release, its settlement, or any resolution but a purchase.
pub proof fn a_command_is_closed_by_its_end(event: EventKind)
    ensures
        closes(event) is Some <==> event is Released || event is Settled || (
        event matches EventKind::Reconciled { resolution, .. } && !(resolution is Purchased)),
        (event matches EventKind::Released { command, .. } ==> closes(event) == Some(command@)),
        (event matches EventKind::Settled { command, .. } ==> closes(event) == Some(command@)),
{
}

/// Where commands stand after one more event: a signal opens its command, what is tied is
/// accepted, what is closed is open no longer, and nothing else changes.
pub proof fn one_event_moves_one_command(
    ledger: Seq<FinancialEvent>,
    contracts: Map<Seq<char>, String>,
    event: FinancialEvent,
    command: Seq<char>,
)
    ensures
        ({
            let before = standing_of(ledger, contracts);
            let after = standing_of(ledger.push(event), contracts);
            let opens = event.kind matches EventKind::Signal(signal) && (
            signal.command matches Some(id) && id@ == command);
            let ties = tied(event.kind) matches Some((_, id)) && id@ == command;
            &&& opens ==> after.open.contains(command)
            &&& ties ==> after.accepted.contains(command)
            &&& closes(event.kind) == Some(command) ==> !after.open.contains(command)
            &&& !opens && closes(event.kind) != Some(command) ==> (after.open.contains(command)
                <==> before.open.contains(command))
            &&& !ties ==> (after.accepted.contains(command) <==> before.accepted.contains(command))
        }),
        ledger.len() == 0 ==> !standing_of(ledger, contracts).open.contains(command)
            && !standing_of(ledger, contracts).accepted.contains(command),
{
    assert(ledger.push(event).drop_last() =~= ledger);
    a_liability_ties_its_contract(event.kind);
    a_command_is_closed_by_its_end(event.kind);
}

/// The signals that are dispatched are exactly those with a command, in order.
pub proof fn every_signal_with_a_command_is_dispatched(events: Seq<FinancialEvent>, count: nat)
    requires
        count <= events.len(),
    ensures
        forall|k: int| #[trigger]
            dispatched(events, count).contains(k) <==> 0 <= k < count && (
            events[k].kind matches EventKind::Signal(signal) && signal.command is Some),
    decreases count,
{
    if count > 0 {
        let before = dispatched(events, (count - 1) as nat);
        every_signal_with_a_command_is_dispatched(events, (count - 1) as nat);
        an_event_has_its_consequence(events[count - 1].kind);
        let all = dispatched(events, count);
        assert forall|k: int| #[trigger] all.contains(k) <==> 0 <= k < count && (
        events[k].kind matches EventKind::Signal(signal) && signal.command is Some) by {
            if all != before {
                if before.contains(k) {
                    let i = choose|i: int| 0 <= i < before.len() && before[i] == k;
                    assert(all[i] == k);
                }
                if all.contains(k) && k != count - 1 {
                    let i = choose|i: int| 0 <= i < all.len() && all[i] == k;
                    assert(before[i] == k);
                }
                assert(all[all.len() - 1] == count - 1);
            }
        }
    }
}

/// What becomes of an open command without a claim: accepted ones are, doubted ones stay in doubt,
/// one that a record commits comes into doubt, and only one that no record commits was not sent.
pub proof fn an_orphan_is_judged_by_its_records(
    ledger: Seq<FinancialEvent>,
    records: Seq<Record>,
    accepted: Set<Seq<char>>,
    command: Seq<char>,
)
    ensures
        ({
            let doubt = exists|i: int|
                0 <= i < ledger.len() && ((#[trigger] ledger[i]).kind matches EventKind::PossiblySent {
                    command: id,
                } && id@ == command);
            let committed = exists|i: int|
                0 <= i < records.len() && (match (#[trigger] records[i]).kind {
                    RecordKind::Claimed { command: id, .. } => id@ == command,
                    RecordKind::Written { command: id, .. } => id@ == command,
                    _ => false,
                });
            let fate = orphan_fate(ledger, records, accepted, command);
            &&& fate is Accepted <==> accepted.contains(command)
            &&& fate is Doubted <==> !accepted.contains(command) && doubt
            &&& fate is Doubt <==> !accepted.contains(command) && !doubt && committed
            &&& fate is NotSent <==> !accepted.contains(command) && !doubt && !committed
        }),
{
    let doubt = exists|i: int|
        0 <= i < ledger.len() && ((#[trigger] ledger[i]).kind matches EventKind::PossiblySent {
            command: id,
        } && id@ == command);
    assert(doubted(ledger, command) <==> doubt) by {
        if doubt {
            let i = choose|i: int|
                0 <= i < ledger.len() && ((
                #[trigger] ledger[i]).kind matches EventKind::PossiblySent { command: id } && id@
                    == command);
            assert(crate::live::claims::doubts(ledger[i], command));
        }
        if doubted(ledger, command) {
            let i = choose|i: int|
                0 <= i < ledger.len() && crate::live::claims::doubts(#[trigger] ledger[i], command);
            assert(ledger[i].kind matches EventKind::PossiblySent { command: id } && id@
                == command);
        }
    }
    let committed = exists|i: int|
        0 <= i < records.len() && (match (#[trigger] records[i]).kind {
            RecordKind::Claimed { command: id, .. } => id@ == command,
            RecordKind::Written { command: id, .. } => id@ == command,
            _ => false,
        });
    assert(committed_in(records, command) <==> committed) by {
        if committed {
            let i = choose|i: int|
                0 <= i < records.len() && (match (#[trigger] records[i]).kind {
                    RecordKind::Claimed { command: id, .. } => id@ == command,
                    RecordKind::Written { command: id, .. } => id@ == command,
                    _ => false,
                });
            assert(crate::live::claims::commits(records[i], command));
        }
        if committed_in(records, command) {
            let i = choose|i: int|
                0 <= i < records.len() && crate::live::claims::commits(
                    #[trigger] records[i],
                    command,
                );
            assert(match records[i].kind {
                RecordKind::Claimed { command: id, .. } => id@ == command,
                RecordKind::Written { command: id, .. } => id@ == command,
                _ => false,
            });
        }
    }
}

/// What becomes of a claim after a restart: one whose command is not open is reconciled; of the
/// others one that was accepted is, one that is proven unsent or rejected was not sent, and any
/// other may have been sent.
pub proof fn a_claim_is_judged_by_its_row(
    state: ClaimState,
    open: bool,
    accepted: bool,
    doubted: bool,
)
    ensures
        claim_fate(state, open, accepted, doubted) is Reconciled <==> !open,
        claim_fate(state, open, accepted, doubted) is Accepted <==> open && accepted,
        claim_fate(state, open, accepted, doubted) is NotSent <==> open && !accepted && (
        state is NotSent || state is Rejected),
        claim_fate(state, open, accepted, doubted) is PossiblySent <==> open && !accepted && !(
        state is NotSent) && !(state is Rejected),
        (claim_fate(state, open, accepted, doubted) matches ClaimFate::PossiblySent { tell }
            ==> tell == !doubted),
{
}

/// A row of the control database tells only of a claim of this deployment that may have been sent:
/// that it was not, or under which references it was accepted.
pub proof fn a_row_tells_only_of_what_may_have_been_sent(
    claims: Map<Seq<char>, Claim>,
    row: Claim,
    deployment: Seq<char>,
)
    ensures
        ({
            let known = claims.dom().contains(row.command@) && row.deployment@ == deployment
                && claims[row.command@].state is PossiblySent;
            &&& refresh_of(claims, row, deployment) is NotSent <==> known && row.state is NotSent
            &&& refresh_of(claims, row, deployment) is References <==> known
                && row.state is Accepted
        }),
        forall|all: Map<Seq<char>, Claim>| #[trigger]
            possibly_sent_among(all) <==> exists|command: Seq<char>|
                all.dom().contains(command) && (#[trigger] all[command]).state is PossiblySent,
{
}

/// The ledger of a journal holds its events, in order, and nothing else.
pub proof fn a_journal_holds_its_ledger(records: Seq<Record>, next: Record)
    ensures
        records.len() == 0 ==> ledger_of(records).len() == 0,
        (next.kind matches RecordKind::Ledger { event } ==> ledger_of(records.push(next))
            == ledger_of(records).push(event)),
        !(next.kind is Ledger) ==> ledger_of(records.push(next)) == ledger_of(records),
{
    assert(records.push(next).drop_last() =~= records);
}

/// A journal is restored exactly where it is new, or starts with this configuration and definition
/// and, without a ledger, holds nothing but starts and breaks.
pub proof fn a_journal_is_restored_by_its_start(
    records: Seq<Record>,
    config_hash: Seq<char>,
    definition: Seq<char>,
)
    ensures
        history_refusal(records, config_hash, definition) is None <==> records.len() == 0 || ((
        records[0].kind matches RecordKind::Started {
            config_hash: hash,
            definition: identity,
            ..
        } && hash@ == config_hash && identity@ == definition) && (ledger_of(records).len() > 0
            || forall|i: int|
            0 <= i < records.len() ==> (#[trigger] records[i]).kind is Started
                || records[i].kind is Discontinuity)),
{
    if ledger_of(records).len() == 0 && exists|i: int|
        0 <= i < records.len() && !crate::live::opening::precedes_ledger(#[trigger] records[i]) {
        let i = choose|i: int|
            0 <= i < records.len() && !crate::live::opening::precedes_ledger(
                #[trigger] records[i],
            );
        assert(!(records[i].kind is Started || records[i].kind is Discontinuity));
    }
}

/// Evidence is what the ledger, refusals and due ticks say. A recorded run reproduces it one by
/// one: the same text, and but for the ledger at the same time; anything else diverges.
pub proof fn a_recorded_run_reproduces_its_evidence(
    expected: Seq<Expected>,
    at: nat,
    kind: RecordKind,
    text: Seq<char>,
    now: i64,
)
    ensures
        ({
            let counts = kind is Ledger || kind is Refused || kind is DueTick;
            let open = counts && at < expected.len();
            let same = expected[at as int].text@ == text && (kind is Ledger
                || expected[at as int].time_micros == now);
            &&& judged(expected, at, kind, text, now) == Ok::<bool, Seq<char>>(true) <==> open
                && same
            &&& judged(expected, at, kind, text, now) is Err <==> open && !same
            &&& judged(expected, at, kind, text, now) == Ok::<bool, Seq<char>>(false) <==> !open
        }),
        forall|records: Seq<Record>, texts: Seq<String>, count: nat|
            records[count as int].kind is Ledger || records[count as int].kind is Refused
                || records[count as int].kind is DueTick ==> #[trigger] evidence_of(
                records,
                texts,
                count + 1,
            ) == evidence_of(records, texts, count).push(
                (records[count as int].time_micros, texts[count as int]@),
            ),
{
}

/// A report of the market breaks continuity and warmth, one of the account its connection, and an
/// authorization lifts its veto exactly where it is granted. No other report changes a veto.
pub proof fn a_report_vetoes_what_it_breaks(
    reasons: Set<Seq<char>>,
    event: Ingress,
    grant: Grant,
)
    ensures
        event is MarketFailed ==> reasons_after(reasons, event, grant) == reasons.insert(
            CONTINUITY@,
        ).insert(WARMUP@),
        event is AccountFailed ==> reasons_after(reasons, event, grant) == reasons.insert(
            crate::live::owner::ACCOUNT_CONNECTION@,
        ),
        (event matches Ingress::Authorization(found) ==> (reasons_after(
            reasons,
            event,
            grant,
        ).contains(AUTHORIZATION@) <==> !(found matches Ok(Some(authorization)) && objection(
            authorization,
            grant.expected,
            grant.content_hash@,
        ) is None))),
        !(event is MarketFailed) && !(event is AccountFailed) && !(event is Authorization)
            ==> reasons_after(reasons, event, grant) == reasons,
{
}

/// A recorded run fails by the first failure of the market or the account, and keeps it; another
/// run goes on.
pub proof fn a_recorded_run_keeps_its_first_failure(
    failure: Option<Seq<char>>,
    event: Ingress,
    mode: Mode,
)
    ensures
        failure is Some ==> failure_after(failure, event, mode) == failure,
        !(mode is Replay) ==> failure_after(failure, event, mode) == failure,
        (event matches Ingress::MarketFailed(reason) ==> (mode is Replay && failure is None
            ==> failure_after(failure, event, mode) == Some(reason@))),
        (event matches Ingress::AccountFailed(reason) ==> (mode is Replay && failure is None
            ==> failure_after(failure, event, mode) == Some(reason@))),
        forall|rejected: bool| #[trigger]
            fails_replay(mode, rejected) <==> mode is Replay && !rejected,
{
}

/// A failed request vetoes what it was for, and nothing else; what may have been written stays
/// possibly sent, and what was only prepared was not sent.
pub proof fn a_failed_request_vetoes_its_purpose(
    vetoes: Set<Seq<char>>,
    intent: Intent,
    binding: Option<Seq<char>>,
)
    ensures
        (intent matches Intent::Proposal(request) ==> after_failure(vetoes, intent, binding)
            == vetoes.insert("proposal unavailable: "@ + request.binding@)),
        intent is Prepare ==> after_failure(vetoes, intent, binding) == (match binding {
            Some(binding) => vetoes.insert("proposal unavailable: "@ + binding),
            None => vetoes,
        }),
        intent is Write ==> after_failure(vetoes, intent, binding) == vetoes,
        intent is Balance ==> after_failure(vetoes, intent, binding) == vetoes.insert(
            BALANCE_UNAVAILABLE@,
        ),
        intent is Statement || intent is OpenContracts ==> after_failure(vetoes, intent, binding)
            == vetoes.insert(BROKER_RECOVERY@),
        (intent matches Intent::SubscribeContract { contract } ==> after_failure(
            vetoes,
            intent,
            binding,
        ) == vetoes.insert("contract subscription unavailable: "@ + contract@)),
        intent is Transactions ==> after_failure(vetoes, intent, binding) == vetoes.insert(
            TRANSACTIONS@,
        ),
        intent is Subscribe ==> after_failure(vetoes, intent, binding) == vetoes.insert(
            CONTINUITY@,
        ),
        failure_of(intent) is NotSent <==> intent is Prepare,
        failure_of(intent) is PossiblySent <==> intent is Write,
        failure_of(intent) is Refuse <==> intent is Proposal,
        failure_of(intent) is Recovery <==> intent is Statement || intent is OpenContracts,
        failure_of(intent) is Balance <==> intent is Balance,
        failure_of(intent) is Subscription <==> intent is SubscribeContract,
{
}

/// The broker holds a stranger exactly where one of its open contracts belongs to no command.
pub proof fn a_stranger_belongs_to_no_command(
    open: Seq<OpenContract>,
    contracts: Map<Seq<char>, String>,
)
    ensures
        holds_stranger(open, contracts) <==> exists|i: int|
            0 <= i < open.len() && !contracts.dom().contains((#[trigger] open[i]).contract_ref@),
{
}

/// What a claim was matched with: a single purchase is taken as the claim's, with the broker's
/// references, and its contract is tied to the command; a claim with none or several stays
/// possibly sent; one that was not looked for stays as it is. No other claim changes.
pub proof fn a_match_settles_its_claim_alone(
    before: Matching,
    claim: Claim,
    found: Match,
    other: Seq<char>,
)
    ensures
        ({
            let after = after_match(before, claim, found);
            &&& other != claim.command@ ==> (after.claims.dom().contains(other)
                <==> before.claims.dom().contains(other))
            &&& other != claim.command@ && before.claims.dom().contains(other)
                ==> after.claims[other] == before.claims[other]
            &&& (found matches Match::Purchased(_, liability) ==> {
                let kept = after.claims[claim.command@];
                &&& kept.state is Accepted
                &&& kept.contract_ref matches Some(contract) && contract@
                    == liability.contract_ref@
                &&& kept.transaction_ref matches Some(transaction) && transaction@
                    == liability.transaction_ref@
                &&& kept.signal == claim.signal && kept.token == claim.token && kept.command
                    == claim.command
                &&& after.contracts.dom().contains(liability.contract_ref@)
                &&& after.contracts[liability.contract_ref@]@ == claim.command@
            })
            &&& found is Ambiguous ==> after.claims[claim.command@].state is PossiblySent
                && after.contracts == before.contracts
            &&& found is Skip ==> after == before
        }),
{
}

/// What is done about a match: a purchase is told to the engine as the claim's, at its cost, its
/// contract is tied to the command, the claim is accepted under the broker's references, and the
/// contract is followed. Nothing is done about any other.
pub proof fn a_match_is_acted_on_as_purchased(
    actions: Seq<Action>,
    claim: Claim,
    found: Match,
    now: i64,
    mode: Mode,
)
    requires
        acts_on_match(actions, claim, found, now, mode),
    ensures
        !(found is Purchased) ==> actions.len() == 0,
        (found matches Match::Purchased(debit, liability) ==> {
            &&& actions.len() == 4
            &&& actions[0] matches Action::Tell(Told::Reconciliation { command, resolution, .. })
                && command@ == claim.command@ && resolution == (Resolution::Purchased {
                debit,
                liability,
            })
            &&& actions[1] matches Action::Tie { contract, command } && contract@
                == liability.contract_ref@ && command@ == claim.command@
            &&& actions[2] matches Action::Update {
                command,
                state,
                contract_ref,
                transaction_ref,
            } && command@ == claim.command@ && state is Accepted && text_of(contract_ref) == Some(
                liability.contract_ref@,
            ) && text_of(transaction_ref) == Some(liability.transaction_ref@)
            &&& actions[3] matches Action::Subscribe(contract) && contract@
                == liability.contract_ref@
        }),
{
}

/// A lost contract pays nothing exactly where its settlement horizon has passed by what was
/// observed, the statement covers everything from its expiry to that horizon, and no row of it
/// credits a sale of the contract.
pub proof fn a_loss_pays_nothing_once_the_horizon_passed(
    contract: Seq<char>,
    expiry: i64,
    delay: i64,
    observed_now: i64,
    from: i64,
    through: i64,
    rows: Seq<StatementRow>,
)
    requires
        i64::MIN <= expiry + delay <= i64::MAX,
    ensures
        pays_nothing(contract, expiry, delay, observed_now, from, through, rows) <==> {
            &&& observed_now >= expiry + delay
            &&& through * 1_000_000 >= expiry + delay
            &&& from * 1_000_000 <= expiry
            &&& forall|i: int|
                0 <= i < rows.len() ==> !((#[trigger] rows[i]).cash.action is Sell && text_of(
                    rows[i].cash.contract_ref,
                ) == Some(contract))
        },
{
    if !(forall|i: int|
        0 <= i < rows.len() ==> !crate::live::reconcile::sells(#[trigger] rows[i], contract)) {
        let i = choose|i: int|
            0 <= i < rows.len() && crate::live::reconcile::sells(#[trigger] rows[i], contract);
        assert(rows[i].cash.action is Sell);
    }
}

/// The lost contracts that are settled at zero are exactly those that are known to pay nothing,
/// within the delay that the signal of their command was offered with.
pub proof fn every_worthless_loss_is_settled(
    records: Seq<Record>,
    losses: Map<Seq<char>, (Seq<char>, i64)>,
    covered: Covered,
    rows: Seq<StatementRow>,
    count: nat,
)
    requires
        count <= in_order(losses.dom()).len(),
    ensures
        forall|command: Seq<char>| #[trigger]
            settled_at_zero(records, losses, covered, rows, count).contains(command) <==> exists|
                k: int,
            |
                0 <= k < count && #[trigger] in_order(losses.dom())[k] == command && {
                    let (contract, expiry) = losses[command];
                    delay_of(records, command) matches Some(delay) && pays_nothing(
                        contract,
                        expiry,
                        delay,
                        covered.observed_now,
                        covered.from,
                        covered.through,
                        rows,
                    )
                },
    decreases count,
{
    if count > 0 {
        let keys = in_order(losses.dom());
        let before = settled_at_zero(records, losses, covered, rows, (count - 1) as nat);
        every_worthless_loss_is_settled(records, losses, covered, rows, (count - 1) as nat);
        let all = settled_at_zero(records, losses, covered, rows, count);
        let last = keys[count - 1];
        assert forall|command: Seq<char>| #[trigger] all.contains(command) <==> exists|k: int|
            0 <= k < count && #[trigger] keys[k] == command && {
                let (contract, expiry) = losses[command];
                delay_of(records, command) matches Some(delay) && pays_nothing(
                    contract,
                    expiry,
                    delay,
                    covered.observed_now,
                    covered.from,
                    covered.through,
                    rows,
                )
            } by {
            let worthless = {
                let (contract, expiry) = losses[command];
                delay_of(records, command) matches Some(delay) && pays_nothing(
                    contract,
                    expiry,
                    delay,
                    covered.observed_now,
                    covered.from,
                    covered.through,
                    rows,
                )
            };
            if all.contains(command) {
                let i = choose|i: int| 0 <= i < all.len() && all[i] == command;
                if i < before.len() {
                    assert(before[i] == command);
                    assert(before.contains(command));
                    let k = choose|k: int|
                        0 <= k < count - 1 && #[trigger] keys[k] == command && worthless;
                    assert(keys[k] == command);
                } else {
                    assert(keys[count - 1] == command);
                }
            }
            if exists|k: int| 0 <= k < count && #[trigger] keys[k] == command && worthless {
                let k = choose|k: int| 0 <= k < count && #[trigger] keys[k] == command && worthless;
                if k < count - 1 {
                    assert(before.contains(command));
                    let i = choose|i: int| 0 <= i < before.len() && before[i] == command;
                    assert(all[i] == command);
                } else {
                    assert(all[all.len() - 1] == command);
                }
            }
        }
    }
}

/// A zero credit is told as a loss that returns and costs nothing, of the command and its expiry.
pub proof fn a_zero_credit_is_a_loss_of_nothing(
    told: Told,
    command: Seq<char>,
    expiry: i64,
    received: i64,
    now: i64,
    mode: Mode,
)
    requires
        is_zero_credit(told, command, expiry, received, now, mode),
    ensures
        told matches Told::Reconciliation { command: named, source, resolution } && named@
            == command && source.provider_time_micros == now && source.available_at_micros
            == received && source.simulated == (mode is Replay) && (
        resolution matches Resolution::Settled { outcome, gross_return, terminal_fee }
            && outcome is Loss && gross_return.units == 0 && terminal_fee.units == 0),
{
}

/// A purchase that is given up is told to the engine as not sent, and before that the next one is
/// prepared.
pub proof fn a_given_up_purchase_was_not_sent(
    actions: Seq<Action>,
    next: Option<PreparedPurchase>,
    command: Seq<char>,
    prefix: Seq<char>,
    now: i64,
    mode: Mode,
)
    requires
        gives_up(actions, next, command, prefix, now, mode),
    ensures
        actions.len() == (if next is Some { 2int } else { 1 }),
        actions.last() matches Action::Tell(Told::NotSent { command: named, source }) && named@
            == command && source.id@ == prefix + ":"@ + command && source.simulated == (
        mode is Replay) && source.provider_time_micros == now,
        next matches Some(next) ==> actions[0] == Action::Prepare(next),
{
    if next is Some {
        assert(actions.take(preparing(next).len() as int)[0] == actions[0]);
    }
}

/// The end of a run is called off where it was cut off, where a stage failed, and nowhere else:
/// before its brokers stop where evidence was not reproduced or a failure is known, and later by
/// a failed join, upload, ledger or publication.
pub proof fn an_ending_stops_by_what_failed(
    stage: crate::live::shutdown::Stage,
    known: crate::live::shutdown::Known<'_>,
)
    ensures
        known.interrupted ==> ending_refusal(stage, known) is Some,
        !known.interrupted && stage is Begin ==> (ending_refusal(stage, known) is None
            <==> known.reproduced && *known.failure is None && *known.clock_failure is None),
        !known.interrupted && stage is Draining && !known.reports ==> (ending_refusal(
            stage,
            known,
        ) is None <==> *known.joined is Ok),
        !known.interrupted && stage is Rows ==> (ending_refusal(stage, known) is None
            <==> *known.failure is None),
        !known.interrupted && stage is Uploading && known.uploads == 0 ==> (ending_refusal(
            stage,
            known,
        ) is None <==> known.upload_errors@.dom() == Set::<Seq<char>>::empty()),
        !known.interrupted && stage is Ledger && *known.ledger is Some ==> (ending_refusal(
            stage,
            known,
        ) is None <==> (*known.ledger matches Some(Ok(_))) && *known.failure is None),
        !known.interrupted && stage is Publishing && *known.publication is Some ==> (
        ending_refusal(stage, known) is None <==> *known.publication matches Some(Ok(_))),
{
}

/// What an ending does: the lease is given back only where one is held, each closed segment is
/// uploaded in order, and each claim is removed only after that was announced.
pub proof fn an_ending_does_one_thing_at_a_time(
    stage: crate::live::shutdown::Stage,
    known: crate::live::shutdown::Known<'_>,
    ending: Option<Ending>,
)
    requires
        is_done(stage, known, ending),
    ensures
        (ending matches Some(Ending::Release { token }) ==> stage is Rows && (token is Some
            <==> known.fencing_token != 0) && (token matches Some(token) ==> token
            == known.fencing_token)),
        stage is Rows ==> (ending matches Some(Ending::Release { .. })),
        (ending matches Some(Ending::Upload(name)) ==> known.uploads == 0 && known.closed@.len()
            > 0 && name@ == known.closed@[0]@),
        (ending matches Some(Ending::Delete(command)) ==> (
        stage matches crate::live::shutdown::Stage::Deleting { at, told } && told && at
            < known.deletions@.len() && command@ == known.deletions@[at as int]@)),
        (ending matches Some(Ending::Announce(command)) ==> (
        stage matches crate::live::shutdown::Stage::Deleting { at, told } && !told && at
            < known.deletions@.len() && command@ == known.deletions@[at as int]@)),
        (ending matches Some(Ending::Complete) ==> stage is Publishing && *known.publication
            is Some),
        (ending matches Some(Ending::Publish) ==> stage is Ledger && *known.ledger is Some),
{
}

} // verus!
