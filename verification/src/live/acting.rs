//! What holds of every step of a dispatch and of a recovery: what is told, recorded and updated,
//! and what never happens to a purchase that is given up.

use crate::live::control::{
    by_age, later_faults, listed_by_age, lists_command, next_fault, older, Claim, ClaimState,
    FakeControl, Fault, LeaseKey, Stored,
};
use crate::live::deployment::Mode;
use crate::live::dispatch::{binding_at, contract_at, PreparedPurchase, Queue};
use crate::live::finance::{ContractTerms, EventKind, EventSource, Resolution};
use crate::live::journal::{Record, RecordKind};
use crate::live::receipt::Binding;
use crate::live::reconcile::{holds_stranger, pays_nothing, Match, OpenContract, StatementRow};
use crate::live::statement::{
    delay_of, is_settled_at_zero, settled_at_zero, tells_zero_credits, Covered,
};
use crate::live::steps::{
    acts_on_match, gives_up, is_source, is_zero_credit, offered, preparation_refusal, preparing,
    prepares_first, raises, records_break, records_claim, records_write, resolves_not_sent,
    tells_not_sent, tells_possibly_sent, terms_of, updates, Action, Told,
};
use crate::table::in_order;
use crate::text::{signed_decimal, text_before, text_of};
use vstd::prelude::*;

verus! {

/// The owner's own evidence is known when it comes about, and is simulated only in a recorded run.
pub proof fn own_evidence_is_known_at_once(
    source: EventSource,
    id: Seq<char>,
    now: i64,
    mode: Mode,
)
    ensures
        is_source(source, id, now, mode) <==> {
            &&& source.id@ == id
            &&& source.provider_time_micros == now && source.available_at_micros == now
            &&& source.simulated == (mode is Replay)
        },
{
}

/// A purchase that is given up is neither claimed nor written nor recorded: besides preparing the
/// next one, all that is done is to tell the engine that this command was not sent.
pub proof fn what_is_given_up_is_never_sent(
    actions: Seq<Action>,
    next: Option<PreparedPurchase>,
    command: Seq<char>,
    prefix: Seq<char>,
    now: i64,
    mode: Mode,
)
    requires
        gives_up(actions, next, command, prefix, now, mode),
    ensures
        next is None ==> actions.len() == 1,
        next is Some ==> actions.len() == 2 && actions[0] == Action::Prepare(next->0),
        (actions.last() matches Action::Tell(Told::NotSent { command: named, source }) && named@
            == command && source.id@ == prefix + ":"@ + command && source.provider_time_micros
            == now && source.available_at_micros == now && source.simulated == (mode is Replay)),
        forall|i: int|
            0 <= i < actions.len() ==> !((#[trigger] actions[i]) is Write) && !(actions[i]
                is Claim) && !(actions[i] is Record),
{
    if next is Some {
        assert(actions.take(1)[0] == preparing(next)[0]);
        assert(actions[0] == actions.take(1)[0]);
    }
    assert forall|i: int| 0 <= i < actions.len() implies !((#[trigger] actions[i]) is Write)
        && !(actions[i] is Claim) && !(actions[i] is Record) by {
        assert(i == 0 || i == actions.len() - 1);
    }
}

/// What is told of a command names it and nothing else: that it was not sent, that it may have
/// been sent, or, as a reconciliation, that it was not.
pub proof fn what_is_told_names_its_command(
    action: Action,
    command: Seq<char>,
    id: Seq<char>,
    now: i64,
    mode: Mode,
)
    ensures
        tells_not_sent(action, command, id, now, mode) <==> (action matches Action::Tell(
            Told::NotSent { command: named, source },
        ) && named@ == command && source.id@ == id + ":"@ + command && source.provider_time_micros
            == now && source.available_at_micros == now && source.simulated == (mode is Replay)),
        tells_possibly_sent(action, command, id, now, mode) <==> (action matches Action::Tell(
            Told::PossiblySent { command: named, source },
        ) && named@ == command && source.id@ == id && source.provider_time_micros == now
            && source.available_at_micros == now && source.simulated == (mode is Replay)),
        resolves_not_sent(action, command, id, now, mode) <==> (action matches Action::Tell(
            Told::Reconciliation { command: named, source, resolution },
        ) && named@ == command && source.id@ == id + ":"@ + command && source.provider_time_micros
            == now && source.available_at_micros == now && source.simulated == (mode is Replay)
            && resolution is NotSent),
{
}

/// An update names its command, the state and both references; a veto and a break of the journal
/// name their reason; a recorded claim names the command, the claim and the token, and a recorded
/// write the command and the claim.
pub proof fn what_is_recorded_is_what_happened(
    action: Action,
    command: Seq<char>,
    state: ClaimState,
    contract_ref: Option<Seq<char>>,
    transaction_ref: Option<Seq<char>>,
    reason: Seq<char>,
    claim: Claim,
)
    ensures
        updates(action, command, state, contract_ref, transaction_ref) ==> (
        action matches Action::Update { command: named, state: set, contract_ref: c, transaction_ref: t }
            && named@ == command && set == state && text_of(c) == contract_ref && text_of(t)
            == transaction_ref),
        raises(action, reason) ==> (action matches Action::Veto(raised) && raised@ == reason),
        records_break(action, reason) ==> (action matches Action::Record(
            RecordKind::Discontinuity { reason: noted },
        ) && noted@ == reason),
        records_claim(action, claim) ==> (action matches Action::Record(
            RecordKind::Claimed { command: named, claim: made, token },
        ) && named@ == claim.command@ && made@ == claim.claim@ && token == claim.token),
        records_write(action, command, claim.claim@) ==> (action matches Action::Record(
            RecordKind::Written { command: named, claim: made },
        ) && named@ == command && made@ == claim.claim@),
{
}

/// A finished purchase is followed by at most one preparation, of the purchase that comes next.
pub proof fn at_most_one_purchase_is_prepared(
    actions: Seq<Action>,
    next: Option<PreparedPurchase>,
    rest: nat,
)
    requires
        prepares_first(actions, next, rest),
    ensures
        next is None ==> actions.len() == rest,
        (next matches Some(prepared) ==> actions.len() == rest + 1 && actions[0]
            == Action::Prepare(prepared)),
{
    if next is Some {
        assert(actions.take(1)[0] == preparing(next)[0]);
        assert(actions[0] == actions.take(1)[0]);
    }
}

/// A prepared purchase goes on exactly where its command is on its way and its signal was offered
/// something.
pub proof fn a_prepared_purchase_has_its_offer(queue: Queue, command: Seq<char>)
    ensures
        preparation_refusal(queue, command) is None <==> {
            &&& queue.dispatches@.dom().contains(command)
            &&& queue.dispatches@[command].signal.kind matches EventKind::Signal(signal)
            &&& signal.proposal is Some
        },
        preparation_refusal(queue, command) is None ==> (
        queue.dispatches@[command].signal.kind matches EventKind::Signal(signal)
            && signal.proposal == Some((offered(queue.dispatches@[command].signal)->0).1)
            && signal.binding@ == (offered(queue.dispatches@[command].signal)->0).0),
{
}

/// A claimed purchase is written under the terms of its binding's contract, of the assessed
/// baseline first and of the request template second.
pub proof fn terms_are_those_of_the_binding(
    bindings: Seq<Binding>,
    baseline: Seq<ContractTerms>,
    contracts: Seq<ContractTerms>,
    binding: Seq<char>,
)
    ensures
        terms_of(bindings, baseline, contracts, binding) matches Some((assessed, template)) ==> {
            &&& binding_at(bindings, binding) matches Some(at)
            &&& contract_at(baseline, bindings[at].contract@) is Some
            &&& assessed == baseline[contract_at(baseline, bindings[at].contract@)->0]
            &&& contract_at(contracts, bindings[at].contract@) is Some
            &&& template == contracts[contract_at(contracts, bindings[at].contract@)->0]
        },
        terms_of(bindings, baseline, contracts, binding) is None <==> (match binding_at(
            bindings,
            binding,
        ) {
            Some(at) => contract_at(baseline, bindings[at].contract@) is None || contract_at(
                contracts,
                bindings[at].contract@,
            ) is None,
            None => true,
        }),
{
}

/// A purchase that reconciliation finds is told with its debit and its liability, tied to the
/// command, accepted with both references, and followed; where it finds none or several, nothing
/// is done.
pub proof fn a_found_purchase_is_told_tied_and_followed(
    actions: Seq<Action>,
    claim: Claim,
    found: Match,
    now: i64,
    mode: Mode,
)
    requires
        acts_on_match(actions, claim, found, now, mode),
    ensures
        found is Skip || found is Ambiguous ==> actions.len() == 0,
        (found matches Match::Purchased(paid, bought) ==> {
            &&& actions.len() == 4
            &&& actions[0] matches Action::Tell(Told::Reconciliation { command, source, resolution })
            &&& command@ == claim.command@
            &&& source.id@ == "recovery-purchase:"@ + claim.claim@
            &&& source.provider_time_micros == now && source.available_at_micros == now
            &&& source.simulated == (mode is Replay)
            &&& resolution matches Resolution::Purchased { debit, liability }
            &&& debit == paid && liability == bought
            &&& actions[1] matches Action::Tie { contract, command: tied }
            &&& contract@ == bought.contract_ref@ && tied@ == claim.command@
            &&& actions[2] matches Action::Update {
                command: updated,
                state,
                contract_ref,
                transaction_ref,
            }
            &&& updated@ == claim.command@ && state is Accepted
            &&& text_of(contract_ref) == Some(bought.contract_ref@)
            &&& text_of(transaction_ref) == Some(bought.transaction_ref@)
            &&& actions[3] matches Action::Subscribe(subscribed)
            &&& subscribed@ == bought.contract_ref@
        }),
{
}

/// A contract that expired without a credit is told as a loss that returns nothing and costs no
/// fee, known only since its statement was received.
pub proof fn no_credit_is_a_loss_of_nothing_more(
    told: Told,
    command: Seq<char>,
    expiry: i64,
    received: i64,
    now: i64,
    mode: Mode,
)
    requires
        is_zero_credit(told, command, expiry, received, now, mode),
    ensures
        told matches Told::Reconciliation { command: named, source, resolution } && named@
            == command && source.available_at_micros == received && source.provider_time_micros
            == now && source.simulated == (mode is Replay) && source.id@ == "zero-credit:"@
            + command + ":"@ + signed_decimal(expiry as int) && (
        resolution matches Resolution::Settled { outcome, gross_return, terminal_fee } && outcome
            is Loss && gross_return.units == 0 && terminal_fee.units == 0),
{
}

/// Listed claims are exactly the stored ones, each once and as it is stored, the older before the
/// younger; claims of one moment come in the order of their commands.
pub proof fn claims_are_listed_oldest_first(
    list: Seq<Claim>,
    claims: Map<Seq<char>, Stored>,
    command: Seq<char>,
    i: int,
    j: int,
)
    requires
        by_age(list, claims),
        0 <= i < j < list.len(),
    ensures
        claims.dom().contains(list[i].command@) && claims[list[i].command@].claim == list[i],
        claims.dom().contains(command) ==> exists|k: int|
            0 <= k < list.len() && (#[trigger] list[k]).command@ == command,
        claims[list[i].command@].created <= claims[list[j].command@].created,
        claims[list[i].command@].created == claims[list[j].command@].created ==> text_before(
            claims[list[i].command@].claim.command@,
            claims[list[j].command@].claim.command@,
        ),
{
    let a = list[i];
    let b = list[j];
    assert(older(claims[a.command@], claims[b.command@]));
    if claims.dom().contains(command) {
        assert(lists_command(list, command));
    }
}

/// Claims are listed unless the connection or the answer is lost.
pub proof fn claims_are_listed_unless_a_fault_comes(
    result: Result<Vec<Claim>, String>,
    faults: Seq<Fault>,
    claims: Map<Seq<char>, Stored>,
)
    requires
        listed_by_age(result, faults, claims),
    ensures
        result is Ok <==> next_fault(faults) is None,
        result is Ok ==> by_age(result->Ok_0@, claims),
{
}

/// What is done for one account leaves the clock and every other account alone.
pub proof fn other_accounts_are_untouched(
    after: FakeControl,
    before: FakeControl,
    key: LeaseKey<'_>,
    broker: Seq<char>,
    account: Seq<char>,
)
    requires
        after.follows(&before, key),
        broker != key.broker@ || account != key.account@,
    ensures
        after.books(broker, account) == before.books(broker, account),
        after.clock() == before.clock(),
        after.faults() == later_faults(before.faults()),
{
}

/// The broker holds a contract of no command exactly where one of the open contracts is not among
/// the known ones.
pub proof fn a_stranger_is_an_unknown_contract(
    open: Seq<OpenContract>,
    contracts: Map<Seq<char>, String>,
)
    ensures
        !holds_stranger(open, contracts) <==> forall|i: int|
            0 <= i < open.len() ==> contracts.dom().contains(
                (#[trigger] open[i]).contract_ref@,
            ),
{
}

proof fn settled_are_losses(
    records: Seq<Record>,
    losses: Map<Seq<char>, (Seq<char>, i64)>,
    covered: Covered,
    rows: Seq<StatementRow>,
    count: nat,
    command: Seq<char>,
)
    ensures
        settled_at_zero(records, losses, covered, rows, count).contains(command) <==> exists|i: int|
            0 <= i < count && #[trigger] in_order(losses.dom())[i] == command
                && is_settled_at_zero(
                records,
                command,
                losses[command].0,
                losses[command].1,
                covered,
                rows,
            ),
    decreases count,
{
    if count > 0 {
        let fewer = (count - 1) as nat;
        settled_are_losses(records, losses, covered, rows, fewer, command);
        let before = settled_at_zero(records, losses, covered, rows, fewer);
        let all = settled_at_zero(records, losses, covered, rows, count);
        let keys = in_order(losses.dom());
        if all.contains(command) {
            let k = choose|k: int| 0 <= k < all.len() && all[k] == command;
            if k < before.len() {
                assert(before[k] == command);
                assert(before.contains(command));
            } else {
                assert(keys[count - 1] == command);
            }
        }
        if exists|i: int|
            0 <= i < count && #[trigger] keys[i] == command && is_settled_at_zero(
                records,
                command,
                losses[command].0,
                losses[command].1,
                covered,
                rows,
            ) {
            let i = choose|i: int|
                0 <= i < count && #[trigger] keys[i] == command && is_settled_at_zero(
                    records,
                    command,
                    losses[command].0,
                    losses[command].1,
                    covered,
                    rows,
                );
            if i < fewer {
                assert(before.contains(command));
                let k = choose|k: int| 0 <= k < before.len() && before[k] == command;
                assert(all[k] == command);
            } else {
                assert(all[all.len() - 1] == command);
            }
        }
    }
}

/// The engine is told of every lost contract that is known to pay nothing, as a loss of its
/// command, and of no other.
pub proof fn every_silent_loss_is_told(
    told: Seq<Told>,
    records: Seq<Record>,
    losses: Map<Seq<char>, (Seq<char>, i64)>,
    covered: Covered,
    rows: Seq<StatementRow>,
    received: i64,
    now: i64,
    mode: Mode,
    command: Seq<char>,
)
    requires
        losses.dom().finite(),
        losses.dom().contains(command),
        tells_zero_credits(told, records, losses, covered, rows, received, now, mode),
    ensures
        (exists|i: int|
            0 <= i < told.len() && is_zero_credit(
                #[trigger] told[i],
                command,
                losses[command].1,
                received,
                now,
                mode,
            )) <==> (delay_of(records, command) matches Some(delay) && pays_nothing(
            losses[command].0,
            losses[command].1,
            delay,
            covered.observed_now,
            covered.from,
            covered.through,
            rows,
        )),
{
    let keys = in_order(losses.dom());
    let settled = settled_at_zero(records, losses, covered, rows, keys.len());
    crate::table::every_finite_set_is_listed(losses.dom());
    settled_are_losses(records, losses, covered, rows, keys.len(), command);
    assert(keys.contains(command));
    let k = choose|k: int| 0 <= k < keys.len() && keys[k] == command;
    if is_settled_at_zero(records, command, losses[command].0, losses[command].1, covered, rows) {
        assert(keys[k] == command);
        assert(settled.contains(command));
        let i = choose|i: int| 0 <= i < settled.len() && settled[i] == command;
        assert(is_zero_credit(told[i], settled[i], losses[settled[i]].1, received, now, mode));
    }
    if exists|i: int|
        0 <= i < told.len() && is_zero_credit(
            #[trigger] told[i],
            command,
            losses[command].1,
            received,
            now,
            mode,
        ) {
        let i = choose|i: int|
            0 <= i < told.len() && is_zero_credit(
                #[trigger] told[i],
                command,
                losses[command].1,
                received,
                now,
                mode,
            );
        assert(is_zero_credit(told[i], settled[i], losses[settled[i]].1, received, now, mode));
        assert(settled[i] == command);
        assert(settled.contains(command));
    }
}

} // verus!
