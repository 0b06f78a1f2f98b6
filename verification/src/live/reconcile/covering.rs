//! What holds of every statement: since when it is asked for, and which losses it may settle.

use crate::live::control::Claim;
use crate::live::due::expiry_of;
use crate::live::finance::{EventKind, Proposal};
use crate::live::journal::{Record, RecordKind};
use crate::live::reconcile::{
    contract_of, earliest_claim, earliest_loss, has_contract, is_sought, losses_of, pays_nothing,
    second_start, sells, statement_start, window_end, StatementRow,
};
use crate::market::clamped;
use crate::table::in_order;
use crate::text::text_of;
use vstd::prelude::*;

verus! {

/// The second of a moment starts at or before it, less than a second before it, and is whole.
pub proof fn a_second_starts_before_its_moments(time_micros: int)
    ensures
        second_start(time_micros) <= time_micros < second_start(time_micros) + 1_000_000,
        second_start(time_micros) % 1_000_000 == 0,
{
}

/// The window of a purchase ends once it could have been sent, run and been settled; it has no end
/// exactly where one of these moments is none that a clock can show.
pub proof fn a_window_ends_with_the_settlement(start: int, age: i64, proposal: Proposal)
    ensures
        window_end(start, age, proposal) matches Some(end) ==> end == start + age
            + proposal.duration_micros + proposal.max_settlement_delay_micros,
        window_end(start, age, proposal) is Some <==> {
            &&& i64::MIN <= start + age <= i64::MAX
            &&& i64::MIN <= start + age + proposal.duration_micros <= i64::MAX
            &&& i64::MIN <= start + age + proposal.duration_micros
                + proposal.max_settlement_delay_micros <= i64::MAX
        },
{
}

/// A claim may have bought something exactly where it is this deployment's, and was claimed, may
/// have been sent or was accepted.
pub proof fn a_claim_is_sought_while_it_may_have_bought(claim: Claim, deployment: Seq<char>)
    ensures
        claim.deployment@ != deployment ==> !is_sought(claim, deployment),
        claim.deployment@ == deployment && (claim.state is Claimed || claim.state is PossiblySent
            || claim.state is Accepted) ==> is_sought(claim, deployment),
        claim.state is NotSent || claim.state is Reconciled ==> !is_sought(claim, deployment),
{
}

proof fn earliest_claim_is_least(
    claims: Map<Seq<char>, Claim>,
    deployment: Seq<char>,
    keys: Seq<Seq<char>>,
    count: nat,
)
    requires
        count <= keys.len(),
    ensures
        forall|i: int|
            0 <= i < count && claims[#[trigger] keys[i]].deployment@ == deployment
                ==> earliest_claim(claims, deployment, keys, count) is Some && earliest_claim(
                claims,
                deployment,
                keys,
                count,
            )->0 <= claims[keys[i]].signal.time_micros as int / 1_000_000,
        earliest_claim(claims, deployment, keys, count) matches Some(second) ==> exists|i: int|
            0 <= i < count && claims[#[trigger] keys[i]].deployment@ == deployment && second
                == claims[keys[i]].signal.time_micros as int / 1_000_000,
    decreases count,
{
    if count > 0 {
        let fewer = (count - 1) as nat;
        earliest_claim_is_least(claims, deployment, keys, fewer);
        let before = earliest_claim(claims, deployment, keys, fewer);
        let all = earliest_claim(claims, deployment, keys, count);
        assert forall|i: int|
            0 <= i < count && claims[#[trigger] keys[i]].deployment@ == deployment implies all
            is Some && all->0 <= claims[keys[i]].signal.time_micros as int / 1_000_000 by {
            if i < fewer {
                assert(before is Some);
            }
        }
        if let Some(second) = all {
            if before == Some(second) {
                let i = choose|i: int|
                    0 <= i < fewer && claims[#[trigger] keys[i]].deployment@ == deployment
                        && second == claims[keys[i]].signal.time_micros as int / 1_000_000;
                assert(claims[keys[i]].deployment@ == deployment);
            } else {
                assert(claims[keys[count - 1]].deployment@ == deployment);
            }
        }
    }
}

proof fn earliest_loss_is_least(
    start: Option<int>,
    losses: Map<Seq<char>, (String, i64)>,
    keys: Seq<Seq<char>>,
    count: nat,
)
    requires
        count <= keys.len(),
    ensures
        forall|i: int|
            0 <= i < count ==> earliest_loss(start, losses, keys, count) is Some && earliest_loss(
                start,
                losses,
                keys,
                count,
            )->0 <= losses[#[trigger] keys[i]].1 as int / 1_000_000,
        start matches Some(second) ==> earliest_loss(start, losses, keys, count) is Some
            && earliest_loss(start, losses, keys, count)->0 <= second,
        earliest_loss(start, losses, keys, count) matches Some(second) ==> start == Some(second)
            || exists|i: int|
            0 <= i < count && second == losses[#[trigger] keys[i]].1 as int / 1_000_000,
    decreases count,
{
    if count > 0 {
        let fewer = (count - 1) as nat;
        earliest_loss_is_least(start, losses, keys, fewer);
        let before = earliest_loss(start, losses, keys, fewer);
        let all = earliest_loss(start, losses, keys, count);
        assert forall|i: int| 0 <= i < count implies all is Some && all->0
            <= losses[#[trigger] keys[i]].1 as int / 1_000_000 by {
            if i < fewer {
                assert(before is Some);
            }
        }
        if let Some(second) = all {
            if before == Some(second) && start != Some(second) {
                let i = choose|i: int|
                    0 <= i < fewer && second == losses[#[trigger] keys[i]].1 as int / 1_000_000;
                assert(losses[keys[i]].1 as int / 1_000_000 == second);
            } else if before != Some(second) {
                assert(losses[keys[count - 1]].1 as int / 1_000_000 == second);
            }
        }
    }
}

/// A statement is asked for since the earliest second that matters: no claim of the deployment was
/// signalled and no lost contract expired before it, and one of them was then; where there are
/// none, it is asked for since now.
pub proof fn a_statement_starts_with_what_matters_first(
    claims: Map<Seq<char>, Claim>,
    deployment: Seq<char>,
    losses: Map<Seq<char>, (String, i64)>,
    now: i64,
)
    requires
        claims.dom().finite(),
        losses.dom().finite(),
    ensures
        forall|command: Seq<char>|
            claims.dom().contains(command) && (#[trigger] claims[command]).deployment@
                == deployment ==> statement_start(claims, deployment, losses, now)
                <= claims[command].signal.time_micros as int / 1_000_000,
        forall|command: Seq<char>|
            losses.dom().contains(command) ==> statement_start(claims, deployment, losses, now)
                <= (#[trigger] losses[command]).1 as int / 1_000_000,
        (exists|command: Seq<char>|
            claims.dom().contains(command) && (#[trigger] claims[command]).deployment@ == deployment
                && statement_start(claims, deployment, losses, now)
                == claims[command].signal.time_micros as int / 1_000_000) || (exists|
            command: Seq<char>,
        |
            losses.dom().contains(command) && statement_start(claims, deployment, losses, now) == (
            #[trigger] losses[command]).1 as int / 1_000_000) || statement_start(
            claims,
            deployment,
            losses,
            now,
        ) == now as int / 1_000_000,
{
    let claim_keys = in_order(claims.dom());
    let loss_keys = in_order(losses.dom());
    crate::table::every_finite_set_is_listed(claims.dom());
    crate::table::every_finite_set_is_listed(losses.dom());
    earliest_claim_is_least(claims, deployment, claim_keys, claim_keys.len());
    let first = earliest_claim(claims, deployment, claim_keys, claim_keys.len());
    earliest_loss_is_least(first, losses, loss_keys, loss_keys.len());
    let all = earliest_loss(first, losses, loss_keys, loss_keys.len());
    assert forall|command: Seq<char>|
        claims.dom().contains(command) && (#[trigger] claims[command]).deployment@
            == deployment implies statement_start(claims, deployment, losses, now)
        <= claims[command].signal.time_micros as int / 1_000_000 by {
        assert(claim_keys.contains(command));
        let i = choose|i: int| 0 <= i < claim_keys.len() && claim_keys[i] == command;
        assert(claims[claim_keys[i]].deployment@ == deployment);
    }
    assert forall|command: Seq<char>| losses.dom().contains(command) implies statement_start(
        claims,
        deployment,
        losses,
        now,
    ) <= (#[trigger] losses[command]).1 as int / 1_000_000 by {
        assert(loss_keys.contains(command));
        let i = choose|i: int| 0 <= i < loss_keys.len() && loss_keys[i] == command;
        assert(losses[loss_keys[i]].1 as int / 1_000_000 >= all->0);
    }
    if let Some(second) = all {
        if first == Some(second) {
            let i = choose|i: int|
                0 <= i < claim_keys.len() && claims[#[trigger] claim_keys[i]].deployment@
                    == deployment && second == claims[claim_keys[i]].signal.time_micros as int
                    / 1_000_000;
            assert(claim_keys.contains(claim_keys[i]));
            assert(claims.dom().contains(claim_keys[i]));
        } else {
            let i = choose|i: int|
                0 <= i < loss_keys.len() && second == losses[#[trigger] loss_keys[i]].1 as int
                    / 1_000_000;
            assert(loss_keys.contains(loss_keys[i]));
            assert(losses.dom().contains(loss_keys[i]));
        }
    }
}

/// Whether a record says that a command's contract was lost.
pub open spec fn reports_loss(record: Record, command: Seq<char>) -> bool {
    record.kind matches RecordKind::Ledger { event } && event.kind matches EventKind::Unresolved {
        command: named,
        terminal: Some(terminal),
        ..
    } && named@ == command && terminal.status is Lost
}

/// Whether a record says that a command's contract was settled.
pub open spec fn reports_settlement(record: Record, command: Seq<char>) -> bool {
    ||| record.kind matches RecordKind::Ledger { event } && event.kind matches EventKind::Settled {
        command: named,
        ..
    } && named@ == command
    ||| record.kind matches RecordKind::Ledger { event }
        && event.kind matches EventKind::Reconciled { command: named, resolution, .. } && named@
        == command && resolution is Settled
}

/// A loss is unpaid exactly where the journal reports it, of a contract that is known and whose
/// expiry was confirmed, and reports no settlement of the command since.
pub proof fn a_loss_is_unpaid_until_it_is_settled(
    records: Seq<Record>,
    contracts: Map<Seq<char>, String>,
    count: nat,
    command: Seq<char>,
)
    requires
        count <= records.len(),
    ensures
        losses_of(records, contracts, count).dom().contains(command) <==> {
            &&& contract_of(contracts, in_order(contracts.dom()), command) is Some
            &&& expiry_of(records, command) is Some
            &&& exists|i: int|
                0 <= i < count && reports_loss(#[trigger] records[i], command) && forall|j: int|
                    i < j < count ==> !reports_settlement(#[trigger] records[j], command)
        },
        losses_of(records, contracts, count).dom().contains(command) ==> losses_of(
            records,
            contracts,
            count,
        )[command] == (
            in_order(contracts.dom())[contract_of(
                contracts,
                in_order(contracts.dom()),
                command,
            )->0],
            expiry_of(records, command)->0,
        ),
    decreases count,
{
    if count > 0 {
        let fewer = (count - 1) as nat;
        a_loss_is_unpaid_until_it_is_settled(records, contracts, fewer, command);
        let last = records[count - 1];
        let before = losses_of(records, contracts, fewer);
        let all = losses_of(records, contracts, count);
        let known = contract_of(contracts, in_order(contracts.dom()), command) is Some
            && expiry_of(records, command) is Some;
        if reports_loss(last, command) {
            assert(!reports_settlement(last, command));
            assert(known ==> all.dom().contains(command));
        } else if reports_settlement(last, command) {
            assert(!all.dom().contains(command));
            if exists|i: int|
                0 <= i < count && reports_loss(#[trigger] records[i], command) && forall|j: int|
                    i < j < count ==> !reports_settlement(#[trigger] records[j], command) {
                let i = choose|i: int|
                    0 <= i < count && reports_loss(#[trigger] records[i], command) && forall|
                        j: int,
                    |
                        i < j < count ==> !reports_settlement(#[trigger] records[j], command);
                assert(i < count - 1);
                assert(!reports_settlement(records[count - 1], command));
            }
        } else {
            assert(all.dom().contains(command) == before.dom().contains(command));
            assert(before.dom().contains(command) ==> all[command] == before[command]);
            if exists|i: int|
                0 <= i < fewer && reports_loss(#[trigger] records[i], command) && forall|j: int|
                    i < j < fewer ==> !reports_settlement(#[trigger] records[j], command) {
                let i = choose|i: int|
                    0 <= i < fewer && reports_loss(#[trigger] records[i], command) && forall|
                        j: int,
                    |
                        i < j < fewer ==> !reports_settlement(#[trigger] records[j], command);
                assert forall|j: int| i < j < count implies !reports_settlement(
                    #[trigger] records[j],
                    command,
                ) by {
                    if j == count - 1 {
                        assert(records[j] == last);
                    }
                }
                assert(reports_loss(records[i], command));
            }
            if exists|i: int|
                0 <= i < count && reports_loss(#[trigger] records[i], command) && forall|j: int|
                    i < j < count ==> !reports_settlement(#[trigger] records[j], command) {
                let i = choose|i: int|
                    0 <= i < count && reports_loss(#[trigger] records[i], command) && forall|
                        j: int,
                    |
                        i < j < count ==> !reports_settlement(#[trigger] records[j], command);
                assert(i < fewer);
                assert(reports_loss(records[i], command));
            }
        }
    }
}

/// A command has its contract exactly where one of the known contracts is its.
pub proof fn a_contract_is_known_by_its_command(
    contracts: Map<Seq<char>, String>,
    command: Seq<char>,
    contract: Seq<char>,
)
    requires
        contracts.dom().contains(contract),
    ensures
        contracts[contract]@ == command ==> has_contract(contracts, command),
        !has_contract(contracts, command) ==> contracts[contract]@ != command,
{
}

/// A lost contract is known to pay nothing exactly where its last moment of payment has passed,
/// lies within the statement, whose first second is not after the expiry, and no row credits its
/// sale.
pub proof fn a_loss_pays_nothing_once_the_statement_is_silent(
    contract: Seq<char>,
    expiry: i64,
    delay: i64,
    observed_now: i64,
    from: i64,
    through: i64,
    rows: Seq<StatementRow>,
)
    ensures
        pays_nothing(contract, expiry, delay, observed_now, from, through, rows) <==> {
            &&& observed_now >= clamped(expiry + delay)
            &&& through * 1_000_000 >= clamped(expiry + delay)
            &&& from * 1_000_000 <= expiry
            &&& forall|i: int|
                0 <= i < rows.len() && (#[trigger] rows[i]).cash.action is Sell ==> text_of(
                    rows[i].cash.contract_ref,
                ) != Some(contract)
        },
{
    if pays_nothing(contract, expiry, delay, observed_now, from, through, rows) {
        assert forall|i: int| 0 <= i < rows.len() && (#[trigger] rows[i]).cash.action
            is Sell implies text_of(rows[i].cash.contract_ref) != Some(contract) by {
            assert(!sells(rows[i], contract));
        }
    }
    if forall|i: int|
        0 <= i < rows.len() && (#[trigger] rows[i]).cash.action is Sell ==> text_of(
            rows[i].cash.contract_ref,
        ) != Some(contract) {
        assert forall|i: int| 0 <= i < rows.len() implies !sells(#[trigger] rows[i], contract) by {
        }
    }
}

} // verus!
