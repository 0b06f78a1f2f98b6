//! The ordered owner's reaction to what workers report: which vetoes it raises or lifts, and
//! when a recorded run has failed.

use crate::live::claims::is_unresolved;
use crate::live::control::Claim;
use crate::live::deployment::Mode;
use crate::live::entries::{after_veto, Vetoes, AUTHORIZATION, BALANCE, CONTINUITY, PORTFOLIO};
use crate::live::finance::{same_amount, Decimal};
use crate::live::journal::RecordKind;
use crate::live::receipt::{Dimension, Status};
use crate::live::reconcile::{holds_stranger, uncorrelated_liability, OpenContract};
use crate::live::workers::{renewal_finished, Intent};
use crate::search::{first_where, first_where_absent, first_where_found};
use crate::table::Table;
use crate::text::{join, refusal, same_text, text_of};
use vstd::prelude::*;
use vstd::string::*;

verus! {

pub const BALANCE_UNAVAILABLE: &'static str = "balance unavailable";

pub const BROKER_RECOVERY: &'static str = "broker recovery unavailable";

pub const TRANSACTIONS: &'static str = "transaction subscription unavailable";

pub const ACCOUNT_CONNECTION: &'static str = "account connection unavailable";

/// The veto of a contract whose updates are not subscribed to.
pub open spec fn subscription_veto(contract: Seq<char>) -> Seq<char> {
    "contract subscription unavailable: "@ + contract
}

/// The veto of a binding without a proposal.
pub open spec fn proposal_veto(binding: Seq<char>) -> Seq<char> {
    "proposal unavailable: "@ + binding
}

/// Raises or lifts the veto of a contract whose updates are not subscribed to.
pub fn veto_subscription(vetoes: &mut Vetoes, contract: &str, present: bool)
    ensures
        final(vetoes)@ == after_veto(old(vetoes)@, subscription_veto(contract@), present),
{
    let reason = join("contract subscription unavailable: ", contract);
    vetoes.set(reason.as_str(), present);
}

/// Raises or lifts the veto of a binding without a proposal.
pub fn veto_proposal(vetoes: &mut Vetoes, binding: &str, present: bool)
    ensures
        final(vetoes)@ == after_veto(old(vetoes)@, proposal_veto(binding@), present),
{
    let reason = join("proposal unavailable: ", binding);
    vetoes.set(reason.as_str(), present);
}

/// A subscription went through: of a contract's updates, or of transactions.
pub fn subscribed(
    vetoes: &mut Vetoes,
    pending: &mut Table<()>,
    done: &mut Table<()>,
    contract: Option<String>,
)
    ensures
        match contract {
            Some(contract) => {
                &&& final(vetoes)@ == after_veto(
                    old(vetoes)@,
                    subscription_veto(contract@),
                    false,
                )
                &&& final(pending)@ == old(pending)@.remove(contract@)
                &&& final(done)@ == old(done)@.insert(contract@, ())
            },
            None => {
                &&& final(vetoes)@ == after_veto(old(vetoes)@, TRANSACTIONS@, false)
                &&& final(pending)@ == old(pending)@
                &&& final(done)@ == old(done)@
            },
        },
{
    match contract {
        Some(contract) => {
            let _ = pending.remove(contract.as_str());
            veto_subscription(vetoes, contract.as_str(), false);
            done.insert(contract, ());
        },
        None => {
            vetoes.set(TRANSACTIONS, false);
        },
    }
}

/// Whether the updates of a contract are to be subscribed to: they are not, and nothing is under
/// way.
pub fn subscribes(done: &Table<()>, pending: &mut Table<()>, contract: &str) -> (ask: bool)
    ensures
        ask == (!done@.dom().contains(contract@) && !old(pending)@.dom().contains(contract@)),
        final(pending)@ == (if ask {
            old(pending)@.insert(contract@, ())
        } else {
            old(pending)@
        }),
{
    if done.contains(contract) || pending.contains(contract) {
        return false;
    }
    pending.insert(contract.to_owned(), ());
    true
}

/// The broker's balance was read. A mismatch is a completed read, not a reason to poll forever; a
/// reading that must be repeated reconciles nothing.
pub fn balance(vetoes: &mut Vetoes, refresh_due: bool, reported: Decimal, cash: Decimal) -> (
reconciled: bool)
    ensures
        reconciled == (!refresh_due && same_amount(reported, cash)),
        final(vetoes)@ == after_veto(
            after_veto(old(vetoes)@, BALANCE@, !reconciled),
            BALANCE_UNAVAILABLE@,
            false,
        ),
{
    let reconciled: bool = !refresh_due && reported.same(cash);
    vetoes.set(BALANCE, !reconciled);
    vetoes.set(BALANCE_UNAVAILABLE, false);
    reconciled
}

/// The broker's open contracts were read outside a recovery.
pub fn portfolio(vetoes: &mut Vetoes, open: &Vec<OpenContract>, contracts: &Table<String>)
    ensures
        final(vetoes)@ == after_veto(
            old(vetoes)@,
            PORTFOLIO@,
            holds_stranger(open@, contracts@),
        ),
{
    vetoes.set(PORTFOLIO, uncorrelated_liability(open, contracts));
}

/// The first dimension of a receipt that lies outside its envelope.
pub open spec fn first_outside(dimensions: Seq<Dimension>) -> Option<int> {
    first_where(dimensions, |dimension: Dimension| dimension.status is OutsideEnvelope)
}

/// Vetoes entries where a receipt lies outside its envelope. Nothing lifts this veto.
pub fn compatibility(vetoes: &mut Vetoes, dimensions: &Vec<Dimension>)
    ensures
        final(vetoes)@ == (match first_outside(dimensions@) {
            Some(at) => after_veto(
                old(vetoes)@,
                "compatibility outside envelope: "@ + dimensions@[at].name@,
                true,
            ),
            None => old(vetoes)@,
        }),
{
    let ghost outside = |dimension: Dimension| dimension.status is OutsideEnvelope;
    let mut i: usize = 0;
    while i < dimensions.len()
        invariant
            i <= dimensions@.len(),
            vetoes@ == old(vetoes)@,
            outside == (|dimension: Dimension| dimension.status is OutsideEnvelope),
            forall|j: int| 0 <= j < i ==> !outside(#[trigger] dimensions@[j]),
        decreases dimensions@.len() - i,
    {
        if dimensions[i].status == Status::OutsideEnvelope {
            proof {
                first_where_found(dimensions@, outside, i as int);
            }
            let reason = join("compatibility outside envelope: ", dimensions[i].name);
            vetoes.set(reason.as_str(), true);
            return;
        }
        i = i + 1;
    }
    proof {
        first_where_absent(dimensions@, outside);
    }
}

/// The vetoes after a request of the account worker failed.
pub open spec fn after_failure(
    vetoes: Set<Seq<char>>,
    intent: Intent,
    binding: Option<Seq<char>>,
) -> Set<Seq<char>> {
    match intent {
        Intent::Proposal(request) => after_veto(vetoes, proposal_veto(request.binding@), true),
        Intent::Prepare(_) => match binding {
            Some(binding) => after_veto(vetoes, proposal_veto(binding), true),
            None => vetoes,
        },
        Intent::Write { .. } => vetoes,
        Intent::Balance => after_veto(vetoes, BALANCE_UNAVAILABLE@, true),
        Intent::Statement { .. } => after_veto(vetoes, BROKER_RECOVERY@, true),
        Intent::OpenContracts => after_veto(vetoes, BROKER_RECOVERY@, true),
        Intent::SubscribeContract { contract } => after_veto(
            vetoes,
            subscription_veto(contract@),
            true,
        ),
        Intent::Transactions => after_veto(vetoes, TRANSACTIONS@, true),
        Intent::Subscribe { .. } => after_veto(vetoes, CONTINUITY@, true),
    }
}

/// What the owner does about a request that failed, besides the vetoes.
#[derive(Debug, Clone, Copy, PartialEq, Eq, Structural)]
pub enum Failure {
    /// The offer is withdrawn and refused; rows that wait go on without it.
    Refuse,
    /// The purchase was not sent.
    NotSent,
    /// The purchase may have been sent.
    PossiblySent,
    /// The balance is awaited no longer.
    Balance,
    /// The recovery is over.
    Recovery,
    /// The subscription is under way no longer.
    Subscription,
    Nothing,
}

/// What the owner does about a request that failed, besides the vetoes.
pub open spec fn failure_of(intent: Intent) -> Failure {
    match intent {
        Intent::Proposal(_) => Failure::Refuse,
        Intent::Prepare(_) => Failure::NotSent,
        Intent::Write { .. } => Failure::PossiblySent,
        Intent::Balance => Failure::Balance,
        Intent::Statement { .. } => Failure::Recovery,
        Intent::OpenContracts => Failure::Recovery,
        Intent::SubscribeContract { .. } => Failure::Subscription,
        Intent::Transactions => Failure::Nothing,
        Intent::Subscribe { .. } => Failure::Nothing,
    }
}

/// A request of the account worker failed. A failed proposal leaves a refusal in the journal;
/// every other failure leaves a discontinuity.
pub fn failed(vetoes: &mut Vetoes, intent: &Intent, binding: Option<&str>, reason: &str) -> (result:
    (Failure, Option<RecordKind>))
    ensures
        final(vetoes)@ == after_failure(
            old(vetoes)@,
            *intent,
            crate::live::control::seen(binding),
        ),
        result.0 == failure_of(*intent),
        match result.1 {
            Some(RecordKind::Discontinuity { reason: noted }) => *intent !is Proposal && noted@
                == reason@,
            Some(_) => false,
            None => *intent is Proposal,
        },
{
    let noted: Option<RecordKind> = match intent {
        Intent::Proposal(_) => None,
        _ => Some(RecordKind::Discontinuity { reason: reason.to_owned() }),
    };
    let failure = match intent {
        Intent::Proposal(request) => {
            veto_proposal(vetoes, request.binding.as_str(), true);
            Failure::Refuse
        },
        Intent::Prepare(_) => {
            if let Some(binding) = binding {
                veto_proposal(vetoes, binding, true);
            }
            Failure::NotSent
        },
        Intent::Write { .. } => Failure::PossiblySent,
        Intent::Balance => {
            vetoes.set(BALANCE_UNAVAILABLE, true);
            Failure::Balance
        },
        Intent::Statement { .. } => {
            vetoes.set(BROKER_RECOVERY, true);
            Failure::Recovery
        },
        Intent::OpenContracts => {
            vetoes.set(BROKER_RECOVERY, true);
            Failure::Recovery
        },
        Intent::SubscribeContract { contract } => {
            veto_subscription(vetoes, contract.as_str(), true);
            Failure::Subscription
        },
        Intent::Transactions => {
            vetoes.set(TRANSACTIONS, true);
            Failure::Nothing
        },
        Intent::Subscribe { .. } => {
            vetoes.set(CONTINUITY, true);
            Failure::Nothing
        },
    };
    (failure, noted)
}

/// A failed write is never taken for a purchase that was not sent.
pub proof fn a_failed_write_stays_possibly_sent(intent: Intent)
    requires
        intent is Write,
    ensures
        failure_of(intent) is PossiblySent,
{
}

/// Whether a failure fails a whole recorded run: any that the broker did not itself answer.
pub open spec fn fails_replay(mode: Mode, rejected: bool) -> bool {
    mode is Replay && !rejected
}

/// Keeps the first failure of a recorded run.
pub fn note_failure(failure: &mut Option<String>, mode: Mode, rejected: bool, reason: &str)
    ensures
        text_of(*final(failure)) == (if fails_replay(mode, rejected) && *old(failure) is None {
            Some(reason@)
        } else {
            text_of(*old(failure))
        }),
{
    if mode == Mode::Replay && !rejected && failure.is_none() {
        *failure = Some(reason.to_owned());
    }
}

/// Whether an authorization is asked for: a live run without one, when none is awaited.
pub fn asks_authorization(mode: Mode, pending: bool, vetoes: &Vetoes, journal_sequence: u64) -> (
ask: bool)
    ensures
        ask == (mode is Live && !pending && (vetoes@.contains(AUTHORIZATION@) || journal_sequence
            == 0)),
{
    mode == Mode::Live && !pending && (vetoes.contains(AUTHORIZATION) || journal_sequence == 0)
}

/// Checks whether the run can go on: nothing has failed, neither here nor in the clock of a
/// recorded run. Where the renewal worker has ended, the lease is answered with the reason.
pub fn check_progress(
    failure: &Option<String>,
    clock_failure: &Option<String>,
    running: bool,
    finished: bool,
    panicked: bool,
) -> (lease: Result<Option<String>, String>)
    ensures
        refusal(lease) == (if failure is Some {
            text_of(*failure)
        } else if clock_failure is Some {
            text_of(*clock_failure)
        } else if running && finished && panicked {
            Some("live: renewal worker panicked"@)
        } else {
            None
        }),
        lease matches Ok(reply) ==> text_of(reply) == (if running && finished {
            Some("lease renewal connection ended"@)
        } else {
            None
        }),
{
    if let Some(error) = failure {
        return Err(error.clone());
    }
    if let Some(error) = clock_failure {
        return Err(error.clone());
    }
    match renewal_finished(running, finished, panicked) {
        Ok(ended) => if ended {
            Ok(Some("lease renewal connection ended".to_owned()))
        } else {
            Ok(None)
        },
        Err(error) => Err(error),
    }
}

/// Checks whether a recorded run can go on: nothing is awaited that could still arrive.
pub fn check_replay_progress(authorization_pending: bool, uploads: usize, stalled: bool) -> (checked:
    Result<(), String>)
    ensures
        refusal(checked) == (if !authorization_pending && uploads == 0 && stalled {
            Some(
                "live replay: recorded log stalled before all frames and expected writes were consumed"@,
            )
        } else {
            None
        }),
{
    if !authorization_pending && uploads == 0 && stalled {
        return Err(
            "live replay: recorded log stalled before all frames and expected writes were consumed".to_owned(),
        );
    }
    Ok(())
}

/// Whether a recorded run is over: its log is exhausted, and an idle poll since then has added
/// nothing to the journal.
pub fn exhausted(
    log_exhausted: bool,
    exhausted_at: &mut Option<u64>,
    journal_sequence: u64,
) -> (over: bool)
    ensures
        over == (log_exhausted && *old(exhausted_at) == Some(journal_sequence)),
        *final(exhausted_at) == (if log_exhausted && !over {
            Some(journal_sequence)
        } else {
            *old(exhausted_at)
        }),
{
    if log_exhausted {
        let same: bool = match *exhausted_at {
            Some(sequence) => sequence == journal_sequence,
            None => false,
        };
        if same {
            return true;
        }
        *exhausted_at = Some(journal_sequence);
    }
    false
}

/// How many of the first `count` claims are unresolved and not among the commands that the
/// engine doubts already.
pub open spec fn pending_claims(
    claims: Map<Seq<char>, Claim>,
    keys: Seq<Seq<char>>,
    doubted: Set<Seq<char>>,
    count: nat,
) -> nat
    decreases count,
{
    if count == 0 {
        0
    } else {
        let claim = claims[keys[count - 1]];
        pending_claims(claims, keys, doubted, (count - 1) as nat) + (if is_unresolved(claim)
            && !doubted.contains(claim.command@) {
            1nat
        } else {
            0nat
        })
    }
}

/// How many commands are uncertain: those that the engine counts, and the unresolved claims that
/// it does not count.
pub fn uncertain_commands(claims: &Table<Claim>, doubted: &Table<()>, unresolved: u64) -> (count:
    u64)
    requires
        unresolved + claims@.dom().len() <= u64::MAX,
    ensures
        count == unresolved + pending_claims(
            claims@,
            crate::table::in_order(claims@.dom()),
            doubted@.dom(),
            crate::table::in_order(claims@.dom()).len(),
        ),
{
    let total: usize = claims.len();
    let ghost keys = claims.keys();
    let mut pending: u64 = 0;
    let mut i: usize = 0;
    while i < total
        invariant
            i <= total,
            keys == claims.keys(),
            total == keys.len(),
            unresolved + total <= u64::MAX,
            pending <= i,
            pending == pending_claims(claims@, keys, doubted@.dom(), i as nat),
        decreases total - i,
    {
        let (_, claim) = claims.at(i);
        let open: bool = match claim.state {
            crate::live::control::ClaimState::Claimed => true,
            crate::live::control::ClaimState::PossiblySent => true,
            _ => false,
        };
        if open && !doubted.contains(claim.command.as_str()) {
            pending = pending + 1;
        }
        i = i + 1;
    }
    unresolved + pending
}

/// Whether the run's health is written: when it is due, or when it has changed.
pub fn writes_health(
    now: i64,
    last: i64,
    interval: i64,
    published: &Option<String>,
    health: &str,
) -> (decision: (bool, bool))
    ensures
        decision.1 == (crate::market::clamped(now - last) >= interval),
        decision.0 == (decision.1 || text_of(*published) != Some(health@)),
{
    let due: bool = crate::market::saturating_difference(now, last) >= interval;
    let same: bool = match published {
        Some(text) => same_text(text.as_str(), health),
        None => false,
    };
    (due || !same, due)
}

} // verus!
