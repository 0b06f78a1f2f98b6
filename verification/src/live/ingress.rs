//! What the ordered owner does with each thing that a worker reports: how its own state changes,
//! and what is to be done next.

use crate::live::authorization::{grants, objection, Authorization, Bindings};
use crate::live::claims::possibly_sent_among;
use crate::live::control::{Claim, ClaimState};
use crate::live::deployment::Mode;
use crate::live::entries::{
    after_veto, Vetoes, AUTHORIZATION, CONTINUITY, PORTFOLIO, RECOVERY, WARMUP,
};
use crate::live::lease::{is_time, Holding};
use crate::live::opening::{add_segment, keyed};
use crate::live::owner::{fails_replay, note_failure, portfolio, ACCOUNT_CONNECTION};
use crate::live::receipt::Segment;
use crate::live::reconcile::{holds_stranger, statement_range, statement_start, OpenContract};
use crate::live::rows::Warmth;
use crate::table::Table;
use crate::text::{join, text_of};
use vstd::prelude::*;
use vstd::string::*;

verus! {

/// What a worker reports. Ticks and breaks of the market are taken by `crate::live::market`, and
/// account facts, replies and lease answers where claims, purchases and leases are.
#[derive(Debug)]
pub enum Ingress {
    MarketFailed(String),
    AccountFailed(String),
    Uploaded { name: String, segment: Segment },
    UploadFailed { name: String, reason: String },
    Authorization(Result<Option<Authorization>, String>),
    WorkerFailed(String),
}

/// What the owner keeps of the reports.
#[derive(Debug)]
pub struct Owner {
    pub vetoes: Vetoes,
    pub warmth: Warmth,
    pub uploads: Table<()>,
    pub upload_errors: Table<String>,
    pub segments: Table<Segment>,
    pub authorization_pending: bool,
    pub failure: Option<String>,
}

/// What is to be done after a report.
#[derive(Debug)]
pub enum Step {
    /// Record that the stream of facts broke, and why.
    RecordDiscontinuity(String),
    /// Mark the segment of a name as uploaded, and remove it if it may go, unless the run was
    /// interrupted.
    MarkUploaded(String),
    /// Look again at the rows that waited for the authorization.
    RowsReady,
    Nothing,
    /// End the run.
    Fail(String),
}

/// What a live run must be bound to, and the hash of the authorization that came.
#[derive(Debug, Clone, Copy)]
pub struct Grant<'a> {
    pub expected: Bindings<'a>,
    pub content_hash: &'a str,
}

/// Whether a report of an authorization lifts its veto.
pub open spec fn is_granted(found: Result<Option<Authorization>, String>, grant: Grant) -> bool {
    found matches Ok(Some(authorization)) && objection(
        authorization,
        grant.expected,
        grant.content_hash@,
    ) is None
}

/// The reasons that veto entries after a report.
pub open spec fn reasons_after(reasons: Set<Seq<char>>, event: Ingress, grant: Grant) -> Set<
    Seq<char>,
> {
    match event {
        Ingress::MarketFailed(_) => after_veto(
            after_veto(reasons, CONTINUITY@, true),
            WARMUP@,
            true,
        ),
        Ingress::AccountFailed(_) => after_veto(reasons, ACCOUNT_CONNECTION@, true),
        Ingress::Authorization(found) => after_veto(
            reasons,
            AUTHORIZATION@,
            !is_granted(found, grant),
        ),
        _ => reasons,
    }
}

/// The failure that a recorded run keeps after a report.
pub open spec fn failure_after(failure: Option<Seq<char>>, event: Ingress, mode: Mode) -> Option<
    Seq<char>,
> {
    match event {
        Ingress::MarketFailed(reason) => if fails_replay(mode, false) && failure is None {
            Some(reason@)
        } else {
            failure
        },
        Ingress::AccountFailed(reason) => if fails_replay(mode, false) && failure is None {
            Some(reason@)
        } else {
            failure
        },
        _ => failure,
    }
}

/// Whether a step is the one that follows a report.
pub open spec fn follows(step: Step, event: Ingress) -> bool {
    match event {
        Ingress::MarketFailed(reason) => step matches Step::RecordDiscontinuity(noted) && noted@
            == reason@,
        Ingress::AccountFailed(reason) => step matches Step::RecordDiscontinuity(noted) && noted@
            == reason@,
        Ingress::Uploaded { name, .. } => step matches Step::MarkUploaded(marked) && marked@
            == name@,
        Ingress::UploadFailed { .. } => step is Nothing,
        Ingress::Authorization(_) => step is RowsReady,
        Ingress::WorkerFailed(reason) => step matches Step::Fail(failed) && failed@ == reason@,
    }
}

impl Owner {
    /// Whether the state is consistent: segments stand under their own keys.
    pub open spec fn valid(&self) -> bool {
        keyed(self.segments@)
    }

    /// Takes a report in.
    pub fn ingress(&mut self, event: Ingress, mode: Mode, grant: Grant<'_>) -> (step: Step)
        requires
            old(self).valid(),
        ensures
            final(self).valid(),
            follows(step, event),
            final(self).vetoes@ == reasons_after(old(self).vetoes@, event, grant),
            text_of(final(self).failure) == failure_after(
                text_of(old(self).failure),
                event,
                mode,
            ),
            final(self).warmth.warm@ == (if event is MarketFailed {
                Seq::new(old(self).warmth.warm@.len(), |i: int| false)
            } else {
                old(self).warmth.warm@
            }),
            final(self).uploads@ == (match event {
                Ingress::Uploaded { name, .. } => old(self).uploads@.remove(name@),
                Ingress::UploadFailed { name, .. } => old(self).uploads@.remove(name@),
                _ => old(self).uploads@,
            }),
            final(self).upload_errors@ == (match event {
                Ingress::Uploaded { name, .. } => old(self).upload_errors@.remove(name@),
                Ingress::UploadFailed { name, reason } => old(self).upload_errors@.insert(
                    name@,
                    reason,
                ),
                _ => old(self).upload_errors@,
            }),
            final(self).segments@ == (match event {
                Ingress::Uploaded { segment, .. } => if old(self).segments@.dom().contains(
                    segment.key@,
                ) {
                    old(self).segments@
                } else {
                    old(self).segments@.insert(segment.key@, segment)
                },
                _ => old(self).segments@,
            }),
            final(self).authorization_pending == (old(self).authorization_pending && !(
            event is Authorization)),
    {
        match event {
            Ingress::MarketFailed(reason) => {
                self.warmth.broken(&mut self.vetoes);
                note_failure(&mut self.failure, mode, false, reason.as_str());
                Step::RecordDiscontinuity(reason)
            },
            Ingress::AccountFailed(reason) => {
                self.vetoes.set(ACCOUNT_CONNECTION, true);
                note_failure(&mut self.failure, mode, false, reason.as_str());
                Step::RecordDiscontinuity(reason)
            },
            Ingress::Uploaded { name, segment } => {
                let _ = self.uploads.remove(name.as_str());
                let _ = self.upload_errors.remove(name.as_str());
                add_segment(&mut self.segments, segment);
                Step::MarkUploaded(name)
            },
            Ingress::UploadFailed { name, reason } => {
                let _ = self.uploads.remove(name.as_str());
                self.upload_errors.insert(name, reason);
                Step::Nothing
            },
            Ingress::Authorization(found) => {
                self.authorization_pending = false;
                let granted: bool = grants(found, grant.expected, grant.content_hash);
                self.vetoes.set(AUTHORIZATION, !granted);
                Step::RowsReady
            },
            Ingress::WorkerFailed(reason) => Step::Fail(reason),
        }
    }
}

/// An authorization that is absent, unreadable or bound to anything else keeps entries vetoed.
pub proof fn entries_need_the_exact_authorization(
    reasons: Set<Seq<char>>,
    found: Result<Option<Authorization>, String>,
    grant: Grant,
)
    requires
        !reasons_after(reasons, Ingress::Authorization(found), grant).contains(AUTHORIZATION@),
    ensures
        found matches Ok(Some(authorization)) && objection(
            authorization,
            grant.expected,
            grant.content_hash@,
        ) is None,
{
}

/// A recovery from the broker: whether one is under way, and the open contracts that it has read.
#[derive(Debug)]
pub struct Recovery {
    pub pending: bool,
    pub open: Option<Vec<OpenContract>>,
}

impl Recovery {
    /// Asks for a recovery, unless one is under way: since which second, and through which, the
    /// statement must be read beside the open contracts.
    pub fn request(
        &mut self,
        claims: &Table<Claim>,
        deployment: &str,
        losses: &Table<(String, i64)>,
        now: i64,
    ) -> (range: Option<(i64, i64)>)
        ensures
            final(self).pending,
            final(self).open == old(self).open,
            range is Some == !old(self).pending,
            range matches Some(range) ==> {
                &&& range.0 == statement_start(claims@, deployment@, losses@, now)
                &&& range.1 == now as int / 1_000_000
            },
    {
        if self.pending {
            return None;
        }
        self.pending = true;
        Some(statement_range(claims, deployment, losses, now))
    }

    /// The open contracts were read: a recovery keeps them for its statement; otherwise strangers
    /// among them veto entries.
    pub fn contracts_read(
        &mut self,
        vetoes: &mut Vetoes,
        open: Vec<OpenContract>,
        contracts: &Table<String>,
    )
        ensures
            final(self).pending == old(self).pending,
            final(self).open == (if old(self).pending {
                Some(open)
            } else {
                old(self).open
            }),
            final(vetoes)@ == (if old(self).pending {
                old(vetoes)@
            } else {
                after_veto(old(vetoes)@, PORTFOLIO@, holds_stranger(open@, contracts@))
            }),
    {
        if self.pending {
            self.open = Some(open);
        } else {
            portfolio(vetoes, &open, contracts);
        }
    }

    /// The statement was read, which ends the recovery: the open contracts to reconcile with it.
    pub fn statement_read(&mut self) -> (open: Option<Vec<OpenContract>>)
        ensures
            open == old(self).open,
            !final(self).pending,
            final(self).open is None,
    {
        self.pending = false;
        self.open.take()
    }
}

/// The claims could not be read: entries are vetoed until they are, and the reason is recorded.
pub fn claims_unavailable(vetoes: &mut Vetoes, error: &str) -> (reason: String)
    ensures
        final(vetoes)@ == after_veto(old(vetoes)@, RECOVERY@, true),
        reason@ == "claim recovery unavailable: "@ + error@,
{
    vetoes.set(RECOVERY, true);
    join("claim recovery unavailable: ", error)
}

/// What is due at one turn of the owner's clock.
#[derive(Debug, Clone, Copy, PartialEq, Eq, Structural)]
pub struct Due {
    /// The authorization is checked, and the claims are read again.
    pub checks: bool,
    /// The owner renews its lease itself.
    pub renews: bool,
    /// Closed segments are uploaded.
    pub uploads: bool,
}

/// Decides what is due at one turn of the owner's clock.
pub fn periodic(
    holding: &mut Holding,
    now: i64,
    interval: i64,
    clock_anchored: bool,
    worker: bool,
    upload_errors: usize,
) -> (due: Due)
    requires
        is_time(now - old(holding).last_renewal),
    ensures
        due.checks == (now - old(holding).last_renewal >= interval),
        due.renews == (due.checks && !clock_anchored && !worker && old(holding).token != 0),
        due.uploads == (due.checks || upload_errors == 0),
        *final(holding) == (Holding {
            last_renewal: if due.checks {
                now
            } else {
                old(holding).last_renewal
            },
            ..*old(holding)
        }),
{
    let checks: bool = holding.renewal_due(now, interval);
    let renews: bool = checks && holding.renews_itself(clock_anchored, worker);
    Due { checks, renews, uploads: checks || upload_errors == 0 }
}

/// Whether a recovery from the broker is needed: a purchase may have been sent, or a loss is not
/// yet paid.
pub fn needs_recovery(claims: &Table<Claim>, unpaid_losses: usize) -> (needed: bool)
    ensures
        needed == (possibly_sent_among(claims@) || unpaid_losses > 0),
{
    if unpaid_losses > 0 {
        return true;
    }
    let count: usize = claims.len();
    let ghost keys = claims.keys();
    let mut i: usize = 0;
    while i < count
        invariant
            i <= count,
            keys == claims.keys(),
            count == keys.len(),
            keys.to_set() == claims@.dom(),
            unpaid_losses == 0,
            forall|j: int|
                0 <= j < i ==> !(claims@[#[trigger] keys[j]].state is PossiblySent),
        decreases count - i,
    {
        let (key, claim) = claims.at(i);
        if claim.state == ClaimState::PossiblySent {
            assert(claims@.dom().contains(key@));
            return true;
        }
        i = i + 1;
    }
    proof {
        assert forall|key: Seq<char>| claims@.dom().contains(key) implies !(
        #[trigger] claims@[key].state is PossiblySent) by {
            assert(keys.to_set().contains(key));
            let j = choose|j: int| 0 <= j < count && keys[j] == key;
            assert(!(claims@[keys[j]].state is PossiblySent));
        }
    }
    false
}

} // verus!
