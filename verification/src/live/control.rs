//! Cooperative account leases and the minimal durable dispatch claim.

use crate::live::finance::{Disposition, EventKind, FinancialEvent, Proposal};
use crate::table::Table;
use crate::text::{begins_with, copy_optional, join, refusal, same_text, starts_with, text_before, text_of};
use vstd::prelude::*;
use vstd::string::*;

verus! {

/// The account that a lease governs.
#[derive(Debug, Clone, Copy)]
pub struct LeaseKey<'a> {
    pub broker: &'a str,
    pub account: &'a str,
}

/// A lease as the server granted it.
#[derive(Debug, Clone, Copy, PartialEq, Eq, Structural)]
pub struct Lease {
    pub token: u64,
    pub expires_at_micros: i64,
    pub server_now_micros: i64,
}

/// The durable record that a command may have been sent.
#[derive(Debug)]
pub struct Claim {
    pub command: String,
    pub claim: String,
    pub deployment: String,
    pub token: u64,
    pub max_proposal_age_micros: i64,
    pub signal: FinancialEvent,
    pub state: ClaimState,
    pub contract_ref: Option<String>,
    pub transaction_ref: Option<String>,
}

/// What is known of a claimed command.
#[derive(Debug, Clone, Copy, PartialEq, Eq, Structural)]
pub enum ClaimState {
    Claimed,
    NotSent,
    PossiblySent,
    Accepted,
    Rejected,
    Reconciled,
}

impl ClaimState {
    /// The stored text of a state.
    pub open spec fn name(self) -> Seq<char> {
        match self {
            ClaimState::Claimed => "claimed"@,
            ClaimState::NotSent => "not_sent"@,
            ClaimState::PossiblySent => "possibly_sent"@,
            ClaimState::Accepted => "accepted"@,
            ClaimState::Rejected => "rejected"@,
            ClaimState::Reconciled => "reconciled"@,
        }
    }

    /// The stored text of a state.
    pub fn text(self) -> (text: &'static str)
        ensures
            text@ == self.name(),
    {
        match self {
            ClaimState::Claimed => "claimed",
            ClaimState::NotSent => "not_sent",
            ClaimState::PossiblySent => "possibly_sent",
            ClaimState::Accepted => "accepted",
            ClaimState::Rejected => "rejected",
            ClaimState::Reconciled => "reconciled",
        }
    }

    /// Reads a stored state.
    pub fn parse(text: &str) -> (parsed: Result<ClaimState, String>)
        ensures
            parsed matches Ok(state) ==> state.name() == text@,
            refusal(parsed) == (if forall|state: ClaimState| #[trigger] state.name() != text@ {
                Some("unknown claim state "@ + text@)
            } else {
                None
            }),
    {
        assert(ClaimState::Claimed.name() == "claimed"@);
        assert(ClaimState::NotSent.name() == "not_sent"@);
        assert(ClaimState::PossiblySent.name() == "possibly_sent"@);
        assert(ClaimState::Accepted.name() == "accepted"@);
        assert(ClaimState::Rejected.name() == "rejected"@);
        assert(ClaimState::Reconciled.name() == "reconciled"@);
        if same_text(text, "claimed") {
            Ok(ClaimState::Claimed)
        } else if same_text(text, "not_sent") {
            Ok(ClaimState::NotSent)
        } else if same_text(text, "possibly_sent") {
            Ok(ClaimState::PossiblySent)
        } else if same_text(text, "accepted") {
            Ok(ClaimState::Accepted)
        } else if same_text(text, "rejected") {
            Ok(ClaimState::Rejected)
        } else if same_text(text, "reconciled") {
            Ok(ClaimState::Reconciled)
        } else {
            Err(join("unknown claim state ", text))
        }
    }
}

/// Different states are stored as different texts, so a stored state reads back as itself.
pub proof fn stored_states_differ(a: ClaimState, b: ClaimState)
    requires
        a.name() == b.name(),
    ensures
        a == b,
{
    reveal_strlit("claimed");
    reveal_strlit("not_sent");
    reveal_strlit("possibly_sent");
    reveal_strlit("accepted");
    reveal_strlit("rejected");
    reveal_strlit("reconciled");
    assert("claimed"@[0] == 'c');
    assert("not_sent"@[0] == 'n');
    assert("possibly_sent"@[0] == 'p');
    assert("accepted"@[0] == 'a');
    assert("rejected"@[2] == 'j');
    assert("reconciled"@[2] == 'c');
    assert("rejected"@[0] == 'r');
    assert("reconciled"@[0] == 'r');
}

impl Clone for Claim {
    fn clone(&self) -> (copy: Self)
        ensures
            copy == *self,
    {
        Claim {
            command: self.command.clone(),
            claim: self.claim.clone(),
            deployment: self.deployment.clone(),
            token: self.token,
            max_proposal_age_micros: self.max_proposal_age_micros,
            signal: self.signal.clone(),
            state: self.state,
            contract_ref: copy_optional(&self.contract_ref),
            transaction_ref: copy_optional(&self.transaction_ref),
        }
    }
}

/// What a claim attempt found.
#[derive(Debug)]
pub enum ClaimOutcome {
    Inserted,
    Replay(Claim),
    LeaseLost,
}

/// The durable control plane: leases and claims of accounts.
pub trait Control {
    fn advance_to(&mut self, micros: i64) {
    }

    fn acquire(
        &mut self,
        key: LeaseKey<'_>,
        owner: &str,
        deployment: &str,
        ttl_micros: i64,
    ) -> Result<Option<Lease>, String>;

    fn renew(
        &mut self,
        key: LeaseKey<'_>,
        owner: &str,
        token: u64,
        ttl_micros: i64,
    ) -> Result<Option<Lease>, String>;

    fn release(&mut self, key: LeaseKey<'_>, owner: &str, token: u64) -> Result<bool, String>;

    fn claim(
        &mut self,
        key: LeaseKey<'_>,
        owner: &str,
        token: u64,
        claim: &Claim,
    ) -> Result<ClaimOutcome, String>;

    fn update_claim(
        &mut self,
        key: LeaseKey<'_>,
        owner: &str,
        token: u64,
        command: &str,
        state: ClaimState,
        contract_ref: Option<&str>,
        transaction_ref: Option<&str>,
    ) -> Result<bool, String>;

    fn unresolved(&mut self, key: LeaseKey<'_>) -> Result<Vec<Claim>, String>;

    /// Durable recovery rows, including reconciled claims awaiting verified journal archival.
    /// Controls that retain reconciled rows must list them here until deletion.
    fn retained_claims(&mut self, key: LeaseKey<'_>) -> Result<Vec<Claim>, String> {
        self.unresolved(key)
    }

    fn delete_reconciled(&mut self, key: LeaseKey<'_>, command: &str) -> Result<(), String>;
}

/// A scripted failure of one operation.
#[derive(Debug, Clone, Copy, PartialEq, Eq, Structural)]
pub enum Fault {
    LoseResponse,
    Partition,
}

/// The stored lease of an account.
#[derive(Debug)]
pub struct LeaseRow {
    pub owner: String,
    pub deployment: String,
    pub token: u64,
    pub expires: i64,
}

/// A stored claim and when it was made.
#[derive(Debug)]
pub struct Stored {
    pub created: i64,
    pub claim: Claim,
}

/// A lease in mathematical terms.
pub struct Holder {
    pub owner: Seq<char>,
    pub deployment: Seq<char>,
    pub token: u64,
    pub expires: i64,
}

impl LeaseRow {
    /// The lease in mathematical terms.
    pub open spec fn holder(&self) -> Holder {
        Holder {
            owner: self.owner@,
            deployment: self.deployment@,
            token: self.token,
            expires: self.expires,
        }
    }
}

/// What is stored of one account.
pub struct Books {
    pub lease: Option<Holder>,
    pub claims: Map<Seq<char>, Stored>,
}

/// An answer in mathematical terms.
pub open spec fn answer<T>(result: Result<T, String>) -> Result<T, Seq<char>> {
    match result {
        Ok(value) => Ok(value),
        Err(message) => Err(message@),
    }
}

/// When a lease granted now expires, or why it cannot be granted.
pub open spec fn expiry_of(now: i64, ttl: i64) -> Result<i64, Seq<char>> {
    if ttl <= 0 {
        Err("lease ttl must be positive"@)
    } else if now + ttl > i64::MAX {
        Err("lease expiry overflow"@)
    } else {
        Ok((now + ttl) as i64)
    }
}

/// When a lease granted now expires.
pub fn expiry(now: i64, ttl: i64) -> (expires: Result<i64, String>)
    ensures
        answer(expires) == expiry_of(now, ttl),
{
    if ttl <= 0 {
        return Err("lease ttl must be positive".to_owned());
    }
    match now.checked_add(ttl) {
        Some(expires) => Ok(expires),
        None => Err("lease expiry overflow".to_owned()),
    }
}

/// Whether an owner holds the lease under a token now.
pub open spec fn holds(lease: Holder, owner: Seq<char>, token: u64, now: i64) -> bool {
    lease.owner == owner && lease.token == token && lease.expires > now
}

/// Whether an owner holds the lease under a token now.
pub fn current(row: &LeaseRow, owner: &str, token: u64, now: i64) -> (held: bool)
    ensures
        held == holds(row.holder(), owner@, token, now),
{
    same_text(row.owner.as_str(), owner) && row.token == token && row.expires > now
}

/// Why a claim is not fit to be made under a lease.
pub open spec fn claim_refusal(
    claim: Claim,
    broker: Seq<char>,
    account: Seq<char>,
    token: u64,
    deployment: Seq<char>,
) -> Option<Seq<char>> {
    if claim.token != token || claim.deployment@ != deployment {
        Some("claim lease binding mismatch"@)
    } else {
        match claim.signal.kind {
            EventKind::Signal(signal) => if signal.command is Some && signal.disposition
                == Disposition::Admitted && signal.proposal is Some && signal.reservation is Some {
                let proposal = signal.proposal->0;
                if signal.command->0@ == claim.command@ && proposal.account@ == account
                    && proposal.instrument@ == signal.instrument@ && begins_with(
                    proposal.instrument@,
                    broker + ":"@,
                ) && claim.claim@.len() > 0 {
                    None
                } else {
                    Some("claim signal binding mismatch"@)
                }
            } else {
                Some("claim requires an admitted signal with proposal and reservation"@)
            },
            _ => Some("claim requires an admitted signal with proposal and reservation"@),
        }
    }
}

/// The offer that a claim stands for: the claim must be bound to the lease, and its signal must
/// be an admitted one of the same account, instrument and command.
pub fn proposal<'a>(claim: &'a Claim, key: LeaseKey<'_>, token: u64, deployment: &str) -> (found:
    Result<&'a Proposal, String>)
    ensures
        refusal(found) == claim_refusal(*claim, key.broker@, key.account@, token, deployment@),
        found matches Ok(offer) ==> claim.signal.kind is Signal && claim.signal.kind->Signal_0.proposal
            == Some(*offer),
{
    if claim.token != token || !same_text(claim.deployment.as_str(), deployment) {
        return Err("claim lease binding mismatch".to_owned());
    }
    if let EventKind::Signal(signal) = &claim.signal.kind {
        if let Some(command) = &signal.command {
            if let Some(offer) = &signal.proposal {
                if signal.disposition == Disposition::Admitted && signal.reservation.is_some() {
                    let prefix = join(key.broker, ":");
                    if !same_text(command.as_str(), claim.command.as_str()) || !same_text(
                        offer.account.as_str(),
                        key.account,
                    ) || !same_text(offer.instrument.as_str(), signal.instrument.as_str())
                        || !starts_with(offer.instrument.as_str(), prefix.as_str())
                        || claim.claim.as_str().is_empty() {
                        return Err("claim signal binding mismatch".to_owned());
                    }
                    return Ok(offer);
                }
            }
        }
    }
    Err("claim requires an admitted signal with proposal and reservation".to_owned())
}

/// The token as a signed database value.
pub fn sql_token(token: u64) -> (value: Result<i64, String>)
    ensures
        answer(value) == (if token <= i64::MAX {
            Ok::<i64, Seq<char>>(token as i64)
        } else {
            Err("lease token overflow"@)
        }),
{
    if token > i64::MAX as u64 {
        Err("lease token overflow".to_owned())
    } else {
        Ok(token as i64)
    }
}

/// The token of a stored signed value.
pub fn stored_token(value: i64) -> (token: Result<u64, String>)
    ensures
        answer(token) == (if value >= 0 {
            Ok::<u64, Seq<char>>(value as u64)
        } else {
            Err("negative lease token"@)
        }),
{
    if value < 0 {
        Err("negative lease token".to_owned())
    } else {
        Ok(value as u64)
    }
}

/// What acquiring a lease is answered.
pub open spec fn acquire_answer(
    lease: Option<Holder>,
    now: i64,
    ttl: i64,
) -> Result<Option<Lease>, Seq<char>> {
    match expiry_of(now, ttl) {
        Err(message) => Err(message),
        Ok(expires) => {
            let previous = match lease {
                Some(row) => row.token as int,
                None => 0,
            };
            if lease is Some && lease->0.expires > now {
                Ok(None)
            } else if previous + 1 > i64::MAX {
                Err("lease token overflow"@)
            } else {
                Ok(
                    Some(
                        Lease {
                            token: (previous + 1) as u64,
                            expires_at_micros: expires,
                            server_now_micros: now,
                        },
                    ),
                )
            }
        },
    }
}

/// Decides whether a lease can be acquired: never while another one is live, and always under a
/// token greater than the last.
pub fn grant(row: Option<&LeaseRow>, now: i64, ttl: i64) -> (granted: Result<Option<Lease>, String>)
    ensures
        answer(granted) == acquire_answer(
            (match row {
                Some(row) => Some(row.holder()),
                None => None,
            }),
            now,
            ttl,
        ),
{
    let expires: i64 = match expiry(now, ttl) {
        Ok(expires) => expires,
        Err(message) => {
            return Err(message);
        },
    };
    let mut previous: u64 = 0;
    if let Some(row) = row {
        if row.expires > now {
            return Ok(None);
        }
        previous = row.token;
    }
    if previous >= i64::MAX as u64 {
        return Err("lease token overflow".to_owned());
    }
    Ok(
        Some(
            Lease { token: previous + 1, expires_at_micros: expires, server_now_micros: now },
        ),
    )
}

/// What renewing a lease is answered.
pub open spec fn renew_answer(
    lease: Option<Holder>,
    owner: Seq<char>,
    token: u64,
    now: i64,
    ttl: i64,
) -> Result<Option<Lease>, Seq<char>> {
    match expiry_of(now, ttl) {
        Err(message) => Err(message),
        Ok(expires) => if lease is Some && holds(lease->0, owner, token, now) {
            Ok(Some(Lease { token, expires_at_micros: expires, server_now_micros: now }))
        } else {
            Ok(None)
        },
    }
}

/// What releasing a lease is answered.
pub open spec fn release_answer(lease: Option<Holder>, owner: Seq<char>, token: u64) -> bool {
    lease is Some && lease->0.owner == owner && lease->0.token == token
}

/// What making a claim is answered.
pub open spec fn claim_answer(
    books: Books,
    broker: Seq<char>,
    account: Seq<char>,
    owner: Seq<char>,
    token: u64,
    now: i64,
    claim: Claim,
) -> Result<ClaimOutcome, Seq<char>> {
    if !(books.lease is Some && holds(books.lease->0, owner, token, now)) {
        Ok(ClaimOutcome::LeaseLost)
    } else {
        match claim_refusal(claim, broker, account, token, books.lease->0.deployment) {
            Some(message) => Err(message),
            None => if books.claims.dom().contains(claim.command@) {
                Ok(ClaimOutcome::Replay(books.claims[claim.command@].claim))
            } else {
                Ok(ClaimOutcome::Inserted)
            },
        }
    }
}

/// Whether a claim can be updated: by the current holder, and never under a newer claim's token.
pub open spec fn update_answer(
    books: Books,
    owner: Seq<char>,
    token: u64,
    now: i64,
    command: Seq<char>,
) -> bool {
    &&& books.lease is Some
    &&& holds(books.lease->0, owner, token, now)
    &&& books.claims.dom().contains(command)
    &&& books.claims[command].claim.token <= token
}

/// A claim after an update: the state is set, given references replace the ones before.
pub open spec fn claim_updated(
    before: Claim,
    after: Claim,
    state: ClaimState,
    contract_ref: Option<Seq<char>>,
    transaction_ref: Option<Seq<char>>,
) -> bool {
    &&& after.command == before.command
    &&& after.claim == before.claim
    &&& after.deployment == before.deployment
    &&& after.token == before.token
    &&& after.max_proposal_age_micros == before.max_proposal_age_micros
    &&& after.signal == before.signal
    &&& after.state == state
    &&& text_of(after.contract_ref) == (if contract_ref is Some {
        contract_ref
    } else {
        text_of(before.contract_ref)
    })
    &&& text_of(after.transaction_ref) == (if transaction_ref is Some {
        transaction_ref
    } else {
        text_of(before.transaction_ref)
    })
}

/// The view of an optional borrowed text.
pub open spec fn seen(text: Option<&str>) -> Option<Seq<char>> {
    match text {
        Some(text) => Some(text@),
        None => None,
    }
}

/// Sets the state of a claim and the references that are given.
pub fn set_claim(
    claim: Claim,
    state: ClaimState,
    contract_ref: Option<&str>,
    transaction_ref: Option<&str>,
) -> (updated: Claim)
    ensures
        claim_updated(claim, updated, state, seen(contract_ref), seen(transaction_ref)),
{
    let mut updated = claim;
    updated.state = state;
    if let Some(value) = contract_ref {
        updated.contract_ref = Some(value.to_owned());
    }
    if let Some(value) = transaction_ref {
        updated.transaction_ref = Some(value.to_owned());
    }
    updated
}

/// The next scripted fault.
pub open spec fn next_fault(faults: Seq<Fault>) -> Option<Fault> {
    if faults.len() > 0 {
        Some(faults[0])
    } else {
        None
    }
}

/// The faults after the next.
pub open spec fn later_faults(faults: Seq<Fault>) -> Seq<Fault> {
    if faults.len() > 0 {
        faults.subrange(1, faults.len() as int)
    } else {
        faults
    }
}

/// What the caller of an operation gets: behind a partition nothing happens; a lost response
/// hides what did.
pub open spec fn delivered<T>(fault: Option<Fault>, result: Result<T, Seq<char>>) -> Result<
    T,
    Seq<char>,
> {
    match fault {
        Some(Fault::Partition) => Err("partition"@),
        Some(Fault::LoseResponse) => match result {
            Ok(_) => Err("response lost"@),
            Err(message) => Err(message),
        },
        None => result,
    }
}

struct Holding {
    lease: Option<LeaseRow>,
    claims: Table<Stored>,
}

impl Holding {
    spec fn books(&self) -> Books {
        Books {
            lease: match self.lease {
                Some(row) => Some(row.holder()),
                None => None,
            },
            claims: self.claims@,
        }
    }

    spec fn wf(&self) -> bool {
        forall|command: Seq<char>|
            self.claims@.dom().contains(command) ==> (
            #[trigger] self.claims@[command]).claim.command@ == command
    }
}

/// A control plane in memory: stored rows, server time, and a scripted fault queue.
pub struct FakeControl {
    clock: i64,
    faults: Vec<Fault>,
    accounts: Table<Table<Holding>>,
}

spec fn no_books() -> Books {
    Books { lease: None, claims: Map::empty() }
}

impl FakeControl {
    /// Server time.
    pub closed spec fn clock(&self) -> i64 {
        self.clock
    }

    /// The scripted faults, next first.
    pub closed spec fn faults(&self) -> Seq<Fault> {
        self.faults@
    }

    /// What is stored of an account.
    pub closed spec fn books(&self, broker: Seq<char>, account: Seq<char>) -> Books {
        if self.accounts@.dom().contains(broker) && self.accounts@[broker]@.dom().contains(
            account,
        ) {
            self.accounts@[broker]@[account].books()
        } else {
            no_books()
        }
    }

    /// Every claim is stored under its own command.
    pub closed spec fn wf(&self) -> bool {
        forall|broker: Seq<char>, account: Seq<char>|
            self.accounts@.dom().contains(broker) && self.accounts@[broker]@.dom().contains(account)
                ==> (#[trigger] self.accounts@[broker]@[account]).wf()
    }

    /// One fault is used up, time stands still, and no other account is touched.
    pub open spec fn follows(&self, before: &FakeControl, key: LeaseKey) -> bool {
        &&& self.wf()
        &&& self.clock() == before.clock()
        &&& self.faults() == later_faults(before.faults())
        &&& forall|broker: Seq<char>, account: Seq<char>|
            broker != key.broker@ || account != key.account@ ==> #[trigger] self.books(
                broker,
                account,
            ) == before.books(broker, account)
    }

    /// An empty control plane at a server time.
    pub fn new(clock_micros: i64) -> (control: FakeControl)
        ensures
            control.wf(),
            control.clock() == clock_micros,
            control.faults() == Seq::<Fault>::empty(),
            forall|broker: Seq<char>, account: Seq<char>|
                (#[trigger] control.books(broker, account)).lease is None && control.books(
                    broker,
                    account,
                ).claims == Map::<Seq<char>, Stored>::empty(),
    {
        FakeControl { clock: clock_micros, faults: Vec::new(), accounts: Table::new() }
    }

    /// Moves server time forward.
    pub fn advance(&mut self, micros: i64)
        requires
            old(self).wf(),
            micros >= 0,
            old(self).clock() + micros <= i64::MAX,
        ensures
            final(self).wf(),
            final(self).clock() == old(self).clock() + micros,
            final(self).faults() == old(self).faults(),
            forall|broker: Seq<char>, account: Seq<char>|
                #[trigger] final(self).books(broker, account) == old(self).books(broker, account),
    {
        self.clock = self.clock + micros;
    }

    /// Scripts a fault of a later operation.
    pub fn fault(&mut self, fault: Fault)
        requires
            old(self).wf(),
        ensures
            final(self).wf(),
            final(self).clock() == old(self).clock(),
            final(self).faults() == old(self).faults().push(fault),
            forall|broker: Seq<char>, account: Seq<char>|
                #[trigger] final(self).books(broker, account) == old(self).books(broker, account),
    {
        self.faults.push(fault);
    }

    /// When the stored lease of an account expires.
    pub fn lease_expiry(&self, key: LeaseKey<'_>) -> (expires: Option<i64>)
        ensures
            expires == (match self.books(key.broker@, key.account@).lease {
                Some(lease) => Some(lease.expires),
                None => None,
            }),
    {
        match self.accounts.get(key.broker) {
            Some(accounts) => match accounts.get(key.account) {
                Some(holding) => match &holding.lease {
                    Some(row) => Some(row.expires),
                    None => None,
                },
                None => None,
            },
            None => None,
        }
    }

    fn take_fault(&mut self) -> (fault: Option<Fault>)
        ensures
            fault == next_fault(old(self).faults@),
            final(self).faults@ == later_faults(old(self).faults@),
            final(self).clock == old(self).clock,
            final(self).accounts == old(self).accounts,
    {
        if self.faults.len() > 0 {
            let fault = self.faults.remove(0);
            Some(fault)
        } else {
            None
        }
    }

    fn take_holding(&mut self, key: LeaseKey<'_>) -> (taken: (Table<Holding>, Holding))
        ensures
            old(self).wf() ==> taken.1.wf(),
            taken.1.books() == old(self).books(key.broker@, key.account@),
            taken.0@ == (if old(self).accounts@.dom().contains(key.broker@) {
                old(self).accounts@[key.broker@]@.remove(key.account@)
            } else {
                Map::empty()
            }),
            final(self).accounts@ == old(self).accounts@.remove(key.broker@),
            final(self).clock == old(self).clock,
            final(self).faults == old(self).faults,
    {
        let mut accounts: Table<Holding> = match self.accounts.remove(key.broker) {
            Some(accounts) => accounts,
            None => Table::new(),
        };
        let ghost all = accounts@;
        let holding = match accounts.remove(key.account) {
            Some(holding) => holding,
            None => Holding { lease: None, claims: Table::new() },
        };
        assert(!old(self).accounts@.dom().contains(key.broker@) ==> accounts@ =~= Map::empty());
        (accounts, holding)
    }

    fn put_holding(
        &mut self,
        key: LeaseKey<'_>,
        accounts: Table<Holding>,
        holding: Holding,
        Ghost(before): Ghost<FakeControl>,
    )
        requires
            accounts@ == (if before.accounts@.dom().contains(key.broker@) {
                before.accounts@[key.broker@]@.remove(key.account@)
            } else {
                Map::empty()
            }),
            old(self).accounts@ == before.accounts@.remove(key.broker@),
        ensures
            before.wf() && holding.wf() ==> final(self).wf(),
            final(self).clock == old(self).clock,
            final(self).faults == old(self).faults,
            final(self).books(key.broker@, key.account@) == holding.books(),
            forall|broker: Seq<char>, account: Seq<char>|
                broker != key.broker@ || account != key.account@ ==> #[trigger] final(self).books(
                    broker,
                    account,
                ) == before.books(broker, account),
    {
        let mut accounts = accounts;
        let ghost rest = accounts@;
        accounts.insert(key.account.to_owned(), holding);
        self.accounts.insert(key.broker.to_owned(), accounts);
        proof {
            assert forall|broker: Seq<char>, account: Seq<char>|
                before.wf() && holding.wf() && self.accounts@.dom().contains(broker)
                    && self.accounts@[broker]@.dom().contains(account) implies (
            #[trigger] self.accounts@[broker]@[account]).wf() by {
                if broker == key.broker@ {
                    if account != key.account@ {
                        assert(before.accounts@[broker]@[account].wf());
                    }
                } else {
                    assert(before.accounts@[broker]@[account].wf());
                }
            }
        }
    }
}

impl Control for FakeControl {
    fn advance_to(&mut self, micros: i64)
        ensures
            old(self).wf() ==> final(self).wf(),
            final(self).clock() == (if micros > old(self).clock() {
                micros
            } else {
                old(self).clock()
            }),
            final(self).faults() == old(self).faults(),
            forall|broker: Seq<char>, account: Seq<char>|
                #[trigger] final(self).books(broker, account) == old(self).books(broker, account),
    {
        if micros > self.clock {
            self.clock = micros;
        }
    }

    fn acquire(
        &mut self,
        key: LeaseKey<'_>,
        owner: &str,
        deployment: &str,
        ttl_micros: i64,
    ) -> (result: Result<Option<Lease>, String>)
        ensures
            old(self).wf() ==> ({
                let books = old(self).books(key.broker@, key.account@);
                let fault = next_fault(old(self).faults());
                let granted = acquire_answer(books.lease, old(self).clock(), ttl_micros);
                let after = final(self).books(key.broker@, key.account@);
                &&& final(self).follows(old(self), key)
                &&& answer(result) == delivered(fault, granted)
                &&& after.claims == books.claims
                &&& after.lease == (if fault == Some(Fault::Partition) {
                    books.lease
                } else {
                    match granted {
                        Ok(Some(lease)) => Some(
                            Holder {
                                owner: owner@,
                                deployment: deployment@,
                                token: lease.token,
                                expires: lease.expires_at_micros,
                            },
                        ),
                        _ => books.lease,
                    }
                })
            }),
    {
        let ghost before = *self;
        let fault = self.take_fault();
        if let Some(Fault::Partition) = fault {
            return Err("partition".to_owned());
        }
        let now: i64 = self.clock;
        let (accounts, mut holding) = self.take_holding(key);
        let granted = grant(holding.lease.as_ref(), now, ttl_micros);
        if let Ok(Some(lease)) = &granted {
            holding.lease = Some(
                LeaseRow {
                    owner: owner.to_owned(),
                    deployment: deployment.to_owned(),
                    token: lease.token,
                    expires: lease.expires_at_micros,
                },
            );
        }
        self.put_holding(key, accounts, holding, Ghost(before));
        deliver(fault, granted)
    }

    fn renew(
        &mut self,
        key: LeaseKey<'_>,
        owner: &str,
        token: u64,
        ttl_micros: i64,
    ) -> (result: Result<Option<Lease>, String>)
        ensures
            old(self).wf() ==> ({
                let books = old(self).books(key.broker@, key.account@);
                let fault = next_fault(old(self).faults());
                let renewed = renew_answer(
                    books.lease,
                    owner@,
                    token,
                    old(self).clock(),
                    ttl_micros,
                );
                let after = final(self).books(key.broker@, key.account@);
                &&& final(self).follows(old(self), key)
                &&& answer(result) == delivered(fault, renewed)
                &&& after.claims == books.claims
                &&& after.lease == (if fault == Some(Fault::Partition) {
                    books.lease
                } else {
                    match renewed {
                        Ok(Some(lease)) => Some(
                            Holder { expires: lease.expires_at_micros, ..books.lease->0 },
                        ),
                        _ => books.lease,
                    }
                })
            }),
    {
        let ghost before = *self;
        let fault = self.take_fault();
        if let Some(Fault::Partition) = fault {
            return Err("partition".to_owned());
        }
        let now: i64 = self.clock;
        let (accounts, mut holding) = self.take_holding(key);
        let renewed: Result<Option<Lease>, String> = match expiry(now, ttl_micros) {
            Err(message) => Err(message),
            Ok(expires) => match holding.lease.take() {
                Some(mut row) => {
                    let held: bool = current(&row, owner, token, now);
                    if held {
                        row.expires = expires;
                    }
                    holding.lease = Some(row);
                    if held {
                        Ok(
                            Some(
                                Lease {
                                    token,
                                    expires_at_micros: expires,
                                    server_now_micros: now,
                                },
                            ),
                        )
                    } else {
                        Ok(None)
                    }
                },
                None => Ok(None),
            },
        };
        self.put_holding(key, accounts, holding, Ghost(before));
        deliver(fault, renewed)
    }

    fn release(&mut self, key: LeaseKey<'_>, owner: &str, token: u64) -> (result: Result<
        bool,
        String,
    >)
        ensures
            old(self).wf() ==> ({
                let books = old(self).books(key.broker@, key.account@);
                let fault = next_fault(old(self).faults());
                let released = release_answer(books.lease, owner@, token);
                let after = final(self).books(key.broker@, key.account@);
                &&& final(self).follows(old(self), key)
                &&& answer(result) == delivered(fault, Ok::<bool, Seq<char>>(released))
                &&& after.claims == books.claims
                &&& after.lease == (if fault != Some(Fault::Partition) && released {
                    Some(Holder { expires: old(self).clock(), ..books.lease->0 })
                } else {
                    books.lease
                })
            }),
    {
        let ghost before = *self;
        let fault = self.take_fault();
        if let Some(Fault::Partition) = fault {
            return Err("partition".to_owned());
        }
        let now: i64 = self.clock;
        let (accounts, mut holding) = self.take_holding(key);
        let mut released: bool = false;
        if let Some(mut row) = holding.lease.take() {
            released = same_text(row.owner.as_str(), owner) && row.token == token;
            if released {
                row.expires = now;
            }
            holding.lease = Some(row);
        }
        self.put_holding(key, accounts, holding, Ghost(before));
        deliver(fault, Ok(released))
    }

    fn claim(
        &mut self,
        key: LeaseKey<'_>,
        owner: &str,
        token: u64,
        claim: &Claim,
    ) -> (result: Result<ClaimOutcome, String>)
        ensures
            old(self).wf() ==> ({
                let books = old(self).books(key.broker@, key.account@);
                let fault = next_fault(old(self).faults());
                let claimed = claim_answer(
                    books,
                    key.broker@,
                    key.account@,
                    owner@,
                    token,
                    old(self).clock(),
                    *claim,
                );
                let after = final(self).books(key.broker@, key.account@);
                &&& final(self).follows(old(self), key)
                &&& answer(result) == delivered(fault, claimed)
                &&& after.lease == books.lease
                &&& after.claims == (if fault != Some(Fault::Partition) && claimed == Ok::<
                    ClaimOutcome,
                    Seq<char>,
                >(ClaimOutcome::Inserted) {
                    books.claims.insert(
                        claim.command@,
                        Stored { created: old(self).clock(), claim: *claim },
                    )
                } else {
                    books.claims
                })
            }),
    {
        let ghost before = *self;
        let fault = self.take_fault();
        if let Some(Fault::Partition) = fault {
            return Err("partition".to_owned());
        }
        let now: i64 = self.clock;
        let (accounts, mut holding) = self.take_holding(key);
        let claimed: Result<ClaimOutcome, String> = match &holding.lease {
            Some(row) => if current(row, owner, token, now) {
                match proposal(claim, key, token, row.deployment.as_str()) {
                    Ok(_) => match holding.claims.get(claim.command.as_str()) {
                        Some(existing) => Ok(ClaimOutcome::Replay(existing.claim.clone())),
                        None => Ok(ClaimOutcome::Inserted),
                    },
                    Err(message) => Err(message),
                }
            } else {
                Ok(ClaimOutcome::LeaseLost)
            },
            None => Ok(ClaimOutcome::LeaseLost),
        };
        if let Ok(ClaimOutcome::Inserted) = &claimed {
            holding.claims.insert(
                claim.command.clone(),
                Stored { created: now, claim: claim.clone() },
            );
        }
        self.put_holding(key, accounts, holding, Ghost(before));
        deliver(fault, claimed)
    }

    fn update_claim(
        &mut self,
        key: LeaseKey<'_>,
        owner: &str,
        token: u64,
        command: &str,
        state: ClaimState,
        contract_ref: Option<&str>,
        transaction_ref: Option<&str>,
    ) -> (result: Result<bool, String>)
        ensures
            old(self).wf() ==> ({
                let books = old(self).books(key.broker@, key.account@);
                let fault = next_fault(old(self).faults());
                let updated = update_answer(books, owner@, token, old(self).clock(), command@);
                let after = final(self).books(key.broker@, key.account@);
                &&& final(self).follows(old(self), key)
                &&& answer(result) == delivered(fault, Ok::<bool, Seq<char>>(updated))
                &&& after.lease == books.lease
                &&& if fault != Some(Fault::Partition) && updated {
                    &&& after.claims.remove(command@) == books.claims.remove(command@)
                    &&& after.claims.dom().contains(command@)
                    &&& after.claims[command@].created == books.claims[command@].created
                    &&& claim_updated(
                        books.claims[command@].claim,
                        after.claims[command@].claim,
                        state,
                        seen(contract_ref),
                        seen(transaction_ref),
                    )
                } else {
                    after.claims == books.claims
                }
            }),
    {
        let ghost before = *self;
        let fault = self.take_fault();
        if let Some(Fault::Partition) = fault {
            return Err("partition".to_owned());
        }
        let now: i64 = self.clock;
        let (accounts, mut holding) = self.take_holding(key);
        let ghost books = holding.books();
        let held: bool = match &holding.lease {
            Some(row) => current(row, owner, token, now),
            None => false,
        };
        let mut updated: bool = false;
        if held {
            if let Some(stored) = holding.claims.remove(command) {
                if stored.claim.token <= token {
                    updated = true;
                    let next = set_claim(stored.claim, state, contract_ref, transaction_ref);
                    holding.claims.insert(
                        command.to_owned(),
                        Stored { created: stored.created, claim: next },
                    );
                    assert(holding.claims@.remove(command@) =~= books.claims.remove(command@));
                } else {
                    holding.claims.insert(command.to_owned(), stored);
                    assert(holding.claims@ =~= books.claims);
                }
            } else {
                assert(holding.claims@ =~= books.claims);
            }
        }
        self.put_holding(key, accounts, holding, Ghost(before));
        deliver(fault, Ok(updated))
    }

    fn unresolved(&mut self, key: LeaseKey<'_>) -> (result: Result<Vec<Claim>, String>)
        ensures
            old(self).wf() ==> ({
                let books = old(self).books(key.broker@, key.account@);
                &&& final(self).follows(old(self), key)
                &&& final(self).books(key.broker@, key.account@) == books
                &&& listed_by_age(result, old(self).faults(), open_claims(books.claims))
            }),
    {
        let fault = self.take_fault();
        if let Some(Fault::Partition) = fault {
            return Err("partition".to_owned());
        }
        let claims = self.aged(key, false);
        deliver(fault, Ok(claims))
    }

    fn retained_claims(&mut self, key: LeaseKey<'_>) -> (result: Result<Vec<Claim>, String>)
        ensures
            old(self).wf() ==> ({
                let books = old(self).books(key.broker@, key.account@);
                &&& final(self).follows(old(self), key)
                &&& final(self).books(key.broker@, key.account@) == books
                &&& listed_by_age(result, old(self).faults(), books.claims)
            }),
    {
        let fault = self.take_fault();
        if let Some(Fault::Partition) = fault {
            return Err("partition".to_owned());
        }
        let claims = self.aged(key, true);
        deliver(fault, Ok(claims))
    }

    fn delete_reconciled(&mut self, key: LeaseKey<'_>, command: &str) -> (result: Result<
        (),
        String,
    >)
        ensures
            old(self).wf() ==> ({
                let books = old(self).books(key.broker@, key.account@);
                let fault = next_fault(old(self).faults());
                let after = final(self).books(key.broker@, key.account@);
                &&& final(self).follows(old(self), key)
                &&& answer(result) == delivered(fault, Ok::<(), Seq<char>>(()))
                &&& after.lease == books.lease
                &&& after.claims == (if fault != Some(Fault::Partition)
                    && books.claims.dom().contains(command@)
                    && books.claims[command@].claim.state == ClaimState::Reconciled {
                    books.claims.remove(command@)
                } else {
                    books.claims
                })
            }),
    {
        let ghost before = *self;
        let fault = self.take_fault();
        if let Some(Fault::Partition) = fault {
            return Err("partition".to_owned());
        }
        let (accounts, mut holding) = self.take_holding(key);
        let reconciled: bool = match holding.claims.get(command) {
            Some(stored) => stored.claim.state == ClaimState::Reconciled,
            None => false,
        };
        if reconciled {
            let _ = holding.claims.remove(command);
        }
        self.put_holding(key, accounts, holding, Ghost(before));
        deliver(fault, Ok(()))
    }
}

fn deliver<T>(fault: Option<Fault>, result: Result<T, String>) -> (given: Result<T, String>)
    requires
        fault != Some(Fault::Partition),
    ensures
        answer(given) == delivered(fault, answer(result)),
{
    match fault {
        Some(_) => match result {
            Ok(_) => Err("response lost".to_owned()),
            Err(message) => Err(message),
        },
        None => result,
    }
}

/// The claims that are not reconciled.
pub open spec fn open_claims(claims: Map<Seq<char>, Stored>) -> Map<Seq<char>, Stored> {
    claims.restrict(
        Set::new(
            |command: Seq<char>|
                claims.dom().contains(command) && claims[command].claim.state
                    != ClaimState::Reconciled,
        ),
    )
}

/// Whether one claim was made before another; at one time the commands decide.
pub open spec fn older(a: Stored, b: Stored) -> bool {
    a.created < b.created || (a.created == b.created && text_before(
        a.claim.command@,
        b.claim.command@,
    ))
}

/// Whether a list holds exactly the stored claims, oldest first.
pub open spec fn by_age(list: Seq<Claim>, claims: Map<Seq<char>, Stored>) -> bool {
    &&& forall|i: int|
        0 <= i < list.len() ==> claims.dom().contains((#[trigger] list[i]).command@)
            && claims[list[i].command@].claim == list[i]
    &&& forall|command: Seq<char>| #[trigger]
        claims.dom().contains(command) ==> lists_command(list, command)
    &&& forall|i: int, j: int|
        0 <= i < j < list.len() ==> older(
            claims[(#[trigger] list[i]).command@],
            claims[(#[trigger] list[j]).command@],
        )
}

/// Whether a list holds a claim of a command.
pub open spec fn lists_command(list: Seq<Claim>, command: Seq<char>) -> bool {
    exists|i: int| 0 <= i < list.len() && (#[trigger] list[i]).command@ == command
}

/// What listing claims is answered: all of them by age, unless a fault comes between.
pub open spec fn listed_by_age(
    result: Result<Vec<Claim>, String>,
    faults: Seq<Fault>,
    claims: Map<Seq<char>, Stored>,
) -> bool {
    match next_fault(faults) {
        Some(Fault::Partition) => refusal(result) == Some("partition"@),
        Some(Fault::LoseResponse) => refusal(result) == Some("response lost"@),
        None => result is Ok && by_age(result->Ok_0@, claims),
    }
}

impl FakeControl {
    fn aged(&self, key: LeaseKey<'_>, all: bool) -> (list: Vec<Claim>)
        ensures
            self.wf() ==> by_age(
                list@,
                (if all {
                    self.books(key.broker@, key.account@).claims
                } else {
                    open_claims(self.books(key.broker@, key.account@).claims)
                }),
            ),
    {
        match self.accounts.get(key.broker) {
            Some(accounts) => match accounts.get(key.account) {
                Some(holding) => {
                    assert(self.wf() ==> self.accounts@[key.broker@]@[key.account@].wf());
                    claims_by_age(&holding.claims, all)
                },
                None => Vec::new(),
            },
            None => Vec::new(),
        }
    }
}

spec fn under_own_command(claims: Map<Seq<char>, Stored>) -> bool {
    forall|command: Seq<char>|
        claims.dom().contains(command) ==> (#[trigger] claims[command]).claim.command@ == command
}

spec fn aged_so_far(
    list: Seq<Claim>,
    ages: Seq<i64>,
    wanted: Map<Seq<char>, Stored>,
    keys: Seq<Seq<char>>,
    count: int,
) -> bool {
    &&& list.len() == ages.len()
    &&& forall|j: int|
        0 <= j < list.len() ==> wanted.dom().contains((#[trigger] list[j]).command@)
            && wanted[list[j].command@].claim == list[j] && wanted[list[j].command@].created
            == ages[j]
    &&& forall|j: int, m: int|
        #![trigger list[j], keys[m]]
        0 <= j < list.len() && count <= m < keys.len() ==> text_before(list[j].command@, keys[m])
    &&& forall|k: int|
        0 <= k < count && wanted.dom().contains(#[trigger] keys[k]) ==> lists_command(
            list,
            keys[k],
        )
    &&& forall|a: int, b: int|
        0 <= a < b < list.len() ==> older(
            wanted[(#[trigger] list[a]).command@],
            wanted[(#[trigger] list[b]).command@],
        )
}

proof fn aged_insert(
    list: Seq<Claim>,
    ages: Seq<i64>,
    wanted: Map<Seq<char>, Stored>,
    keys: Seq<Seq<char>>,
    count: int,
    at: int,
)
    requires
        aged_so_far(list, ages, wanted, keys, count),
        crate::table::ascending(keys),
        0 <= count < keys.len(),
        0 <= at <= list.len(),
        wanted.dom().contains(keys[count]),
        wanted[keys[count]].claim.command@ == keys[count],
        forall|j: int| 0 <= j < at ==> #[trigger] ages[j] <= wanted[keys[count]].created,
        at < list.len() ==> ages[at] > wanted[keys[count]].created,
    ensures
        aged_so_far(
            list.insert(at, wanted[keys[count]].claim),
            ages.insert(at, wanted[keys[count]].created),
            wanted,
            keys,
            count + 1,
        ),
{
    let x = wanted[keys[count]].claim;
    let next = list.insert(at, x);
    let times = ages.insert(at, wanted[keys[count]].created);
    assert forall|j: int| 0 <= j < next.len() implies wanted.dom().contains(
        (#[trigger] next[j]).command@,
    ) && wanted[next[j].command@].claim == next[j] && wanted[next[j].command@].created
        == times[j] by {
        if j < at {
            assert(next[j] == list[j]);
        } else if j > at {
            assert(next[j] == list[j - 1]);
        }
    }
    assert forall|j: int, m: int|
        #![trigger next[j], keys[m]]
        0 <= j < next.len() && count + 1 <= m < keys.len() implies text_before(
        next[j].command@,
        keys[m],
    ) by {
        if j < at {
            assert(next[j] == list[j]);
        } else if j > at {
            assert(next[j] == list[j - 1]);
        }
    }
    assert forall|k: int|
        0 <= k < count + 1 && wanted.dom().contains(#[trigger] keys[k]) implies lists_command(
        next,
        keys[k],
    ) by {
        if k < count {
            assert(lists_command(list, keys[k]));
            let j = choose|j: int| 0 <= j < list.len() && (#[trigger] list[j]).command@ == keys[k];
            if j < at {
                assert(next[j] == list[j]);
            } else {
                assert(next[j + 1] == list[j]);
            }
        } else {
            assert(next[at] == x);
        }
    }
    assert forall|a: int, b: int| 0 <= a < b < next.len() implies older(
        wanted[(#[trigger] next[a]).command@],
        wanted[(#[trigger] next[b]).command@],
    ) by {
        if b == at {
            assert(next[a] == list[a]);
            assert(ages[a] <= wanted[keys[count]].created);
            assert(text_before(list[a].command@, keys[count]));
        } else if a == at {
            assert(next[b] == list[b - 1]);
            if b - 1 > at {
                assert(older(wanted[list[at].command@], wanted[list[b - 1].command@]));
            }
        } else {
            let p = if a < at {
                a
            } else {
                a - 1
            };
            let q = if b < at {
                b
            } else {
                b - 1
            };
            assert(next[a] == list[p]);
            assert(next[b] == list[q]);
        }
    }
}

fn claims_by_age(claims: &Table<Stored>, all: bool) -> (list: Vec<Claim>)
    ensures
        under_own_command(claims@) ==> by_age(
            list@,
            (if all {
                claims@
            } else {
                open_claims(claims@)
            }),
        ),
{
    let count: usize = claims.len();
    let ghost keys = claims.keys();
    let ghost sound = under_own_command(claims@);
    let ghost wanted = if all {
        claims@
    } else {
        open_claims(claims@)
    };
    let mut list: Vec<Claim> = Vec::new();
    let mut ages: Vec<i64> = Vec::new();
    let mut i: usize = 0;
    while i < count
        invariant
            i <= count,
            count == keys.len(),
            keys == claims.keys(),
            crate::table::ascending(keys),
            sound == under_own_command(claims@),
            wanted == (if all {
                claims@
            } else {
                open_claims(claims@)
            }),
            list@.len() == ages@.len(),
            sound ==> aged_so_far(list@, ages@, wanted, keys, i as int),
        decreases count - i,
    {
        let (_, stored) = claims.at(i);
        if all || stored.claim.state != ClaimState::Reconciled {
            let mut at: usize = 0;
            while at < ages.len() && ages[at] <= stored.created
                invariant
                    at <= ages@.len(),
                    forall|j: int| 0 <= j < at ==> #[trigger] ages@[j] <= stored.created,
                decreases ages@.len() - at,
            {
                at = at + 1;
            }
            proof {
                if sound {
                    aged_insert(list@, ages@, wanted, keys, i as int, at as int);
                }
            }
            list.insert(at, stored.claim.clone());
            ages.insert(at, stored.created);
        }
        i = i + 1;
    }
    proof {
        if sound {
            assert forall|command: Seq<char>| #[trigger]
                wanted.dom().contains(command) implies lists_command(list@, command) by {
                assert(claims@.dom().contains(command));
                assert(keys.to_set().contains(command));
                let k = choose|k: int| 0 <= k < keys.len() && keys[k] == command;
                assert(wanted.dom().contains(keys[k]));
            }
        }
    }
    list
}

/// At most one owner at a time: while a lease is live, acquiring grants nothing.
pub proof fn a_live_lease_excludes_others(lease: Holder, now: i64, ttl: i64)
    requires
        lease.expires > now,
        ttl > 0,
        now + ttl <= i64::MAX,
    ensures
        acquire_answer(Some(lease), now, ttl) == Ok::<Option<Lease>, Seq<char>>(None),
{
}

/// Every granted lease has a greater token than the one before it, and outlives now.
pub proof fn tokens_increase(lease: Option<Holder>, now: i64, ttl: i64)
    ensures
        acquire_answer(lease, now, ttl) matches Ok(Some(granted)) ==> {
            &&& lease matches Some(before) ==> granted.token > before.token
            &&& granted.token >= 1
            &&& granted.expires_at_micros > now
            &&& granted.server_now_micros == now
        },
{
}

/// A superseded owner is fenced: under any token but the stored one nothing can be renewed,
/// released, claimed or updated.
pub proof fn stale_tokens_are_fenced(
    books: Books,
    broker: Seq<char>,
    account: Seq<char>,
    owner: Seq<char>,
    token: u64,
    now: i64,
    ttl: i64,
    claim: Claim,
)
    requires
        books.lease is Some ==> books.lease->0.token != token,
    ensures
        !(renew_answer(books.lease, owner, token, now, ttl) matches Ok(Some(_))),
        !release_answer(books.lease, owner, token),
        claim_answer(books, broker, account, owner, token, now, claim) == Ok::<
            ClaimOutcome,
            Seq<char>,
        >(ClaimOutcome::LeaseLost),
        !update_answer(books, owner, token, now, claim.command@),
{
}

/// A released lease is over at once: its owner no longer holds it, and anyone may acquire the
/// next one, under a greater token.
pub proof fn a_released_lease_is_over(lease: Holder, owner: Seq<char>, now: i64, ttl: i64)
    requires
        lease.expires == now,
        ttl > 0,
        now + ttl <= i64::MAX,
        lease.token < i64::MAX,
    ensures
        !holds(lease, owner, lease.token, now),
        acquire_answer(Some(lease), now, ttl) matches Ok(Some(granted)) && granted.token
            == lease.token + 1,
{
}

/// Claiming is idempotent: a command claimed once is answered with the stored claim ever after,
/// under this lease or a later one of the same deployment.
pub proof fn a_claim_is_made_once(
    books: Books,
    broker: Seq<char>,
    account: Seq<char>,
    owner: Seq<char>,
    token: u64,
    now: i64,
    claim: Claim,
)
    requires
        books.lease is Some,
        holds(books.lease->0, owner, token, now),
        claim_refusal(claim, broker, account, token, books.lease->0.deployment) is None,
        books.claims.dom().contains(claim.command@),
    ensures
        claim_answer(books, broker, account, owner, token, now, claim) == Ok::<
            ClaimOutcome,
            Seq<char>,
        >(ClaimOutcome::Replay(books.claims[claim.command@].claim)),
{
}

} // verus!
