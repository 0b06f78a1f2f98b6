//! Financial events as plain facts: amounts, contract terms, offers, liabilities, and what the
//! execution engine reports of a command.

use crate::text::{copy_optional, ten_to, ten_to_is_a_power};
use vstd::arithmetic::power::pow;
use vstd::prelude::*;
use vstd::string::*;

verus! {

/// An exact decimal amount: `units` divided by ten to the `scale`.
#[derive(Debug, Clone, Copy)]
pub struct Decimal {
    pub units: i64,
    pub scale: u8,
}

/// Whether two decimals are the same amount.
pub open spec fn same_amount(a: Decimal, b: Decimal) -> bool {
    a.units * ten_to(b.scale as nat) == b.units * ten_to(a.scale as nat)
}

proof fn ten_to_positive(power: nat)
    ensures
        ten_to(power) >= 1,
    decreases power,
{
    if power > 0 {
        ten_to_positive((power - 1) as nat);
    }
}

proof fn ten_to_sum(a: nat, b: nat)
    ensures
        ten_to(a + b) == ten_to(a) * ten_to(b),
    decreases b,
{
    if b > 0 {
        ten_to_sum(a, (b - 1) as nat);
        let p = ten_to(a);
        let q = ten_to((b - 1) as nat);
        assert(ten_to(a + b) == 10 * ten_to((a + b - 1) as nat));
        assert(10 * (p * q) == p * (10 * q)) by (nonlinear_arith);
    } else {
        assert(ten_to(a) * 1 == ten_to(a));
    }
}

fn aligned_equal(a: Decimal, b: Decimal) -> (same: bool)
    requires
        a.scale <= b.scale,
    ensures
        same == same_amount(a, b),
{
    let shift: u8 = b.scale - a.scale;
    let mut x: i128 = a.units as i128;
    let mut i: u8 = 0;
    let ghost low = ten_to(a.scale as nat);
    proof {
        ten_to_positive(a.scale as nat);
        ten_to_sum(a.scale as nat, shift as nat);
        let whole = ten_to(shift as nat);
        let u = a.units as int;
        let v = b.units as int;
        // Both sides carry the factor of the smaller scale.
        assert(u * (low * whole) == (u * whole) * low) by (nonlinear_arith);
        assert((u * whole) * low == v * low <==> u * whole == v) by (nonlinear_arith)
            requires
                low >= 1,
        ;
        assert(same_amount(a, b) == (u * whole == v));
    }
    assert(ten_to(0) == 1);
    assert(a.units * 1 == a.units);
    while i < shift
        invariant
            i <= shift,
            x == a.units * ten_to(i as nat),
            i64::MIN <= x <= i64::MAX,
            same_amount(a, b) == (a.units * ten_to(shift as nat) == b.units),
        decreases shift - i,
    {
        let ghost before = ten_to(i as nat);
        let ghost u = a.units as int;
        assert(ten_to((i + 1) as nat) == 10 * before);
        assert(u * (10 * before) == 10 * (u * before)) by (nonlinear_arith);
        x = x * 10;
        i = i + 1;
        if x > i64::MAX as i128 || x < i64::MIN as i128 {
            proof {
                let rest = (shift - i) as nat;
                ten_to_sum(i as nat, rest);
                ten_to_positive(rest);
                let here = ten_to(i as nat);
                let more = ten_to(rest);
                assert(u * (here * more) == (u * here) * more) by (nonlinear_arith);
                let y = u * here;
                assert(y > 0 ==> y * more >= y) by (nonlinear_arith)
                    requires
                        more >= 1,
                ;
                assert(y < 0 ==> y * more <= y) by (nonlinear_arith)
                    requires
                        more >= 1,
                ;
            }
            return false;
        }
    }
    x == b.units as i128
}

impl Decimal {
    /// Whether two decimals are the same amount, whatever their scales.
    pub fn same(self, other: Decimal) -> (same: bool)
        ensures
            same == same_amount(self, other),
    {
        if self.scale <= other.scale {
            aligned_equal(self, other)
        } else {
            aligned_equal(other, self)
        }
    }

    /// Whether the amount is zero.
    pub fn is_zero(self) -> (zero: bool)
        ensures
            zero == (self.units == 0),
    {
        self.units == 0
    }

    /// Zero at a scale.
    pub fn zero(scale: u8) -> (amount: Decimal)
        ensures
            amount.units == 0,
            amount.scale == scale,
    {
        Decimal { units: 0, scale }
    }
}

/// Two decimals are the same amount exactly when their units are, each taken to the scale of the
/// other.
pub proof fn same_amount_in_powers(a: Decimal, b: Decimal)
    ensures
        same_amount(a, b) <==> a.units * pow(10, b.scale as nat) == b.units * pow(
            10,
            a.scale as nat,
        ),
{
    ten_to_is_a_power(a.scale as nat);
    ten_to_is_a_power(b.scale as nat);
}

/// An amount has the same value as itself, sameness is symmetric, and zero is zero at every
/// scale.
pub proof fn same_amount_is_an_equality(a: Decimal, b: Decimal)
    ensures
        same_amount(a, a),
        same_amount(a, b) == same_amount(b, a),
        a.units == 0 ==> (same_amount(a, b) <==> b.units == 0),
{
    ten_to_positive(a.scale as nat);
    if a.units == 0 {
        let v = b.units as int;
        let p = ten_to(a.scale as nat);
        assert(0 * ten_to(b.scale as nat) == 0);
        assert(v * p == 0 <==> v == 0) by (nonlinear_arith)
            requires
                p >= 1,
        ;
    }
}

/// The class of a broker account.
#[derive(Debug, Clone, Copy, PartialEq, Eq, Structural)]
pub enum AccountClass {
    Demo,
    Real,
}

/// The direction of a contract.
#[derive(Debug, Clone, Copy, PartialEq, Eq, Structural)]
pub enum Direction {
    Buy,
    Sell,
}

/// How a contract ended.
#[derive(Debug, Clone, Copy, PartialEq, Eq, Structural)]
pub enum Outcome {
    Win,
    Loss,
    Tie,
}

impl Outcome {
    /// The name of the outcome.
    pub open spec fn name(self) -> Seq<char> {
        match self {
            Outcome::Win => "win"@,
            Outcome::Loss => "loss"@,
            Outcome::Tie => "tie"@,
        }
    }

    /// The name of the outcome.
    pub fn text(self) -> (text: &'static str)
        ensures
            text@ == self.name(),
    {
        match self {
            Outcome::Win => "win",
            Outcome::Loss => "loss",
            Outcome::Tie => "tie",
        }
    }
}

/// Whether a signal was admitted for dispatch.
#[derive(Debug, Clone, Copy, PartialEq, Eq, Structural)]
pub enum Disposition {
    Admitted,
    Refused,
}

/// What the broker says of a closed contract.
#[derive(Debug, Clone, Copy, PartialEq, Eq, Structural)]
pub enum TerminalStatus {
    Won,
    Lost,
    Other,
}

/// The side of a cash movement.
#[derive(Debug, Clone, Copy, PartialEq, Eq, Structural)]
pub enum CashAction {
    Buy,
    Sell,
    Other,
}

/// What one outcome pays.
#[derive(Debug, Clone, Copy)]
pub struct Cashflow {
    pub gross_return: Decimal,
    pub terminal_fee: Decimal,
}

/// The terms of a contract.
#[derive(Debug)]
pub struct ContractTerms {
    pub id: String,
    pub direction: Direction,
    pub duration_micros: i64,
    /// What the contract costs and pays, in canonical text: contracts with the same economics
    /// have the same text.
    pub economics: String,
    /// How the contract is interpreted, in canonical text.
    pub semantics: String,
    /// How the contract settles, in canonical text.
    pub settlement: String,
    pub quoted_cost: Decimal,
    /// The cost of a purchase, or why it cannot be computed.
    pub purchase: Result<Decimal, String>,
    pub win: Cashflow,
    pub loss: Cashflow,
    pub tie: Cashflow,
}

/// An offer of the broker.
#[derive(Debug)]
pub struct Proposal {
    pub identity: String,
    pub account: String,
    pub instrument: String,
    pub receipt_micros: i64,
    pub direction: Direction,
    pub duration_micros: i64,
    pub max_settlement_delay_micros: i64,
    pub quoted_cost: Decimal,
    /// What the offer costs and pays, in canonical text: contracts with the same economics have
    /// the same text.
    pub economics: String,
    /// How the contract is interpreted, in canonical text.
    pub semantics: String,
    /// How the contract settles, in canonical text.
    pub settlement: String,
    /// The identity of the terms, of the request, and of the request as it should be.
    pub terms_identity: String,
    pub request_identity: String,
    pub canonical_request_identity: String,
}

/// A purchased contract at the broker.
#[derive(Debug)]
pub struct BrokerLiability {
    pub contract_ref: String,
    pub transaction_ref: String,
    pub purchase_time_micros: i64,
    pub expected_start_micros: i64,
    pub payout: Decimal,
}

/// Where a fact comes from and when it was available.
#[derive(Debug)]
pub struct EventSource {
    pub id: String,
    pub provider_time_micros: i64,
    pub available_at_micros: i64,
    pub simulated: bool,
}

/// What the broker reports of a closed contract.
#[derive(Debug)]
pub struct Terminal {
    pub status: TerminalStatus,
    pub exit_price_units: Option<i64>,
    pub exit_time_micros: Option<i64>,
    pub transaction_ref: Option<String>,
}

/// A cash movement on the account.
#[derive(Debug)]
pub struct CashFact {
    pub account: String,
    pub transaction_ref: String,
    pub contract_ref: Option<String>,
    pub action: CashAction,
}

/// How an uncertain command was resolved.
#[derive(Debug)]
pub enum Resolution {
    NotSent,
    Purchased { debit: Decimal, liability: BrokerLiability },
    Settled { outcome: Outcome, gross_return: Decimal, terminal_fee: Decimal },
    ExternallyClosed,
}

/// A signal of a strategy for one binding.
#[derive(Debug)]
pub struct Signal {
    pub instrument: String,
    pub binding: String,
    pub disposition: Disposition,
    pub quote_price_units: Option<i64>,
    pub quote_time_micros: Option<i64>,
    pub command: Option<String>,
    pub proposal: Option<Proposal>,
    pub reservation: Option<Decimal>,
}

/// What the execution engine reports.
#[allow(inconsistent_fields)]
#[derive(Debug)]
pub enum EventKind {
    Signal(Signal),
    Acknowledged { command: String },
    Accepted {
        command: String,
        source: EventSource,
        liability: Option<BrokerLiability>,
        discrepancy: bool,
        deficit: Option<Decimal>,
    },
    Confirmed {
        command: String,
        entry_price_units: Option<i64>,
        entry_time_micros: Option<i64>,
        start_micros: Option<i64>,
        expiry_micros: Option<i64>,
    },
    Released { command: String, source: EventSource, rejected: bool },
    PossiblySent { command: String },
    Unresolved { command: String, terminal: Option<Terminal>, source: Option<EventSource> },
    CashObserved { source: EventSource, fact: CashFact, matched: Option<String> },
    Settled {
        command: String,
        outcome: Outcome,
        gross_return: Decimal,
        terminal_fee: Decimal,
        discrepancy: bool,
        deficit: Option<Decimal>,
        transaction_ref: Option<String>,
    },
    Reconciled {
        command: String,
        source: EventSource,
        resolution: Resolution,
        profit: Option<Decimal>,
    },
    Other,
}

/// One event of the ledger.
#[derive(Debug)]
pub struct FinancialEvent {
    pub sequence: u64,
    pub time_micros: i64,
    pub kind: EventKind,
}

/// What a contract pays on an outcome.
pub open spec fn cashflow_of(terms: ContractTerms, outcome: Outcome) -> Cashflow {
    match outcome {
        Outcome::Win => terms.win,
        Outcome::Loss => terms.loss,
        Outcome::Tie => terms.tie,
    }
}

impl ContractTerms {
    /// What the contract pays on an outcome.
    pub fn cashflow(&self, outcome: Outcome) -> (cashflow: Cashflow)
        ensures
            cashflow == cashflow_of(*self, outcome),
    {
        match outcome {
            Outcome::Win => self.win,
            Outcome::Loss => self.loss,
            Outcome::Tie => self.tie,
        }
    }
}

impl Clone for BrokerLiability {
    fn clone(&self) -> (copy: Self)
        ensures
            copy == *self,
    {
        BrokerLiability {
            contract_ref: self.contract_ref.clone(),
            transaction_ref: self.transaction_ref.clone(),
            purchase_time_micros: self.purchase_time_micros,
            expected_start_micros: self.expected_start_micros,
            payout: self.payout,
        }
    }
}

impl Clone for EventSource {
    fn clone(&self) -> (copy: Self)
        ensures
            copy == *self,
    {
        EventSource {
            id: self.id.clone(),
            provider_time_micros: self.provider_time_micros,
            available_at_micros: self.available_at_micros,
            simulated: self.simulated,
        }
    }
}

impl Clone for Terminal {
    fn clone(&self) -> (copy: Self)
        ensures
            copy == *self,
    {
        Terminal {
            status: self.status,
            exit_price_units: self.exit_price_units,
            exit_time_micros: self.exit_time_micros,
            transaction_ref: copy_optional(&self.transaction_ref),
        }
    }
}

impl Clone for CashFact {
    fn clone(&self) -> (copy: Self)
        ensures
            copy == *self,
    {
        CashFact {
            account: self.account.clone(),
            transaction_ref: self.transaction_ref.clone(),
            contract_ref: copy_optional(&self.contract_ref),
            action: self.action,
        }
    }
}

impl Clone for Proposal {
    fn clone(&self) -> (copy: Self)
        ensures
            copy == *self,
    {
        Proposal {
            identity: self.identity.clone(),
            account: self.account.clone(),
            instrument: self.instrument.clone(),
            receipt_micros: self.receipt_micros,
            direction: self.direction,
            duration_micros: self.duration_micros,
            max_settlement_delay_micros: self.max_settlement_delay_micros,
            quoted_cost: self.quoted_cost,
            economics: self.economics.clone(),
            semantics: self.semantics.clone(),
            settlement: self.settlement.clone(),
            terms_identity: self.terms_identity.clone(),
            request_identity: self.request_identity.clone(),
            canonical_request_identity: self.canonical_request_identity.clone(),
        }
    }
}

fn copy_proposal(value: &Option<Proposal>) -> (copy: Option<Proposal>)
    ensures
        copy == *value,
{
    match value {
        Some(proposal) => Some(proposal.clone()),
        None => None,
    }
}

fn copy_liability(value: &Option<BrokerLiability>) -> (copy: Option<BrokerLiability>)
    ensures
        copy == *value,
{
    match value {
        Some(liability) => Some(liability.clone()),
        None => None,
    }
}

impl Clone for Signal {
    fn clone(&self) -> (copy: Self)
        ensures
            copy == *self,
    {
        Signal {
            instrument: self.instrument.clone(),
            binding: self.binding.clone(),
            disposition: self.disposition,
            quote_price_units: self.quote_price_units,
            quote_time_micros: self.quote_time_micros,
            command: copy_optional(&self.command),
            proposal: copy_proposal(&self.proposal),
            reservation: self.reservation,
        }
    }
}

impl Clone for Resolution {
    fn clone(&self) -> (copy: Self)
        ensures
            copy == *self,
    {
        match self {
            Resolution::NotSent => Resolution::NotSent,
            Resolution::Purchased { debit, liability } => Resolution::Purchased {
                debit: *debit,
                liability: liability.clone(),
            },
            Resolution::Settled { outcome, gross_return, terminal_fee } => Resolution::Settled {
                outcome: *outcome,
                gross_return: *gross_return,
                terminal_fee: *terminal_fee,
            },
            Resolution::ExternallyClosed => Resolution::ExternallyClosed,
        }
    }
}

impl Clone for EventKind {
    fn clone(&self) -> (copy: Self)
        ensures
            copy == *self,
    {
        match self {
            EventKind::Signal(signal) => EventKind::Signal(signal.clone()),
            EventKind::Acknowledged { command } => EventKind::Acknowledged {
                command: command.clone(),
            },
            EventKind::Accepted { command, source, liability, discrepancy, deficit } => EventKind::Accepted {
                command: command.clone(),
                source: source.clone(),
                liability: copy_liability(liability),
                discrepancy: *discrepancy,
                deficit: *deficit,
            },
            EventKind::Confirmed {
                command,
                entry_price_units,
                entry_time_micros,
                start_micros,
                expiry_micros,
            } => EventKind::Confirmed {
                command: command.clone(),
                entry_price_units: *entry_price_units,
                entry_time_micros: *entry_time_micros,
                start_micros: *start_micros,
                expiry_micros: *expiry_micros,
            },
            EventKind::Released { command, source, rejected } => EventKind::Released {
                command: command.clone(),
                source: source.clone(),
                rejected: *rejected,
            },
            EventKind::PossiblySent { command } => EventKind::PossiblySent {
                command: command.clone(),
            },
            EventKind::Unresolved { command, terminal, source } => EventKind::Unresolved {
                command: command.clone(),
                terminal: match terminal {
                    Some(terminal) => Some(terminal.clone()),
                    None => None,
                },
                source: match source {
                    Some(source) => Some(source.clone()),
                    None => None,
                },
            },
            EventKind::CashObserved { source, fact, matched } => EventKind::CashObserved {
                source: source.clone(),
                fact: fact.clone(),
                matched: copy_optional(matched),
            },
            EventKind::Settled {
                command,
                outcome,
                gross_return,
                terminal_fee,
                discrepancy,
                deficit,
                transaction_ref,
            } => EventKind::Settled {
                command: command.clone(),
                outcome: *outcome,
                gross_return: *gross_return,
                terminal_fee: *terminal_fee,
                discrepancy: *discrepancy,
                deficit: *deficit,
                transaction_ref: copy_optional(transaction_ref),
            },
            EventKind::Reconciled { command, source, resolution, profit } => EventKind::Reconciled {
                command: command.clone(),
                source: source.clone(),
                resolution: resolution.clone(),
                profit: *profit,
            },
            EventKind::Other => EventKind::Other,
        }
    }
}

impl Clone for FinancialEvent {
    fn clone(&self) -> (copy: Self)
        ensures
            copy == *self,
    {
        FinancialEvent {
            sequence: self.sequence,
            time_micros: self.time_micros,
            kind: self.kind.clone(),
        }
    }
}

} // verus!
