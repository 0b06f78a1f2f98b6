//! Pure compatibility measurement of the frozen baseline against journaled financial facts.

pub mod laws;
pub mod ledger;
pub mod matched;
pub mod model;

use crate::live::finance::{
    AccountClass, BrokerLiability, CashAction, CashFact, ContractTerms, Decimal, EventKind,
    FinancialEvent, Outcome, Resolution, Signal, Terminal,
};
use crate::live::journal::{Record, RecordKind};
use crate::live::receipt::model::{
    after_cash, after_command, after_commands, after_event, after_events, after_record,
    after_records, are_terms, assessed, baseline_of, binding_of, concluded, conclusion, credited,
    facts_of, is_binding, is_risk, judged, measured, observed_at, or_else, risk_of, second_of, signal_of, Facts, Measured,
    Verdict,
};
use crate::market::{later, saturating_difference};
use crate::search::{first_where_absent, first_where_found};
use crate::table::Table;
use crate::text::{
    append_decimal, append_signed, copy_texts, decimal_text, join, join3, join4, same_optional,
    same_text, signed_decimal, text_of, views,
};
use vstd::prelude::*;
use vstd::string::*;

verus! {

pub const RECEIPT_SCHEMA_VERSION: u32 = 1;

pub const CLOCK_BASIS: &'static str = "unix_epoch_micros; provider seconds × 1_000_000";

/// Whether the observed facts stay within what was assessed.
#[derive(Debug, Clone, Copy, PartialEq, Eq, Structural)]
pub enum Status {
    Matched,
    OutsideEnvelope,
    Unavailable,
}

/// One measured dimension.
#[derive(Debug)]
pub struct Dimension {
    pub name: &'static str,
    pub status: Status,
    pub samples: u32,
    pub required: u32,
    pub bound: String,
    pub reason: Option<String>,
}

/// Whether the measured deployment may be promoted, and what speaks against it.
#[derive(Debug)]
pub struct Promotion {
    pub eligible: bool,
    pub reasons: Vec<String>,
}

/// One archived journal segment.
#[derive(Debug)]
pub struct Segment {
    pub key: String,
    pub sha256: String,
    pub bytes: u64,
}

/// What a dimension has measured so far.
pub struct Gauge {
    pub status: Status,
    pub samples: nat,
    pub reason: Option<Seq<char>>,
}

/// A further reason after the ones before it.
pub open spec fn with_reason(before: Option<Seq<char>>, reason: Seq<char>) -> Option<Seq<char>> {
    match before {
        Some(existing) => Some(existing + "; "@ + reason),
        None => Some(reason),
    }
}

impl Gauge {
    /// Nothing measured yet.
    pub open spec fn start() -> Gauge {
        Gauge { status: Status::Matched, samples: 0, reason: None }
    }

    /// One more sample.
    pub open spec fn sampled(self) -> Gauge {
        Gauge { samples: self.samples + 1, ..self }
    }

    /// A fact for the record.
    pub open spec fn noted(self, reason: Seq<char>) -> Gauge {
        Gauge { reason: with_reason(self.reason, reason), ..self }
    }

    /// A fact outside the envelope.
    pub open spec fn outside(self, reason: Seq<char>) -> Gauge {
        Gauge { status: Status::OutsideEnvelope, ..self.noted(reason) }
    }

    /// A missing fact; it never hides one outside the envelope.
    pub open spec fn unavailable(self, reason: Seq<char>) -> Gauge {
        Gauge {
            status: if self.status == Status::OutsideEnvelope {
                self.status
            } else {
                Status::Unavailable
            },
            ..self.noted(reason)
        }
    }
}

impl Dimension {
    /// What the dimension has measured.
    pub open spec fn gauge(&self) -> Gauge {
        Gauge { status: self.status, samples: self.samples as nat, reason: text_of(self.reason) }
    }

    /// The name, the bound and the required number of samples stay.
    pub open spec fn same_kind(&self, other: &Dimension) -> bool {
        self.name == other.name && self.bound == other.bound && self.required == other.required
    }

    /// A dimension that has measured nothing.
    pub fn new(name: &'static str, bound: String, required: u32) -> (dimension: Dimension)
        ensures
            dimension.name == name,
            dimension.bound == bound,
            dimension.required == required,
            dimension.gauge() == Gauge::start(),
    {
        Dimension { name, status: Status::Matched, samples: 0, required, bound, reason: None }
    }

    /// Records a fact outside the envelope.
    pub fn outside(&mut self, reason: &str)
        ensures
            final(self).same_kind(old(self)),
            final(self).gauge() == old(self).gauge().outside(reason@),
    {
        self.status = Status::OutsideEnvelope;
        self.detail(reason);
    }

    /// Records a missing fact.
    pub fn unavailable(&mut self, reason: &str)
        ensures
            final(self).same_kind(old(self)),
            final(self).gauge() == old(self).gauge().unavailable(reason@),
    {
        if self.status != Status::OutsideEnvelope {
            self.status = Status::Unavailable;
        }
        self.detail(reason);
    }

    /// Adds a reason.
    pub fn detail(&mut self, reason: &str)
        ensures
            final(self).same_kind(old(self)),
            final(self).gauge() == old(self).gauge().noted(reason@),
    {
        let text = match &self.reason {
            Some(existing) => join3(existing.as_str(), "; ", reason),
            None => reason.to_owned(),
        };
        self.reason = Some(text);
    }

    fn sample(&mut self)
        requires
            old(self).samples < u32::MAX,
        ensures
            final(self).same_kind(old(self)),
            final(self).gauge() == old(self).gauge().sampled(),
            final(self).samples == old(self).samples + 1,
    {
        self.samples = self.samples + 1;
    }
}

/// One binding of a strategy to a contract and a risk policy.
#[derive(Debug)]
pub struct Binding {
    pub id: String,
    pub instrument: String,
    pub strategy: String,
    pub contract: String,
    pub risk_policy: String,
}

/// The bounds that a risk policy sets.
#[derive(Debug)]
pub struct RiskPolicy {
    pub id: String,
    pub max_quote_age_micros: i64,
    pub max_feature_age_micros: i64,
    pub max_proposal_age_micros: Option<i64>,
}

/// The research objects that a deployment was derived from.
#[derive(Debug)]
pub struct LiveSource {
    pub research: String,
    pub bundle_sha256: String,
    pub frozen: String,
    pub certification: String,
}

/// The observation window as configured, and its ends where they are times.
#[derive(Debug)]
pub struct Window {
    pub decision_start: String,
    pub decision_end: String,
    pub start_micros: Option<i64>,
    pub end_micros: Option<i64>,
}

/// Everything a measurement reads.
#[derive(Debug)]
pub struct Inputs {
    pub deployment: String,
    pub definition: String,
    pub source: LiveSource,
    pub execution_contract: String,
    pub broker: String,
    /// The account whose cash movements count.
    pub account: String,
    pub account_class: AccountClass,
    pub required_account_class: AccountClass,
    pub instruments: Vec<String>,
    pub currency: String,
    pub observation: Window,
    pub scenarios: Vec<String>,
    pub min_samples: u32,
    pub ledger: String,
    pub baseline: Vec<ContractTerms>,
    pub bindings: Vec<Binding>,
    pub risk_policies: Vec<RiskPolicy>,
    pub events: Vec<FinancialEvent>,
    pub refusals: Vec<Record>,
}

impl Inputs {
    /// The sample counts fit their type, and the second of every decision to buy can be named.
    pub open spec fn wf(&self) -> bool {
        &&& self.events@.len() + self.refusals@.len() <= u32::MAX
        &&& forall|command: Seq<char>| #[trigger]
            measured(*self).commands.dom().contains(command) ==> dated(
                *self,
                measured(*self).commands[command],
            )
    }
}

fn find_binding(inputs: &Inputs, signal: &Signal) -> (found: Option<usize>)
    ensures
        index_of(found) == binding_of(*inputs, *signal),
        found matches Some(at) ==> at < inputs.bindings@.len(),
{
    let ghost wanted = is_binding(signal.binding@);
    let mut i: usize = 0;
    while i < inputs.bindings.len()
        invariant
            i <= inputs.bindings@.len(),
            wanted == is_binding(signal.binding@),
            forall|j: int| 0 <= j < i ==> !wanted(#[trigger] inputs.bindings@[j]),
        decreases inputs.bindings@.len() - i,
    {
        if same_text(inputs.bindings[i].id.as_str(), signal.binding.as_str()) {
            proof {
                first_where_found(inputs.bindings@, wanted, i as int);
            }
            return Some(i);
        }
        i = i + 1;
    }
    proof {
        first_where_absent(inputs.bindings@, wanted);
    }
    None
}

/// A found position as a mathematical one.
pub open spec fn index_of(found: Option<usize>) -> Option<int> {
    match found {
        Some(at) => Some(at as int),
        None => None,
    }
}

fn find_baseline(inputs: &Inputs, signal: &Signal) -> (found: Option<usize>)
    ensures
        index_of(found) == baseline_of(*inputs, *signal),
        found matches Some(at) ==> at < inputs.baseline@.len(),
{
    let bound: usize = match find_binding(inputs, signal) {
        Some(at) => at,
        None => {
            return None;
        },
    };
    let ghost wanted = are_terms(inputs.bindings@[bound as int].contract@);
    let mut i: usize = 0;
    while i < inputs.baseline.len()
        invariant
            i <= inputs.baseline@.len(),
            bound < inputs.bindings@.len(),
            binding_of(*inputs, *signal) == Some(bound as int),
            wanted == are_terms(inputs.bindings@[bound as int].contract@),
            forall|j: int| 0 <= j < i ==> !wanted(#[trigger] inputs.baseline@[j]),
        decreases inputs.baseline@.len() - i,
    {
        if same_text(inputs.baseline[i].id.as_str(), inputs.bindings[bound].contract.as_str()) {
            proof {
                first_where_found(inputs.baseline@, wanted, i as int);
            }
            return Some(i);
        }
        i = i + 1;
    }
    proof {
        first_where_absent(inputs.baseline@, wanted);
    }
    None
}

fn find_risk(inputs: &Inputs, signal: &Signal) -> (found: Option<usize>)
    ensures
        index_of(found) == risk_of(*inputs, *signal),
        found matches Some(at) ==> at < inputs.risk_policies@.len(),
{
    let bound: usize = match find_binding(inputs, signal) {
        Some(at) => at,
        None => {
            return None;
        },
    };
    let ghost wanted = is_risk(inputs.bindings@[bound as int].risk_policy@);
    let mut i: usize = 0;
    while i < inputs.risk_policies.len()
        invariant
            i <= inputs.risk_policies@.len(),
            bound < inputs.bindings@.len(),
            binding_of(*inputs, *signal) == Some(bound as int),
            wanted == is_risk(inputs.bindings@[bound as int].risk_policy@),
            forall|j: int| 0 <= j < i ==> !wanted(#[trigger] inputs.risk_policies@[j]),
        decreases inputs.risk_policies@.len() - i,
    {
        if same_text(
            inputs.risk_policies[i].id.as_str(),
            inputs.bindings[bound].risk_policy.as_str(),
        ) {
            proof {
                first_where_found(inputs.risk_policies@, wanted, i as int);
            }
            return Some(i);
        }
        i = i + 1;
    }
    proof {
        first_where_absent(inputs.risk_policies@, wanted);
    }
    None
}

/// The second in which a purchase was decided can be named.
pub open spec fn dated(inputs: Inputs, facts: Facts) -> bool {
    facts.signal is Some && facts.purchased_at is Some ==> second_of(
        inputs.events@[facts.signal->0 as int].time_micros as int,
    ) >= i64::MIN
}

/// Facts that point to a signal point to one among the events.
pub open spec fn sound(inputs: Inputs, facts: Facts) -> bool {
    facts.signal matches Some(at) ==> at < inputs.events@.len() && inputs.events@[at as int].kind
        is Signal
}

fn find_signal<'a>(inputs: &'a Inputs, facts: &Facts) -> (found: Option<&'a Signal>)
    requires
        sound(*inputs, *facts),
    ensures
        (match found {
            Some(signal) => Some(*signal),
            None => None,
        }) == signal_of(*inputs, *facts),
{
    match facts.signal {
        Some(at) => match &inputs.events[at].kind {
            EventKind::Signal(signal) => Some(signal),
            _ => None,
        },
        None => None,
    }
}

fn find_assessed<'a>(inputs: &'a Inputs, facts: &Facts) -> (found: Option<&'a ContractTerms>)
    requires
        sound(*inputs, *facts),
    ensures
        (match found {
            Some(terms) => Some(*terms),
            None => None,
        }) == assessed(*inputs, *facts),
{
    match find_signal(inputs, facts) {
        Some(signal) => match find_baseline(inputs, signal) {
            Some(at) => Some(&inputs.baseline[at]),
            None => None,
        },
        None => None,
    }
}

struct Working {
    commands: Table<Facts>,
    cash: Table<i64>,
    economics: Dimension,
    offers: Dimension,
}

impl Working {
    spec fn state(&self) -> Measured {
        Measured {
            commands: self.commands@,
            cash: self.cash@,
            economics: self.economics.gauge(),
            offers: self.offers.gauge(),
        }
    }

    spec fn wf(&self, inputs: Inputs, steps: nat) -> bool {
        &&& self.commands@.dom().finite()
        &&& self.commands@.dom().len() <= steps
        &&& self.economics.samples <= steps
        &&& self.offers.samples <= steps
        &&& forall|command: Seq<char>|
            self.commands@.dom().contains(command) ==> sound(
                inputs,
                #[trigger] self.commands@[command],
            )
    }

    spec fn same_kinds(&self, other: &Working) -> bool {
        self.economics.same_kind(&other.economics) && self.offers.same_kind(&other.offers)
    }

    fn facts(&self, command: &str) -> (facts: Facts)
        ensures
            facts == facts_of(self.commands@, command@),
    {
        match self.commands.get(command) {
            Some(facts) => facts.clone(),
            None => Facts::unknown(),
        }
    }

    fn compare_offer(&mut self, inputs: &Inputs, facts: &Facts, command: &str)
        requires
            sound(*inputs, *facts),
        ensures
            final(self).same_kinds(old(self)),
            final(self).commands == old(self).commands,
            final(self).cash == old(self).cash,
            final(self).offers == old(self).offers,
            final(self).economics.samples == old(self).economics.samples,
            final(self).economics.gauge() == model::after_offer(
                old(self).economics.gauge(),
                *inputs,
                *facts,
                command@,
            ),
    {
        let signal = match find_signal(inputs, facts) {
            Some(signal) => signal,
            None => {
                return;
            },
        };
        let terms = match find_assessed(inputs, facts) {
            Some(terms) => terms,
            None => {
                return;
            },
        };
        if let Some(proposal) = &signal.proposal {
            if !same_text(proposal.economics.as_str(), terms.economics.as_str()) {
                let reason = join3(
                    command,
                    ": accepted terms differ from baseline ",
                    terms.id.as_str(),
                );
                self.economics.outside(reason.as_str());
            }
        }
    }
}

impl Working {
    fn signal(&mut self, command: &String, at: usize, Ghost(inputs): Ghost<Inputs>, Ghost(steps): Ghost<nat>)
        requires
            old(self).wf(inputs, steps),
            steps < u32::MAX,
            at < inputs.events@.len(),
            inputs.events@[at as int].kind is Signal,
        ensures
            final(self).wf(inputs, steps + 1),
            final(self).same_kinds(old(self)),
            final(self).state() == model::after_signal(old(self).state(), command@, at),
    {
        let mut facts = self.facts(command.as_str());
        facts.signal = Some(at);
        self.commands.insert(command.clone(), facts);
        self.offers.sample();
    }

    fn accepted(
        &mut self,
        inputs: &Inputs,
        command: &String,
        liability: &Option<BrokerLiability>,
        flagged: bool,
        Ghost(steps): Ghost<nat>,
    )
        requires
            old(self).wf(*inputs, steps),
            steps < u32::MAX,
        ensures
            final(self).wf(*inputs, steps + 1),
            final(self).same_kinds(old(self)),
            final(self).state() == model::after_accepted(
                old(self).state(),
                *inputs,
                command@,
                *liability,
                flagged,
            ),
    {
        let before = self.facts(command.as_str());
        let mut facts = before.clone();
        match liability {
            Some(liability) => {
                facts.purchased_at = Some(liability.purchase_time_micros);
                facts.contract = Some(liability.contract_ref.clone());
                self.economics.sample();
            },
            None => {
                facts.purchased_at = None;
            },
        }
        self.commands.insert(command.clone(), facts);
        if flagged {
            let reason = join(
                command.as_str(),
                ": accepted economics discrepancy or deficit",
            );
            self.economics.outside(reason.as_str());
        }
        if before.signal.is_some() {
            self.compare_offer(inputs, &before, command.as_str());
        } else {
            let reason = join(command.as_str(), ": missing signal baseline");
            self.economics.unavailable(reason.as_str());
        }
    }

    fn purchase(
        &mut self,
        inputs: &Inputs,
        command: &String,
        debit: Decimal,
        liability: &BrokerLiability,
        Ghost(steps): Ghost<nat>,
    )
        requires
            old(self).wf(*inputs, steps),
            steps < u32::MAX,
        ensures
            final(self).wf(*inputs, steps + 1),
            final(self).same_kinds(old(self)),
            final(self).state() == model::after_purchase(
                old(self).state(),
                *inputs,
                command@,
                debit,
                *liability,
            ),
    {
        let before = self.facts(command.as_str());
        let mut facts = before.clone();
        facts.purchased_at = Some(liability.purchase_time_micros);
        facts.contract = Some(liability.contract_ref.clone());
        self.commands.insert(command.clone(), facts);
        self.economics.sample();
        if before.signal.is_none() {
            let reason = join(command.as_str(), ": missing signal baseline");
            self.economics.unavailable(reason.as_str());
            return;
        }
        match find_assessed(inputs, &before) {
            Some(terms) => match &terms.purchase {
                Ok(expected) => {
                    if !(debit.same(*expected) && liability.payout.same(terms.win.gross_return)) {
                        let reason = join3(
                            command.as_str(),
                            ": recovered actual debit or payout differs from baseline ",
                            terms.id.as_str(),
                        );
                        self.economics.outside(reason.as_str());
                    }
                },
                Err(error) => {
                    let reason = join3(
                        command.as_str(),
                        ": recovered economics cannot be compared: ",
                        error.as_str(),
                    );
                    self.economics.unavailable(reason.as_str());
                },
            },
            None => {
                let reason = join(command.as_str(), ": missing signal baseline");
                self.economics.unavailable(reason.as_str());
            },
        }
        self.compare_offer(inputs, &before, command.as_str());
    }

    fn confirmed(
        &mut self,
        command: &String,
        entry_price: Option<i64>,
        entry: Option<i64>,
        start: Option<i64>,
        expiry: Option<i64>,
        Ghost(inputs): Ghost<Inputs>,
        Ghost(steps): Ghost<nat>,
    )
        requires
            old(self).wf(inputs, steps),
        ensures
            final(self).wf(inputs, steps + 1),
            final(self).same_kinds(old(self)),
            final(self).state() == model::after_confirmed(
                old(self).state(),
                command@,
                entry_price,
                entry,
                start,
                expiry,
            ),
    {
        let mut facts = self.facts(command.as_str());
        facts.entry_price = first_of(facts.entry_price, entry_price);
        facts.entry = first_of(facts.entry, entry);
        facts.start = first_of(facts.start, start);
        facts.expiry = first_of(facts.expiry, expiry);
        self.commands.insert(command.clone(), facts);
    }

    fn terminal(
        &mut self,
        command: &String,
        terminal: &Terminal,
        available: i64,
        Ghost(inputs): Ghost<Inputs>,
        Ghost(steps): Ghost<nat>,
    )
        requires
            old(self).wf(inputs, steps),
        ensures
            final(self).wf(inputs, steps + 1),
            final(self).same_kinds(old(self)),
            final(self).state() == model::after_terminal(
                old(self).state(),
                command@,
                *terminal,
                available,
            ),
    {
        let mut facts = self.facts(command.as_str());
        if facts.release.is_none() {
            facts.exit = first_of(terminal.exit_time_micros, facts.exit);
            facts.exit_price = first_of(terminal.exit_price_units, facts.exit_price);
            let at: i64 = match facts.terminal_at {
                Some(old) => later(old, available),
                None => available,
            };
            facts.terminal_at = Some(at);
            if let Some(transaction) = &terminal.transaction_ref {
                facts.transaction = Some(transaction.clone());
            }
        }
        self.commands.insert(command.clone(), facts);
    }

    fn credit(
        &mut self,
        fact: &CashFact,
        available: i64,
        Ghost(inputs): Ghost<Inputs>,
        Ghost(steps): Ghost<nat>,
    )
        requires
            old(self).wf(inputs, steps),
        ensures
            final(self).wf(inputs, steps + 1),
            final(self).same_kinds(old(self)),
            final(self).state() == after_cash(old(self).state(), *fact, available),
    {
        let key = join3(fact.account.as_str(), ":", fact.transaction_ref.as_str());
        if !self.cash.contains(key.as_str()) {
            self.cash.insert(key, available);
        }
        let count: usize = self.commands.len();
        let ghost keys = self.commands.keys();
        let ghost before = self.commands@;
        let mut commands: Table<Facts> = Table::new();
        let mut i: usize = 0;
        while i < count
            invariant
                i <= count,
                count == keys.len(),
                keys == self.commands.keys(),
                before == self.commands@,
                keys.to_set() == before.dom(),
                forall|command: Seq<char>|
                    #[trigger] commands@.dom().contains(command) <==> keys.take(
                        i as int,
                    ).contains(command),
                forall|command: Seq<char>|
                    #[trigger] commands@.dom().contains(command) ==> commands@[command]
                        == credited(before[command], *fact, available),
            decreases count - i,
        {
            let (command, known) = self.commands.at(i);
            let mut facts = known.clone();
            let same_transaction: bool = match &facts.transaction {
                Some(id) => same_text(id.as_str(), fact.transaction_ref.as_str()),
                None => true,
            };
            if same_optional(&facts.contract, &fact.contract_ref) && facts.release.is_none()
                && same_transaction {
                facts.cash_at = Some(available);
            }
            commands.insert(command.to_owned(), facts);
            assert(keys.take(i + 1) =~= keys.take(i as int).push(keys[i as int]));
            proof {
                assert forall|command: Seq<char>|
                    #[trigger] commands@.dom().contains(command) <==> keys.take(i + 1).contains(
                        command,
                    ) by {
                    let earlier = keys.take(i as int);
                    let later = keys.take(i + 1);
                    if earlier.contains(command) {
                        let j = earlier.index_of(command);
                        assert(later[j] == command);
                    }
                    if command == keys[i as int] {
                        assert(later[i as int] == command);
                    }
                    if later.contains(command) {
                        let j = later.index_of(command);
                        if j < i {
                            assert(earlier[j] == command);
                        }
                    }
                }
            }
            i = i + 1;
        }
        assert(keys.take(i as int) =~= keys);
        assert(commands@ =~= before.map_values(|facts: Facts| credited(facts, *fact, available)))
            by {
            assert forall|command: Seq<char>| commands@.dom().contains(command)
                == before.dom().contains(command) by {
                assert(keys.to_set().contains(command) == keys.contains(command));
            }
        }
        proof {
            assert(commands@.dom() =~= before.dom());
            assert forall|command: Seq<char>| commands@.dom().contains(command) implies sound(
                inputs,
                #[trigger] commands@[command],
            ) by {
                assert(sound(inputs, before[command]));
            }
        }
        self.commands = commands;
    }

    fn check_payment(
        &mut self,
        inputs: &Inputs,
        facts: &Facts,
        outcome: Outcome,
        gross_return: Decimal,
        terminal_fee: Decimal,
        command: &str,
        differs: &str,
        missing: &str,
    )
        requires
            sound(*inputs, *facts),
        ensures
            final(self).same_kinds(old(self)),
            final(self).commands == old(self).commands,
            final(self).cash == old(self).cash,
            final(self).offers == old(self).offers,
            final(self).economics.samples == old(self).economics.samples,
            final(self).economics.gauge() == (match assessed(*inputs, *facts) {
                Some(terms) => if model::paid_as_assessed(
                    terms,
                    outcome,
                    gross_return,
                    terminal_fee,
                ) {
                    old(self).economics.gauge()
                } else {
                    old(self).economics.gauge().outside(
                        command@ + differs@ + terms.id@ + " "@ + outcome.name(),
                    )
                },
                None => old(self).economics.gauge().unavailable(command@ + missing@),
            }),
    {
        match find_assessed(inputs, facts) {
            Some(terms) => {
                let expected = terms.cashflow(outcome);
                if !gross_return.same(expected.gross_return) || !terminal_fee.same(
                    expected.terminal_fee,
                ) {
                    let mut reason = join4(command, differs, terms.id.as_str(), " ");
                    reason.append(outcome.text());
                    self.economics.outside(reason.as_str());
                }
            },
            None => {
                let reason = join(command, missing);
                self.economics.unavailable(reason.as_str());
            },
        }
    }

    fn settled(
        &mut self,
        inputs: &Inputs,
        command: &String,
        outcome: Outcome,
        gross_return: Decimal,
        terminal_fee: Decimal,
        flagged: bool,
        transaction: &Option<String>,
        time: i64,
        Ghost(steps): Ghost<nat>,
    )
        requires
            old(self).wf(*inputs, steps),
        ensures
            final(self).wf(*inputs, steps + 1),
            final(self).same_kinds(old(self)),
            final(self).state() == model::after_settled(
                old(self).state(),
                *inputs,
                command@,
                outcome,
                gross_return,
                terminal_fee,
                flagged,
                *transaction,
                time,
            ),
    {
        let mut facts = self.facts(command.as_str());
        if flagged {
            let reason = join(command.as_str(), ": settled economics discrepancy or deficit");
            self.economics.outside(reason.as_str());
        }
        self.check_payment(
            inputs,
            &facts,
            outcome,
            gross_return,
            terminal_fee,
            command.as_str(),
            ": settled cashflow differs from baseline ",
            ": missing settlement baseline",
        );
        if let Some(id) = transaction {
            let key = join3(inputs.account.as_str(), ":", id.as_str());
            facts.cash_at = match self.cash.get(key.as_str()) {
                Some(at) => Some(*at),
                None => None,
            };
        }
        if facts.release.is_none() {
            facts.release = Some((time, facts.terminal_at, facts.cash_at));
        }
        self.commands.insert(command.clone(), facts);
    }

    fn reconciled(
        &mut self,
        inputs: &Inputs,
        command: &String,
        outcome: Outcome,
        gross_return: Decimal,
        terminal_fee: Decimal,
        available: i64,
        time: i64,
        Ghost(steps): Ghost<nat>,
    )
        requires
            old(self).wf(*inputs, steps),
        ensures
            final(self).wf(*inputs, steps + 1),
            final(self).same_kinds(old(self)),
            final(self).state() == model::after_reconciled(
                old(self).state(),
                *inputs,
                command@,
                outcome,
                gross_return,
                terminal_fee,
                available,
                time,
            ),
    {
        let mut facts = self.facts(command.as_str());
        self.check_payment(
            inputs,
            &facts,
            outcome,
            gross_return,
            terminal_fee,
            command.as_str(),
            ": reconciled cashflow differs from baseline ",
            ": missing reconciliation baseline",
        );
        if gross_return.is_zero() && terminal_fee.is_zero() && facts.cash_at.is_none() {
            facts.cash_at = Some(available);
        }
        if facts.release.is_none() {
            facts.release = Some((time, facts.terminal_at, facts.cash_at));
        }
        self.commands.insert(command.clone(), facts);
    }

    fn externally_closed(
        &mut self,
        command: &String,
        time: i64,
        Ghost(inputs): Ghost<Inputs>,
        Ghost(steps): Ghost<nat>,
    )
        requires
            old(self).wf(inputs, steps),
        ensures
            final(self).wf(inputs, steps + 1),
            final(self).same_kinds(old(self)),
            final(self).state() == model::after_external_closure(
                old(self).state(),
                command@,
                time,
            ),
    {
        let mut facts = self.facts(command.as_str());
        let reason = join(
            command.as_str(),
            ": external closure is outside the baseline outcome model",
        );
        self.economics.outside(reason.as_str());
        if facts.release.is_none() {
            facts.release = Some((time, facts.terminal_at, facts.cash_at));
        }
        self.commands.insert(command.clone(), facts);
    }

    fn event(&mut self, inputs: &Inputs, at: usize, Ghost(steps): Ghost<nat>)
        requires
            old(self).wf(*inputs, steps),
            steps < u32::MAX,
            at < inputs.events@.len(),
        ensures
            final(self).wf(*inputs, steps + 1),
            final(self).same_kinds(old(self)),
            final(self).state() == after_event(old(self).state(), *inputs, at as int),
    {
        let event = &inputs.events[at];
        let time: i64 = event.time_micros;
        match &event.kind {
            EventKind::Signal(signal) => {
                if let Some(command) = &signal.command {
                    self.signal(command, at, Ghost(*inputs), Ghost(steps));
                }
            },
            EventKind::Accepted { command, source: _, liability, discrepancy, deficit } => {
                self.accepted(
                    inputs,
                    command,
                    liability,
                    *discrepancy || deficit.is_some(),
                    Ghost(steps),
                );
            },
            EventKind::Confirmed {
                command,
                entry_price_units,
                entry_time_micros,
                start_micros,
                expiry_micros,
            } => {
                self.confirmed(
                    command,
                    *entry_price_units,
                    *entry_time_micros,
                    *start_micros,
                    *expiry_micros,
                    Ghost(*inputs),
                    Ghost(steps),
                );
            },
            EventKind::Unresolved { command, terminal, source } => {
                if let Some(terminal) = terminal {
                    if let Some(source) = source {
                        self.terminal(
                            command,
                            terminal,
                            source.available_at_micros,
                            Ghost(*inputs),
                            Ghost(steps),
                        );
                    }
                }
            },
            EventKind::CashObserved { source, fact, matched: _ } => {
                if fact.action == CashAction::Sell {
                    self.credit(fact, source.available_at_micros, Ghost(*inputs), Ghost(steps));
                }
            },
            EventKind::Released { command, source, rejected } => {
                if *rejected {
                    let reason = join4(
                        command.as_str(),
                        ": broker rejected (",
                        source.id.as_str(),
                        ")",
                    );
                    self.offers.outside(reason.as_str());
                }
            },
            EventKind::Settled {
                command,
                outcome,
                gross_return,
                terminal_fee,
                discrepancy,
                deficit,
                transaction_ref,
            } => {
                self.settled(
                    inputs,
                    command,
                    *outcome,
                    *gross_return,
                    *terminal_fee,
                    *discrepancy || deficit.is_some(),
                    transaction_ref,
                    time,
                    Ghost(steps),
                );
            },
            EventKind::Reconciled { command, source, resolution, profit } => match resolution {
                Resolution::Purchased { debit, liability } => {
                    self.purchase(inputs, command, *debit, liability, Ghost(steps));
                },
                Resolution::Settled { outcome, gross_return, terminal_fee } => {
                    if profit.is_some() {
                        self.reconciled(
                            inputs,
                            command,
                            *outcome,
                            *gross_return,
                            *terminal_fee,
                            source.available_at_micros,
                            time,
                            Ghost(steps),
                        );
                    }
                },
                Resolution::ExternallyClosed => {
                    if profit.is_some() {
                        self.externally_closed(command, time, Ghost(*inputs), Ghost(steps));
                    }
                },
                Resolution::NotSent => {},
            },
            _ => {},
        }
    }

    fn record(
        &mut self,
        record: &Record,
        Ghost(inputs): Ghost<Inputs>,
        Ghost(steps): Ghost<nat>,
    )
        requires
            old(self).wf(inputs, steps),
            steps < u32::MAX,
        ensures
            final(self).wf(inputs, steps + 1),
            final(self).same_kinds(old(self)),
            final(self).state() == after_record(old(self).state(), *record),
    {
        match &record.kind {
            RecordKind::DueTick { command, provider_time_micros, price_units } => {
                let mut facts = self.facts(command.as_str());
                if facts.due_tick.is_none() {
                    facts.due_tick = Some((*provider_time_micros, *price_units));
                }
                self.commands.insert(command.clone(), facts);
            },
            RecordKind::Refused { binding, proposal: _, reason } => {
                self.offers.sample();
                let text = join3(binding.as_str(), ": ", reason.as_str());
                self.offers.outside(text.as_str());
            },
            _ => {},
        }
    }
}

fn first_of(first: Option<i64>, second: Option<i64>) -> (chosen: Option<i64>)
    ensures
        chosen == or_else(first, second),
{
    if first.is_some() {
        first
    } else {
        second
    }
}

fn judge_quote(
    quotes: &mut Dimension,
    command: &str,
    entry_price: Option<i64>,
    signal: &Signal,
    max_age: Option<i64>,
    decided: i64,
)
    requires
        old(quotes).samples < u32::MAX,
    ensures
        final(quotes).same_kind(old(quotes)),
        final(quotes).samples <= old(quotes).samples + 1,
        final(quotes).gauge() == model::after_quote(
            old(quotes).gauge(),
            command@,
            entry_price,
            signal.quote_price_units,
            signal.quote_time_micros,
            max_age,
            decided,
        ),
{
    if entry_price.is_some() {
        quotes.sample();
    }
    match (entry_price, signal.quote_price_units, signal.quote_time_micros, max_age) {
        (Some(price), Some(quote), Some(time), Some(limit)) => {
            let timely: bool = match decided.checked_sub(time) {
                Some(age) => 0 <= age && age <= limit,
                None => false,
            };
            if price != quote || !timely {
                let mut reason = join(command, ": entry_price_units=");
                append_signed(&mut reason, price);
                reason.append(", quote_price_units=");
                append_signed(&mut reason, quote);
                reason.append(", quote_age_micros=");
                append_signed(&mut reason, saturating_difference(decided, time));
                quotes.outside(reason.as_str());
            }
        },
        _ => {
            let reason = join(command, ": missing confirmed entry price or signal quote");
            quotes.unavailable(reason.as_str());
        },
    }
}

fn whole_second(decided: i64) -> (second: i64)
    requires
        second_of(decided as int) >= i64::MIN,
    ensures
        second == second_of(decided as int),
{
    let second: i64 = crate::live::reconcile::whole_second(decided);
    second * 1_000_000
}

fn judge_delay(delays: &mut Dimension, command: &str, purchased_at: Option<i64>, decided: i64)
    requires
        old(delays).samples < u32::MAX,
        purchased_at is Some ==> second_of(decided as int) >= i64::MIN,
    ensures
        final(delays).same_kind(old(delays)),
        final(delays).samples <= old(delays).samples + 1,
        final(delays).gauge() == model::after_delay(
            old(delays).gauge(),
            command@,
            purchased_at,
            decided,
        ),
{
    match purchased_at {
        Some(at) => {
            delays.sample();
            let delay: Option<i64> = at.checked_sub(whole_second(decided));
            let zero: bool = match delay {
                Some(value) => value == 0,
                None => false,
            };
            if !zero {
                let mut reason = join(command, ": purchase_time_micros - decision_second = ");
                match delay {
                    Some(value) => {
                        append_signed(&mut reason, value);
                    },
                    None => {
                        reason.append("overflow");
                    },
                }
                reason.append("; assessed 0 microseconds");
                delays.outside(reason.as_str());
            }
        },
        None => {
            let reason = join(command, ": missing purchase time");
            delays.unavailable(reason.as_str());
        },
    }
}

fn judge_timing(timing: &mut Dimension, command: &str, facts: &Facts, duration: Option<i64>)
    requires
        old(timing).samples < u32::MAX,
    ensures
        final(timing).same_kind(old(timing)),
        final(timing).samples <= old(timing).samples + 1,
        final(timing).gauge() == model::after_timing(
            old(timing).gauge(),
            command@,
            *facts,
            duration,
        ),
{
    if facts.entry.is_some() && facts.expiry.is_some() {
        timing.sample();
    }
    match (
        facts.entry,
        facts.expiry,
        facts.exit,
        facts.start,
        facts.exit_price,
        facts.due_tick,
        duration,
    ) {
        (
            Some(entry),
            Some(expiry),
            Some(exit),
            Some(start),
            Some(exit_price),
            Some((tick_time, tick_price)),
            Some(duration),
        ) => {
            let on_time: bool = match entry.checked_add(duration) {
                Some(end) => end == expiry,
                None => false,
            };
            if !on_time || exit != expiry || start != entry || exit_price != tick_price || tick_time
                < expiry {
                let mut reason = join(command, ": entry_time=");
                append_signed(&mut reason, entry);
                reason.append(", duration=");
                append_signed(&mut reason, duration);
                reason.append(", expiry=");
                append_signed(&mut reason, expiry);
                reason.append(", exit_time=");
                append_signed(&mut reason, exit);
                reason.append(", start=");
                append_signed(&mut reason, start);
                reason.append(", exit_price=");
                append_signed(&mut reason, exit_price);
                reason.append(", due_tick=");
                append_signed(&mut reason, tick_price);
                reason.append("@");
                append_signed(&mut reason, tick_time);
                timing.outside(reason.as_str());
            }
        },
        _ => {
            let reason = join(
                command,
                ": missing confirmed entry, start, expiry, terminal exit price/time, or due tick",
            );
            timing.unavailable(reason.as_str());
        },
    }
}

fn judge_release(release: &mut Dimension, command: &str, facts: &Facts)
    requires
        old(release).samples < u32::MAX,
    ensures
        final(release).same_kind(old(release)),
        final(release).samples <= old(release).samples + 1,
        final(release).gauge() == model::after_release(
            old(release).gauge(),
            command@,
            *facts,
        ),
{
    match (facts.expiry, facts.release) {
        (Some(expiry), Some((application, Some(terminal), Some(cash)))) => {
            release.sample();
            let evidence: i64 = later(terminal, cash);
            match (
                evidence.checked_sub(expiry),
                application.checked_sub(evidence),
                application.checked_sub(expiry),
            ) {
                (Some(first), Some(second), Some(total)) => {
                    let mut detail = join(command, ": expiry_to_evidence=");
                    append_signed(&mut detail, first);
                    detail.append("; evidence_to_application=");
                    append_signed(&mut detail, second);
                    detail.append("; total=");
                    append_signed(&mut detail, total);
                    detail.append(" microseconds");
                    if first != 0 || second != 0 {
                        release.outside(detail.as_str());
                    } else {
                        release.detail(detail.as_str());
                    }
                },
                _ => {
                    let reason = join(command, ": release clock arithmetic overflow");
                    release.unavailable(reason.as_str());
                },
            }
        },
        _ => {
            let reason = join(
                command,
                ": missing confirmed expiry, unresolved liability, or missing matched cash/zero-credit reconciliation",
            );
            release.unavailable(reason.as_str());
        },
    }
}

struct Judges {
    quotes: Dimension,
    delays: Dimension,
    timing: Dimension,
    release: Dimension,
}

impl Judges {
    spec fn verdict(&self) -> Verdict {
        Verdict {
            quotes: self.quotes.gauge(),
            delays: self.delays.gauge(),
            timing: self.timing.gauge(),
            release: self.release.gauge(),
        }
    }

    spec fn below(&self, count: nat) -> bool {
        &&& self.quotes.samples <= count
        &&& self.delays.samples <= count
        &&& self.timing.samples <= count
        &&& self.release.samples <= count
    }

    spec fn same_kinds(&self, other: &Judges) -> bool {
        &&& self.quotes.same_kind(&other.quotes)
        &&& self.delays.same_kind(&other.delays)
        &&& self.timing.same_kind(&other.timing)
        &&& self.release.same_kind(&other.release)
    }

    fn command(&mut self, inputs: &Inputs, command: &str, facts: &Facts, Ghost(count): Ghost<nat>)
        requires
            old(self).below(count),
            count < u32::MAX,
            sound(*inputs, *facts),
            dated(*inputs, *facts),
        ensures
            final(self).below(count + 1),
            final(self).same_kinds(old(self)),
            final(self).verdict() == after_command(
                old(self).verdict(),
                *inputs,
                command@,
                *facts,
            ),
    {
        let at: usize = match facts.signal {
            Some(at) => at,
            None => {
                return;
            },
        };
        let signal = match find_signal(inputs, facts) {
            Some(signal) => signal,
            None => {
                return;
            },
        };
        let decided: i64 = inputs.events[at].time_micros;
        let max_age: Option<i64> = match find_risk(inputs, signal) {
            Some(risk) => Some(inputs.risk_policies[risk].max_quote_age_micros),
            None => None,
        };
        let duration: Option<i64> = match find_assessed(inputs, facts) {
            Some(terms) => Some(terms.duration_micros),
            None => None,
        };
        judge_quote(&mut self.quotes, command, facts.entry_price, signal, max_age, decided);
        judge_delay(&mut self.delays, command, facts.purchased_at, decided);
        judge_timing(&mut self.timing, command, facts, duration);
        judge_release(&mut self.release, command, facts);
    }
}

fn conclude(dimension: Dimension, silence: &str) -> (last: Dimension)
    ensures
        last.same_kind(&dimension),
        last.gauge() == concluded(dimension.gauge(), dimension.required, silence@),
{
    let mut last = dimension;
    if last.samples == 0 && last.status == Status::Matched {
        last.unavailable(silence);
    }
    if last.samples < last.required && last.status == Status::Matched {
        last.status = Status::Unavailable;
        let mut reason = decimal_text(last.samples as u64);
        reason.append(" of ");
        append_decimal(&mut reason, last.required as u64);
        reason.append(" required samples");
        last.reason = Some(reason);
    }
    last
}

/// Texts one after the other with commas between them.
pub open spec fn listed(texts: Seq<Seq<char>>) -> Seq<char>
    decreases texts.len(),
{
    if texts.len() == 0 {
        Seq::empty()
    } else if texts.len() == 1 {
        texts[0]
    } else {
        listed(texts.drop_last()) + ","@ + texts.last()
    }
}

/// The bound of the economics: the assessed contracts.
pub open spec fn economics_bound(inputs: Inputs) -> Seq<char> {
    listed(inputs.baseline@.map_values(|terms: ContractTerms| terms.id@))
}

/// The bound that a risk policy puts on quotes.
pub open spec fn quote_bound(risk: RiskPolicy) -> Seq<char> {
    risk.id@ + ": max_quote_age_micros="@ + signed_decimal(risk.max_quote_age_micros as int)
        + "; entry_price_units=signal.quote_price_units"@
}

/// The bound of the quotes: those of all risk policies.
pub open spec fn quotes_bound(inputs: Inputs) -> Seq<char> {
    listed(inputs.risk_policies@.map_values(|risk: RiskPolicy| quote_bound(risk)))
}

fn economics_text(inputs: &Inputs) -> (text: String)
    ensures
        text@ == economics_bound(*inputs),
{
    let ghost ids = inputs.baseline@.map_values(|terms: ContractTerms| terms.id@);
    let mut text = String::new();
    let mut i: usize = 0;
    assert(ids.take(0) =~= Seq::empty());
    while i < inputs.baseline.len()
        invariant
            i <= inputs.baseline@.len(),
            ids == inputs.baseline@.map_values(|terms: ContractTerms| terms.id@),
            text@ == listed(ids.take(i as int)),
        decreases inputs.baseline@.len() - i,
    {
        if i > 0 {
            text.append(",");
        }
        text.append(inputs.baseline[i].id.as_str());
        i = i + 1;
        assert(ids.take(i as int).drop_last() =~= ids.take(i - 1));
        assert(ids.take(i as int).last() == inputs.baseline@[i - 1].id@);
        assert(i == 1 ==> text@ =~= ids.take(1)[0]);
    }
    assert(ids.take(i as int) =~= ids);
    text
}

fn quotes_text(inputs: &Inputs) -> (text: String)
    ensures
        text@ == quotes_bound(*inputs),
{
    let ghost bounds = inputs.risk_policies@.map_values(|risk: RiskPolicy| quote_bound(risk));
    let mut text = String::new();
    let mut i: usize = 0;
    assert(bounds.take(0) =~= Seq::empty());
    while i < inputs.risk_policies.len()
        invariant
            i <= inputs.risk_policies@.len(),
            bounds == inputs.risk_policies@.map_values(|risk: RiskPolicy| quote_bound(risk)),
            text@ == listed(bounds.take(i as int)),
        decreases inputs.risk_policies@.len() - i,
    {
        if i > 0 {
            text.append(",");
        }
        let risk = &inputs.risk_policies[i];
        let mut bound = join(risk.id.as_str(), ": max_quote_age_micros=");
        append_signed(&mut bound, risk.max_quote_age_micros);
        bound.append("; entry_price_units=signal.quote_price_units");
        text.append(bound.as_str());
        i = i + 1;
        assert(bounds.take(i as int).drop_last() =~= bounds.take(i - 1));
        assert(bounds.take(i as int).last() == quote_bound(inputs.risk_policies@[i - 1]));
        assert(i == 1 ==> text@ =~= bounds.take(1)[0]);
    }
    assert(bounds.take(i as int) =~= bounds);
    text
}

/// The compatibility receipt of a deployment.
#[derive(Debug)]
pub struct Receipt {
    pub schema_version: u32,
    pub deployment: String,
    pub definition: String,
    pub bundle_sha256: String,
    pub research: String,
    pub frozen: String,
    pub certification: String,
    pub execution_contract: String,
    pub broker: String,
    pub account_class: AccountClass,
    pub required_account_class: AccountClass,
    pub instruments: Vec<String>,
    pub contracts: Vec<String>,
    pub currency: String,
    pub decision_start: String,
    pub decision_end: String,
    pub scenarios: Vec<String>,
    pub clock_basis: String,
    pub min_samples: u32,
    pub ledger: String,
    pub dimensions: Vec<Dimension>,
    pub promotion: Promotion,
}

/// The names of the dimensions, in their fixed order.
pub open spec fn dimension_names() -> Seq<&'static str> {
    seq![
        "economics_scope",
        "offer_availability_rejection",
        "quote_age_entry_price",
        "acceptance_delay",
        "contract_timing",
        "funds_release",
    ]
}

/// The bounds of the dimensions, in their fixed order.
pub open spec fn dimension_bounds(inputs: Inputs) -> Seq<Seq<char>> {
    seq![
        economics_bound(inputs),
        "every admitted command accepted at the assessed terms, no rejections"@,
        quotes_bound(inputs),
        "0 microseconds (whole-second resolution)"@,
        "expiry=entry_time+duration; exit_time=expiry; start=entry_time; exit_price=first_due_tick_price"@,
        "expiry_to_evidence=0; evidence_to_application=0; total=0 microseconds"@,
    ]
}

/// A dimension supports promotion when it is matched by enough samples.
pub open spec fn supports(dimension: Dimension) -> bool {
    dimension.status == Status::Matched && dimension.samples >= dimension.required
}

/// What speaks against promotion: every dimension without support, and a wrong account class.
pub open spec fn objections(dimensions: Seq<Dimension>, inputs: Inputs) -> Seq<Seq<char>> {
    dimensions.filter(|dimension: Dimension| !supports(dimension)).map_values(
        |dimension: Dimension| dimension.name@,
    ) + (if inputs.account_class == inputs.required_account_class {
        Seq::empty()
    } else {
        seq!["account_class"@]
    })
}

fn contract_ids(terms: &Vec<ContractTerms>) -> (ids: Vec<String>)
    ensures
        ids@ == terms@.map_values(|terms: ContractTerms| terms.id),
{
    let mut ids: Vec<String> = Vec::new();
    let mut i: usize = 0;
    while i < terms.len()
        invariant
            i <= terms@.len(),
            ids@.len() == i,
            forall|j: int| 0 <= j < i ==> #[trigger] ids@[j] == terms@[j].id,
        decreases terms@.len() - i,
    {
        ids.push(terms[i].id.clone());
        i = i + 1;
    }
    assert(ids@ =~= terms@.map_values(|terms: ContractTerms| terms.id));
    ids
}

fn promote(dimensions: &Vec<Dimension>, inputs: &Inputs) -> (promotion: Promotion)
    ensures
        views(promotion.reasons@) == objections(dimensions@, *inputs),
        promotion.eligible == (objections(dimensions@, *inputs).len() == 0),
{
    let ghost lacking = |dimension: Dimension| !supports(dimension);
    let mut reasons: Vec<String> = Vec::new();
    let mut i: usize = 0;
    assert(dimensions@.take(0).filter(lacking) =~= Seq::empty()) by {
        reveal(Seq::filter);
    }
    while i < dimensions.len()
        invariant
            i <= dimensions@.len(),
            lacking == (|dimension: Dimension| !supports(dimension)),
            views(reasons@) == dimensions@.take(i as int).filter(lacking).map_values(
                |dimension: Dimension| dimension.name@,
            ),
        decreases dimensions@.len() - i,
    {
        let dimension = &dimensions[i];
        assert(dimensions@.take(i + 1) =~= dimensions@.take(i as int).push(dimensions@[i as int]));
        proof {
            dimensions@.take(i as int).lemma_filter_push(dimensions@[i as int], lacking);
        }
        if dimension.status != Status::Matched || dimension.samples < dimension.required {
            let ghost before = reasons@;
            reasons.push(dimension.name.to_owned());
            assert(views(reasons@) =~= views(before).push(dimension.name@));
            assert(dimensions@.take(i + 1).filter(lacking).map_values(
                |dimension: Dimension| dimension.name@,
            ) =~= dimensions@.take(i as int).filter(lacking).map_values(
                |dimension: Dimension| dimension.name@,
            ).push(dimension.name@));
        }
        i = i + 1;
    }
    assert(dimensions@.take(i as int) =~= dimensions@);
    if inputs.account_class != inputs.required_account_class {
        let ghost before = reasons@;
        reasons.push("account_class".to_owned());
        assert(views(reasons@) =~= views(before).push("account_class"@));
    }
    assert(views(reasons@) =~= objections(dimensions@, *inputs));
    Promotion { eligible: reasons.len() == 0, reasons }
}

fn measure(inputs: &Inputs, economics: Dimension, offers: Dimension) -> (working: Working)
    requires
        inputs.wf(),
        economics.gauge() == Gauge::start(),
        offers.gauge() == Gauge::start(),
    ensures
        working.wf(*inputs, (inputs.events@.len() + inputs.refusals@.len()) as nat),
        working.economics.same_kind(&economics),
        working.offers.same_kind(&offers),
        working.state() == measured(*inputs),
{
    let mut working = Working { commands: Table::new(), cash: Table::new(), economics, offers };
    let mut i: usize = 0;
    while i < inputs.events.len()
        invariant
            i <= inputs.events@.len(),
            inputs.wf(),
            working.wf(*inputs, i as nat),
            working.economics.same_kind(&economics),
            working.offers.same_kind(&offers),
            working.state() == after_events(*inputs, i as nat),
        decreases inputs.events@.len() - i,
    {
        if within(inputs, inputs.events[i].time_micros) {
            working.event(inputs, i, Ghost(i as nat));
        }
        i = i + 1;
    }
    let events: usize = i;
    let mut i: usize = 0;
    while i < inputs.refusals.len()
        invariant
            i <= inputs.refusals@.len(),
            events == inputs.events@.len(),
            inputs.wf(),
            working.wf(*inputs, (events + i) as nat),
            working.economics.same_kind(&economics),
            working.offers.same_kind(&offers),
            working.state() == after_records(*inputs, i as nat),
        decreases inputs.refusals@.len() - i,
    {
        if within(inputs, inputs.refusals[i].time_micros) {
            working.record(&inputs.refusals[i], Ghost(*inputs), Ghost((events + i) as nat));
        }
        i = i + 1;
    }
    working
}

fn within(inputs: &Inputs, time: i64) -> (inside: bool)
    ensures
        inside == observed_at(*inputs, time),
{
    match (inputs.observation.start_micros, inputs.observation.end_micros) {
        (Some(start), Some(end)) => start <= time && time < end,
        _ => false,
    }
}

fn judge(inputs: &Inputs, working: &Working, judges: Judges) -> (last: Judges)
    requires
        inputs.wf(),
        working.wf(*inputs, (inputs.events@.len() + inputs.refusals@.len()) as nat),
        working.state() == measured(*inputs),
        judges.verdict() == model::no_verdict(),
    ensures
        last.same_kinds(&judges),
        last.verdict() == judged(*inputs),
{
    let mut last = judges;
    let count: usize = working.commands.len();
    let ghost keys = working.commands.keys();
    let mut i: usize = 0;
    while i < count
        invariant
            i <= count,
            count == keys.len(),
            count <= u32::MAX,
            keys == working.commands.keys(),
            inputs.wf(),
            working.wf(*inputs, (inputs.events@.len() + inputs.refusals@.len()) as nat),
            working.state() == measured(*inputs),
            forall|j: int|
                0 <= j < keys.len() ==> working.commands@.dom().contains(#[trigger] keys[j]),
            last.below(i as nat),
            last.same_kinds(&judges),
            last.verdict() == after_commands(*inputs, working.commands@, keys, i as nat),
        decreases count - i,
    {
        let (command, facts) = working.commands.at(i);
        assert(measured(*inputs).commands.dom().contains(keys[i as int]));
        last.command(inputs, command, facts, Ghost(i as nat));
        i = i + 1;
    }
    last
}

/// Whether a dimension is the one at its place, as the inputs measure it.
pub open spec fn is_dimension(dimension: Dimension, inputs: Inputs, at: int) -> bool {
    &&& dimension.name == dimension_names()[at]
    &&& dimension.bound@ == dimension_bounds(inputs)[at]
    &&& dimension.required == inputs.min_samples
    &&& dimension.gauge() == conclusion(inputs)[at]
}

/// Whether a receipt is that of some inputs.
pub open spec fn is_receipt(receipt: Receipt, inputs: Inputs) -> bool {
    &&& receipt.schema_version == RECEIPT_SCHEMA_VERSION
    &&& receipt.deployment == inputs.deployment
    &&& receipt.definition == inputs.definition
    &&& receipt.bundle_sha256 == inputs.source.bundle_sha256
    &&& receipt.research == inputs.source.research
    &&& receipt.frozen == inputs.source.frozen
    &&& receipt.certification == inputs.source.certification
    &&& receipt.execution_contract == inputs.execution_contract
    &&& receipt.broker == inputs.broker
    &&& receipt.account_class == inputs.account_class
    &&& receipt.required_account_class == inputs.required_account_class
    &&& receipt.instruments@ == inputs.instruments@
    &&& receipt.contracts@ == inputs.baseline@.map_values(|terms: ContractTerms| terms.id)
    &&& receipt.currency == inputs.currency
    &&& receipt.decision_start == inputs.observation.decision_start
    &&& receipt.decision_end == inputs.observation.decision_end
    &&& receipt.scenarios@ == inputs.scenarios@
    &&& receipt.clock_basis@ == CLOCK_BASIS@
    &&& receipt.min_samples == inputs.min_samples
    &&& receipt.ledger == inputs.ledger
    &&& receipt.dimensions@.len() == 6
    &&& forall|i: int|
        0 <= i < 6 ==> is_dimension(#[trigger] receipt.dimensions@[i], inputs, i)
    &&& views(receipt.promotion.reasons@) == objections(receipt.dimensions@, inputs)
    &&& receipt.promotion.eligible == (objections(receipt.dimensions@, inputs).len() == 0)
}

/// Computes every mandatory dimension in fixed order; missing facts never imply zero delay.
pub fn compute(inputs: &Inputs) -> (receipt: Receipt)
    requires
        inputs.wf(),
    ensures
        is_receipt(receipt, *inputs),
{
    let required: u32 = inputs.min_samples;
    let working = measure(
        inputs,
        Dimension::new("economics_scope", economics_text(inputs), required),
        Dimension::new(
            "offer_availability_rejection",
            "every admitted command accepted at the assessed terms, no rejections".to_owned(),
            required,
        ),
    );
    let judges = judge(
        inputs,
        &working,
        Judges {
            quotes: Dimension::new("quote_age_entry_price", quotes_text(inputs), required),
            delays: Dimension::new(
                "acceptance_delay",
                "0 microseconds (whole-second resolution)".to_owned(),
                required,
            ),
            timing: Dimension::new(
                "contract_timing",
                "expiry=entry_time+duration; exit_time=expiry; start=entry_time; exit_price=first_due_tick_price".to_owned(),
                required,
            ),
            release: Dimension::new(
                "funds_release",
                "expiry_to_evidence=0; evidence_to_application=0; total=0 microseconds".to_owned(),
                required,
            ),
        },
    );
    let silence: &str = "no measured samples";
    let mut dimensions: Vec<Dimension> = Vec::new();
    dimensions.push(conclude(working.economics, silence));
    dimensions.push(conclude(working.offers, "no rejection-model evidence"));
    dimensions.push(conclude(judges.quotes, silence));
    dimensions.push(conclude(judges.delays, silence));
    dimensions.push(conclude(judges.timing, silence));
    dimensions.push(conclude(judges.release, silence));
    let promotion = promote(&dimensions, inputs);
    Receipt {
        schema_version: RECEIPT_SCHEMA_VERSION,
        deployment: inputs.deployment.clone(),
        definition: inputs.definition.clone(),
        bundle_sha256: inputs.source.bundle_sha256.clone(),
        research: inputs.source.research.clone(),
        frozen: inputs.source.frozen.clone(),
        certification: inputs.source.certification.clone(),
        execution_contract: inputs.execution_contract.clone(),
        broker: inputs.broker.clone(),
        account_class: inputs.account_class,
        required_account_class: inputs.required_account_class,
        instruments: copy_texts(&inputs.instruments),
        contracts: contract_ids(&inputs.baseline),
        currency: inputs.currency.clone(),
        decision_start: inputs.observation.decision_start.clone(),
        decision_end: inputs.observation.decision_end.clone(),
        scenarios: copy_texts(&inputs.scenarios),
        clock_basis: CLOCK_BASIS.to_owned(),
        min_samples: required,
        ledger: inputs.ledger.clone(),
        dimensions,
        promotion,
    }
}

/// The key under which a serialized receipt is published: its own digest names it.
pub fn key(deployment: &str, bytes: &[u8]) -> (key: String)
    ensures
        key@ == "live/"@ + deployment@ + "/receipts/"@ + crate::digest::hex(
            crate::digest::sha256(bytes@),
        ) + ".json"@,
{
    let mut key = join3("live/", deployment, "/receipts/");
    key.append(crate::digest::digest(bytes).as_str());
    key.append(".json");
    key
}

} // verus!
