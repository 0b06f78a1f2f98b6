//! What a measurement says, event by event and command by command, in mathematical terms.

use crate::live::finance::{
    cashflow_of, same_amount, BrokerLiability, CashAction, CashFact, ContractTerms, Decimal,
    EventKind, Outcome, Resolution, Signal, Terminal,
};
use crate::live::journal::{Record, RecordKind};
use crate::live::receipt::{Binding, Gauge, Inputs, RiskPolicy, Status};
use crate::market::{clamped, later_of};
use crate::search::first_where;
use crate::table::in_order;
use crate::text::{decimal, signed_decimal, text_of};
use vstd::prelude::*;
use vstd::string::*;

verus! {

/// What is known of one command.
#[derive(Debug)]
pub struct Facts {
    /// The position of the signal among the events.
    pub signal: Option<usize>,
    /// When the last accepted or recovered purchase was made, if it names a contract.
    pub purchased_at: Option<i64>,
    pub entry_price: Option<i64>,
    pub entry: Option<i64>,
    pub start: Option<i64>,
    pub exit_price: Option<i64>,
    /// The first tick at or after expiry: its time and price.
    pub due_tick: Option<(i64, i64)>,
    pub expiry: Option<i64>,
    pub exit: Option<i64>,
    pub terminal_at: Option<i64>,
    pub cash_at: Option<i64>,
    /// When the funds were released, and the terminal and cash evidence known then.
    pub release: Option<(i64, Option<i64>, Option<i64>)>,
    pub transaction: Option<String>,
    pub contract: Option<String>,
}

/// Nothing is known.
pub open spec fn no_facts() -> Facts {
    Facts {
        signal: None,
        purchased_at: None,
        entry_price: None,
        entry: None,
        start: None,
        exit_price: None,
        due_tick: None,
        expiry: None,
        exit: None,
        terminal_at: None,
        cash_at: None,
        release: None,
        transaction: None,
        contract: None,
    }
}

impl Clone for Facts {
    fn clone(&self) -> (copy: Self)
        ensures
            copy == *self,
    {
        Facts {
            signal: self.signal,
            purchased_at: self.purchased_at,
            entry_price: self.entry_price,
            entry: self.entry,
            start: self.start,
            exit_price: self.exit_price,
            due_tick: self.due_tick,
            expiry: self.expiry,
            exit: self.exit,
            terminal_at: self.terminal_at,
            cash_at: self.cash_at,
            release: self.release,
            transaction: crate::text::copy_optional(&self.transaction),
            contract: crate::text::copy_optional(&self.contract),
        }
    }
}

impl Facts {
    /// Nothing is known.
    pub fn unknown() -> (facts: Facts)
        ensures
            facts == no_facts(),
    {
        Facts {
            signal: None,
            purchased_at: None,
            entry_price: None,
            entry: None,
            start: None,
            exit_price: None,
            due_tick: None,
            expiry: None,
            exit: None,
            terminal_at: None,
            cash_at: None,
            release: None,
            transaction: None,
            contract: None,
        }
    }
}

/// What is known of a command among all.
pub open spec fn facts_of(commands: Map<Seq<char>, Facts>, command: Seq<char>) -> Facts {
    if commands.dom().contains(command) {
        commands[command]
    } else {
        no_facts()
    }
}

/// The first value wins.
pub open spec fn or_else<T>(first: Option<T>, second: Option<T>) -> Option<T> {
    if first is Some {
        first
    } else {
        second
    }
}

/// The state of a measurement over the ledger.
pub struct Measured {
    pub commands: Map<Seq<char>, Facts>,
    /// When the cash of a transaction was first available, by account and transaction.
    pub cash: Map<Seq<char>, i64>,
    pub economics: Gauge,
    pub offers: Gauge,
}

/// Whether a moment lies in the observation window.
pub open spec fn observed_at(inputs: Inputs, time: i64) -> bool {
    &&& inputs.observation.start_micros is Some
    &&& inputs.observation.end_micros is Some
    &&& inputs.observation.start_micros->0 <= time < inputs.observation.end_micros->0
}

/// Whether a binding has this name.
pub open spec fn is_binding(id: Seq<char>) -> spec_fn(Binding) -> bool {
    |binding: Binding| binding.id@ == id
}

/// Whether terms have this name.
pub open spec fn are_terms(id: Seq<char>) -> spec_fn(ContractTerms) -> bool {
    |terms: ContractTerms| terms.id@ == id
}

/// Whether a risk policy has this name.
pub open spec fn is_risk(id: Seq<char>) -> spec_fn(RiskPolicy) -> bool {
    |risk: RiskPolicy| risk.id@ == id
}

/// The binding of a signal.
pub open spec fn binding_of(inputs: Inputs, signal: Signal) -> Option<int> {
    first_where(inputs.bindings@, is_binding(signal.binding@))
}

/// The assessed terms of a signal: those of its binding's contract.
pub open spec fn baseline_of(inputs: Inputs, signal: Signal) -> Option<int> {
    match binding_of(inputs, signal) {
        Some(at) => first_where(inputs.baseline@, are_terms(inputs.bindings@[at].contract@)),
        None => None,
    }
}

/// The risk policy of a signal's binding.
pub open spec fn risk_of(inputs: Inputs, signal: Signal) -> Option<int> {
    match binding_of(inputs, signal) {
        Some(at) => first_where(
            inputs.risk_policies@,
            is_risk(inputs.bindings@[at].risk_policy@),
        ),
        None => None,
    }
}

/// The signal that a command's facts point to.
pub open spec fn signal_of(inputs: Inputs, facts: Facts) -> Option<Signal> {
    match facts.signal {
        Some(at) => match inputs.events@[at as int].kind {
            EventKind::Signal(signal) => Some(signal),
            _ => None,
        },
        None => None,
    }
}

/// The assessed terms of a command.
pub open spec fn assessed(inputs: Inputs, facts: Facts) -> Option<ContractTerms> {
    match signal_of(inputs, facts) {
        Some(signal) => match baseline_of(inputs, signal) {
            Some(at) => Some(inputs.baseline@[at]),
            None => None,
        },
        None => None,
    }
}

/// An offer's terms differ from the assessed ones.
pub open spec fn after_offer(gauge: Gauge, inputs: Inputs, facts: Facts, command: Seq<char>) -> Gauge {
    match (signal_of(inputs, facts), assessed(inputs, facts)) {
        (Some(signal), Some(terms)) => if signal.proposal is Some
            && signal.proposal->0.economics@ != terms.economics@ {
            gauge.outside(command + ": accepted terms differ from baseline "@ + terms.id@)
        } else {
            gauge
        },
        _ => gauge,
    }
}

/// A signal was admitted under a command.
pub open spec fn after_signal(state: Measured, command: Seq<char>, at: usize) -> Measured {
    Measured {
        commands: state.commands.insert(
            command,
            Facts { signal: Some(at), ..facts_of(state.commands, command) },
        ),
        offers: state.offers.sampled(),
        ..state
    }
}

/// The broker accepted a command.
pub open spec fn after_accepted(
    state: Measured,
    inputs: Inputs,
    command: Seq<char>,
    liability: Option<BrokerLiability>,
    flagged: bool,
) -> Measured {
    let before = facts_of(state.commands, command);
    let facts = Facts {
        purchased_at: match liability {
            Some(liability) => Some(liability.purchase_time_micros),
            None => None,
        },
        contract: match liability {
            Some(liability) => Some(liability.contract_ref),
            None => before.contract,
        },
        ..before
    };
    let counted = if liability is Some {
        state.economics.sampled()
    } else {
        state.economics
    };
    let flagged = if flagged {
        counted.outside(command + ": accepted economics discrepancy or deficit"@)
    } else {
        counted
    };
    Measured {
        commands: state.commands.insert(command, facts),
        economics: if before.signal is Some {
            after_offer(flagged, inputs, before, command)
        } else {
            flagged.unavailable(command + ": missing signal baseline"@)
        },
        ..state
    }
}

/// A purchase was recovered from broker evidence.
pub open spec fn after_purchase(
    state: Measured,
    inputs: Inputs,
    command: Seq<char>,
    debit: Decimal,
    liability: BrokerLiability,
) -> Measured {
    let before = facts_of(state.commands, command);
    let facts = Facts {
        purchased_at: Some(liability.purchase_time_micros),
        contract: Some(liability.contract_ref),
        ..before
    };
    let counted = state.economics.sampled();
    Measured {
        commands: state.commands.insert(command, facts),
        economics: if before.signal is Some {
            after_offer(
                match assessed(inputs, before) {
                    Some(terms) => match terms.purchase {
                        Ok(expected) => if same_amount(debit, expected) && same_amount(
                            liability.payout,
                            terms.win.gross_return,
                        ) {
                            counted
                        } else {
                            counted.outside(
                                command
                                    + ": recovered actual debit or payout differs from baseline "@
                                    + terms.id@,
                            )
                        },
                        Err(error) => counted.unavailable(
                            command + ": recovered economics cannot be compared: "@ + error@,
                        ),
                    },
                    None => counted.unavailable(command + ": missing signal baseline"@),
                },
                inputs,
                before,
                command,
            )
        } else {
            counted.unavailable(command + ": missing signal baseline"@)
        },
        ..state
    }
}

/// The broker confirmed entry, start or expiry; the first confirmation of each stands.
pub open spec fn after_confirmed(
    state: Measured,
    command: Seq<char>,
    entry_price: Option<i64>,
    entry: Option<i64>,
    start: Option<i64>,
    expiry: Option<i64>,
) -> Measured {
    let before = facts_of(state.commands, command);
    Measured {
        commands: state.commands.insert(
            command,
            Facts {
                entry_price: or_else(before.entry_price, entry_price),
                entry: or_else(before.entry, entry),
                start: or_else(before.start, start),
                expiry: or_else(before.expiry, expiry),
                ..before
            },
        ),
        ..state
    }
}

/// The broker reported the end of a contract; evidence after the release does not count.
pub open spec fn after_terminal(
    state: Measured,
    command: Seq<char>,
    terminal: Terminal,
    available: i64,
) -> Measured {
    let before = facts_of(state.commands, command);
    Measured {
        commands: state.commands.insert(
            command,
            if before.release is None {
                Facts {
                    exit: or_else(terminal.exit_time_micros, before.exit),
                    exit_price: or_else(terminal.exit_price_units, before.exit_price),
                    terminal_at: Some(
                        match before.terminal_at {
                            Some(old) => later_of(old as int, available as int) as i64,
                            None => available,
                        },
                    ),
                    transaction: or_else(terminal.transaction_ref, before.transaction),
                    ..before
                }
            } else {
                before
            },
        ),
        ..state
    }
}

/// The key of a transaction's cash.
pub open spec fn cash_key(account: Seq<char>, transaction: Seq<char>) -> Seq<char> {
    account + ":"@ + transaction
}

/// A credit reaches the unreleased commands on its contract, unless they await another
/// transaction.
pub open spec fn credited(facts: Facts, fact: CashFact, available: i64) -> Facts {
    if text_of(facts.contract) == text_of(fact.contract_ref) && facts.release is None && (
    facts.transaction is None || facts.transaction->0@ == fact.transaction_ref@) {
        Facts { cash_at: Some(available), ..facts }
    } else {
        facts
    }
}

/// Cash of a sale was observed.
pub open spec fn after_cash(state: Measured, fact: CashFact, available: i64) -> Measured {
    let key = cash_key(fact.account@, fact.transaction_ref@);
    Measured {
        commands: state.commands.map_values(|facts: Facts| credited(facts, fact, available)),
        cash: if state.cash.dom().contains(key) {
            state.cash
        } else {
            state.cash.insert(key, available)
        },
        ..state
    }
}

/// Whether an outcome paid what its terms say.
pub open spec fn paid_as_assessed(
    terms: ContractTerms,
    outcome: Outcome,
    gross_return: Decimal,
    terminal_fee: Decimal,
) -> bool {
    same_amount(gross_return, cashflow_of(terms, outcome).gross_return) && same_amount(
        terminal_fee,
        cashflow_of(terms, outcome).terminal_fee,
    )
}

/// The first release stands.
pub open spec fn released(facts: Facts, time: i64) -> Facts {
    if facts.release is Some {
        facts
    } else {
        Facts { release: Some((time, facts.terminal_at, facts.cash_at)), ..facts }
    }
}

/// A command was settled.
pub open spec fn after_settled(
    state: Measured,
    inputs: Inputs,
    command: Seq<char>,
    outcome: Outcome,
    gross_return: Decimal,
    terminal_fee: Decimal,
    flagged: bool,
    transaction: Option<String>,
    time: i64,
) -> Measured {
    let before = facts_of(state.commands, command);
    let flagged = if flagged {
        state.economics.outside(command + ": settled economics discrepancy or deficit"@)
    } else {
        state.economics
    };
    let facts = match transaction {
        Some(id) => Facts {
            cash_at: {
                let key = cash_key(inputs.account@, id@);
                if state.cash.dom().contains(key) {
                    Some(state.cash[key])
                } else {
                    None
                }
            },
            ..before
        },
        None => before,
    };
    Measured {
        commands: state.commands.insert(command, released(facts, time)),
        economics: match assessed(inputs, before) {
            Some(terms) => if paid_as_assessed(terms, outcome, gross_return, terminal_fee) {
                flagged
            } else {
                flagged.outside(
                    command + ": settled cashflow differs from baseline "@ + terms.id@ + " "@
                        + outcome.name(),
                )
            },
            None => flagged.unavailable(command + ": missing settlement baseline"@),
        },
        ..state
    }
}

/// A command was reconciled to a settlement. An explicit zero-credit reconciliation supplies the
/// otherwise absent cash evidence; its source availability is distinct from application.
pub open spec fn after_reconciled(
    state: Measured,
    inputs: Inputs,
    command: Seq<char>,
    outcome: Outcome,
    gross_return: Decimal,
    terminal_fee: Decimal,
    available: i64,
    time: i64,
) -> Measured {
    let before = facts_of(state.commands, command);
    let facts = if gross_return.units == 0 && terminal_fee.units == 0 && before.cash_at is None {
        Facts { cash_at: Some(available), ..before }
    } else {
        before
    };
    Measured {
        commands: state.commands.insert(command, released(facts, time)),
        economics: match assessed(inputs, before) {
            Some(terms) => if paid_as_assessed(terms, outcome, gross_return, terminal_fee) {
                state.economics
            } else {
                state.economics.outside(
                    command + ": reconciled cashflow differs from baseline "@ + terms.id@ + " "@
                        + outcome.name(),
                )
            },
            None => state.economics.unavailable(command + ": missing reconciliation baseline"@),
        },
        ..state
    }
}

/// A command was closed outside the system.
pub open spec fn after_external_closure(state: Measured, command: Seq<char>, time: i64) -> Measured {
    let before = facts_of(state.commands, command);
    Measured {
        commands: state.commands.insert(command, released(before, time)),
        economics: state.economics.outside(
            command + ": external closure is outside the baseline outcome model"@,
        ),
        ..state
    }
}

/// What one event of the ledger adds.
pub open spec fn after_event(state: Measured, inputs: Inputs, at: int) -> Measured {
    let time = inputs.events@[at].time_micros;
    match inputs.events@[at].kind {
        EventKind::Signal(signal) => match signal.command {
            Some(command) => after_signal(state, command@, at as usize),
            None => state,
        },
        EventKind::Accepted { command, source, liability, discrepancy, deficit } => after_accepted(
            state,
            inputs,
            command@,
            liability,
            discrepancy || deficit is Some,
        ),
        EventKind::Confirmed {
            command,
            entry_price_units,
            entry_time_micros,
            start_micros,
            expiry_micros,
        } => after_confirmed(
            state,
            command@,
            entry_price_units,
            entry_time_micros,
            start_micros,
            expiry_micros,
        ),
        EventKind::Unresolved { command, terminal, source } => if terminal is Some && source
            is Some {
            after_terminal(state, command@, terminal->0, source->0.available_at_micros)
        } else {
            state
        },
        EventKind::CashObserved { source, fact, matched } => if fact.action == CashAction::Sell {
            after_cash(state, fact, source.available_at_micros)
        } else {
            state
        },
        EventKind::Released { command, source, rejected } => if rejected {
            Measured {
                offers: state.offers.outside(
                    command@ + ": broker rejected ("@ + source.id@ + ")"@,
                ),
                ..state
            }
        } else {
            state
        },
        EventKind::Settled {
            command,
            outcome,
            gross_return,
            terminal_fee,
            discrepancy,
            deficit,
            transaction_ref,
        } => after_settled(
            state,
            inputs,
            command@,
            outcome,
            gross_return,
            terminal_fee,
            discrepancy || deficit is Some,
            transaction_ref,
            time,
        ),
        EventKind::Reconciled { command, source, resolution, profit } => match resolution {
            Resolution::Purchased { debit, liability } => after_purchase(
                state,
                inputs,
                command@,
                debit,
                liability,
            ),
            Resolution::Settled { outcome, gross_return, terminal_fee } => if profit is Some {
                after_reconciled(
                    state,
                    inputs,
                    command@,
                    outcome,
                    gross_return,
                    terminal_fee,
                    source.available_at_micros,
                    time,
                )
            } else {
                state
            },
            Resolution::ExternallyClosed => if profit is Some {
                after_external_closure(state, command@, time)
            } else {
                state
            },
            Resolution::NotSent => state,
        },
        _ => state,
    }
}

/// The measurement after the first `count` events; events outside the window do not count.
pub open spec fn after_events(inputs: Inputs, count: nat) -> Measured
    decreases count,
{
    if count == 0 {
        Measured {
            commands: Map::empty(),
            cash: Map::empty(),
            economics: Gauge::start(),
            offers: Gauge::start(),
        }
    } else {
        let before = after_events(inputs, (count - 1) as nat);
        if observed_at(inputs, inputs.events@[count - 1].time_micros) {
            after_event(before, inputs, count - 1)
        } else {
            before
        }
    }
}

/// What one journal record adds: the first due tick of a command, or a refused offer.
pub open spec fn after_record(state: Measured, record: Record) -> Measured {
    match record.kind {
        RecordKind::DueTick { command, provider_time_micros, price_units } => {
            let before = facts_of(state.commands, command@);
            Measured {
                commands: state.commands.insert(
                    command@,
                    Facts {
                        due_tick: or_else(
                            before.due_tick,
                            Some((provider_time_micros, price_units)),
                        ),
                        ..before
                    },
                ),
                ..state
            }
        },
        RecordKind::Refused { binding, proposal, reason } => Measured {
            offers: state.offers.sampled().outside(binding@ + ": "@ + reason@),
            ..state
        },
        _ => state,
    }
}

/// The measurement after all events and the first `count` records.
pub open spec fn after_records(inputs: Inputs, count: nat) -> Measured
    decreases count,
{
    if count == 0 {
        after_events(inputs, inputs.events@.len())
    } else {
        let before = after_records(inputs, (count - 1) as nat);
        if observed_at(inputs, inputs.refusals@[count - 1].time_micros) {
            after_record(before, inputs.refusals@[count - 1])
        } else {
            before
        }
    }
}

/// What the commands say of quotes, acceptance, timing and release.
pub struct Verdict {
    pub quotes: Gauge,
    pub delays: Gauge,
    pub timing: Gauge,
    pub release: Gauge,
}

/// Nothing judged yet.
pub open spec fn no_verdict() -> Verdict {
    Verdict {
        quotes: Gauge::start(),
        delays: Gauge::start(),
        timing: Gauge::start(),
        release: Gauge::start(),
    }
}

/// The entry price must be the quoted one, and the quote must not be older than the risk policy
/// allows, nor from the future.
pub open spec fn after_quote(
    gauge: Gauge,
    command: Seq<char>,
    entry_price: Option<i64>,
    quote_price: Option<i64>,
    quote_time: Option<i64>,
    max_age: Option<i64>,
    decided: i64,
) -> Gauge {
    let counted = if entry_price is Some {
        gauge.sampled()
    } else {
        gauge
    };
    match (entry_price, quote_price, quote_time, max_age) {
        (Some(price), Some(quote), Some(time), Some(limit)) => if price == quote && 0 <= decided
            - time <= limit {
            counted
        } else {
            counted.outside(
                command + ": entry_price_units="@ + signed_decimal(price as int)
                    + ", quote_price_units="@ + signed_decimal(quote as int)
                    + ", quote_age_micros="@ + signed_decimal(clamped(decided - time)),
            )
        },
        _ => counted.unavailable(
            command + ": missing confirmed entry price or signal quote"@,
        ),
    }
}

/// The whole second of a decision.
pub open spec fn second_of(decided: int) -> int {
    decided - decided % 1_000_000
}

/// The purchase must fall in the second of the decision.
pub open spec fn after_delay(
    gauge: Gauge,
    command: Seq<char>,
    purchased_at: Option<i64>,
    decided: i64,
) -> Gauge {
    match purchased_at {
        Some(at) => {
            let delay = at - second_of(decided as int);
            if delay == 0 {
                gauge.sampled()
            } else {
                gauge.sampled().outside(
                    command + ": purchase_time_micros - decision_second = "@ + (if i64::MIN
                        <= delay <= i64::MAX {
                        signed_decimal(delay)
                    } else {
                        "overflow"@
                    }) + "; assessed 0 microseconds"@,
                )
            }
        },
        None => gauge.unavailable(command + ": missing purchase time"@),
    }
}

/// The contract must start at entry, run its duration, and exit at the first due tick.
pub open spec fn after_timing(
    gauge: Gauge,
    command: Seq<char>,
    facts: Facts,
    duration: Option<i64>,
) -> Gauge {
    let counted = if facts.entry is Some && facts.expiry is Some {
        gauge.sampled()
    } else {
        gauge
    };
    if facts.entry is Some && facts.expiry is Some && facts.exit is Some && facts.start is Some
        && facts.exit_price is Some && facts.due_tick is Some && duration is Some {
        let entry = facts.entry->0;
        let expiry = facts.expiry->0;
        let exit = facts.exit->0;
        let start = facts.start->0;
        let exit_price = facts.exit_price->0;
        let (tick_time, tick_price) = facts.due_tick->0;
        if entry + duration->0 == expiry && exit == expiry && start == entry && exit_price
            == tick_price && tick_time >= expiry {
            counted
        } else {
            counted.outside(
                command + ": entry_time="@ + signed_decimal(entry as int) + ", duration="@
                    + signed_decimal(duration->0 as int) + ", expiry="@ + signed_decimal(
                    expiry as int,
                ) + ", exit_time="@ + signed_decimal(exit as int) + ", start="@ + signed_decimal(
                    start as int,
                ) + ", exit_price="@ + signed_decimal(exit_price as int) + ", due_tick="@
                    + signed_decimal(tick_price as int) + "@"@ + signed_decimal(tick_time as int),
            )
        }
    } else {
        counted.unavailable(
            command
                + ": missing confirmed entry, start, expiry, terminal exit price/time, or due tick"@,
        )
    }
}

/// Whether a difference of two moments fits.
pub open spec fn fits(value: int) -> bool {
    i64::MIN <= value <= i64::MAX
}

/// Funds must be released at expiry: terminal and cash evidence at once, applied at once.
pub open spec fn after_release(gauge: Gauge, command: Seq<char>, facts: Facts) -> Gauge {
    match (facts.expiry, facts.release) {
        (Some(expiry), Some((application, Some(terminal), Some(cash)))) => {
            let evidence = later_of(terminal as int, cash as int);
            let first = evidence - expiry;
            let second = application - evidence;
            let total = application - expiry;
            let counted = gauge.sampled();
            if fits(first) && fits(second) && fits(total) {
                let detail = command + ": expiry_to_evidence="@ + signed_decimal(first)
                    + "; evidence_to_application="@ + signed_decimal(second) + "; total="@
                    + signed_decimal(total) + " microseconds"@;
                if first != 0 || second != 0 {
                    counted.outside(detail)
                } else {
                    counted.noted(detail)
                }
            } else {
                counted.unavailable(command + ": release clock arithmetic overflow"@)
            }
        },
        _ => gauge.unavailable(
            command
                + ": missing confirmed expiry, unresolved liability, or missing matched cash/zero-credit reconciliation"@,
        ),
    }
}

/// What one command adds; a command without a signal is not judged.
pub open spec fn after_command(
    verdict: Verdict,
    inputs: Inputs,
    command: Seq<char>,
    facts: Facts,
) -> Verdict {
    match signal_of(inputs, facts) {
        Some(signal) => {
            let decided = inputs.events@[facts.signal->0 as int].time_micros;
            Verdict {
                quotes: after_quote(
                    verdict.quotes,
                    command,
                    facts.entry_price,
                    signal.quote_price_units,
                    signal.quote_time_micros,
                    (match risk_of(inputs, signal) {
                        Some(at) => Some(inputs.risk_policies@[at].max_quote_age_micros),
                        None => None,
                    }),
                    decided,
                ),
                delays: after_delay(verdict.delays, command, facts.purchased_at, decided),
                timing: after_timing(
                    verdict.timing,
                    command,
                    facts,
                    (match assessed(inputs, facts) {
                        Some(terms) => Some(terms.duration_micros),
                        None => None,
                    }),
                ),
                release: after_release(verdict.release, command, facts),
            }
        },
        None => verdict,
    }
}

/// The verdict over the first `count` commands in byte order.
pub open spec fn after_commands(
    inputs: Inputs,
    commands: Map<Seq<char>, Facts>,
    keys: Seq<Seq<char>>,
    count: nat,
) -> Verdict
    decreases count,
{
    if count == 0 {
        no_verdict()
    } else {
        after_command(
            after_commands(inputs, commands, keys, (count - 1) as nat),
            inputs,
            keys[count - 1],
            commands[keys[count - 1]],
        )
    }
}

/// A dimension in the end: without samples it is unavailable, and it is matched only with as
/// many samples as required.
pub open spec fn concluded(gauge: Gauge, required: u32, silence: Seq<char>) -> Gauge {
    if gauge.status == Status::Matched && gauge.samples == 0 {
        gauge.unavailable(silence)
    } else if gauge.status == Status::Matched && gauge.samples < required {
        Gauge {
            status: Status::Unavailable,
            reason: Some(
                decimal(gauge.samples) + " of "@ + decimal(required as nat)
                    + " required samples"@,
            ),
            ..gauge
        }
    } else {
        gauge
    }
}

/// The measured facts of a whole input.
pub open spec fn measured(inputs: Inputs) -> Measured {
    after_records(inputs, inputs.refusals@.len())
}

/// The verdict over all commands.
pub open spec fn judged(inputs: Inputs) -> Verdict {
    let commands = measured(inputs).commands;
    after_commands(inputs, commands, in_order(commands.dom()), in_order(commands.dom()).len())
}

/// The six dimensions in the end, in their fixed order.
pub open spec fn conclusion(inputs: Inputs) -> Seq<Gauge> {
    let silence = "no measured samples"@;
    let required = inputs.min_samples;
    seq![
        concluded(measured(inputs).economics, required, silence),
        concluded(measured(inputs).offers, required, "no rejection-model evidence"@),
        concluded(judged(inputs).quotes, required, silence),
        concluded(judged(inputs).delays, required, silence),
        concluded(judged(inputs).timing, required, silence),
        concluded(judged(inputs).release, required, silence),
    ]
}

} // verus!
