//! What single events and records of a run change, and what keeps its economics and its offers
//! matched.

use crate::live::finance::{
    same_amount_in_powers, CashAction, ContractTerms, Decimal, EventKind, Outcome, Resolution,
    Signal,
};
use crate::live::journal::{Record, RecordKind};
use crate::live::receipt::model::{
    after_event, after_events, after_record, after_records, assessed, facts_of, observed_at, Facts,
    Measured,
};
use crate::live::receipt::{is_dimension, is_receipt, Inputs, Receipt, Status};
use vstd::arithmetic::power::pow;
use vstd::prelude::*;

verus! {

/// The command that an event of the ledger speaks of.
pub open spec fn command_of(kind: EventKind) -> Option<Seq<char>> {
    match kind {
        EventKind::Signal(signal) => match signal.command {
            Some(command) => Some(command@),
            None => None,
        },
        EventKind::Accepted { command, .. } => Some(command@),
        EventKind::Confirmed { command, .. } => Some(command@),
        EventKind::Unresolved { command, .. } => Some(command@),
        EventKind::Settled { command, .. } => Some(command@),
        EventKind::Reconciled { command, .. } => Some(command@),
        _ => None,
    }
}

/// An event changes only what is known of the command that it speaks of. Cash alone reaches other
/// commands, and of those it changes nothing but when their cash came.
#[verifier::rlimit(40)]
pub proof fn an_event_changes_only_its_command(
    state: Measured,
    inputs: Inputs,
    at: int,
    command: Seq<char>,
)
    requires
        command_of(inputs.events@[at].kind) != Some(command),
    ensures
        ({
            let before = facts_of(state.commands, command);
            let after = facts_of(after_event(state, inputs, at).commands, command);
            &&& inputs.events@[at].kind is CashObserved || after == before
            &&& after == (Facts { cash_at: after.cash_at, ..before })
        }),
{
}

/// What each event says of its command. A signal is remembered by its place. A purchase is known
/// by the time and the contract of its liability. The first confirmation of each fact stands. The
/// last terminal report before the release gives the exit, and its evidence counts from the latest
/// report. The first release stands, with the evidence that was known then.
#[verifier::rlimit(60)]
pub proof fn an_event_says_what_it_reports(
    state: Measured,
    inputs: Inputs,
    at: int,
    command: Seq<char>,
)
    requires
        0 <= at <= usize::MAX,
        command_of(inputs.events@[at].kind) == Some(command),
    ensures
        ({
            let before = facts_of(state.commands, command);
            let after = facts_of(after_event(state, inputs, at).commands, command);
            let time = inputs.events@[at].time_micros;
            match inputs.events@[at].kind {
                EventKind::Signal(_) => {
                    &&& after.signal == Some(at as usize)
                    &&& after == (Facts { signal: after.signal, ..before })
                },
                EventKind::Accepted { liability, .. } => {
                    &&& after == (Facts {
                        purchased_at: after.purchased_at,
                        contract: after.contract,
                        ..before
                    })
                    &&& liability is None ==> after.purchased_at is None && after.contract
                        == before.contract
                    &&& liability matches Some(bought) ==> after.purchased_at == Some(
                        bought.purchase_time_micros,
                    ) && after.contract == Some(bought.contract_ref)
                },
                EventKind::Confirmed {
                    entry_price_units,
                    entry_time_micros,
                    start_micros,
                    expiry_micros,
                    ..
                } => {
                    &&& after == (Facts {
                        entry_price: after.entry_price,
                        entry: after.entry,
                        start: after.start,
                        expiry: after.expiry,
                        ..before
                    })
                    &&& before.entry_price is Some ==> after.entry_price == before.entry_price
                    &&& before.entry_price is None ==> after.entry_price == entry_price_units
                    &&& before.entry is Some ==> after.entry == before.entry
                    &&& before.entry is None ==> after.entry == entry_time_micros
                    &&& before.start is Some ==> after.start == before.start
                    &&& before.start is None ==> after.start == start_micros
                    &&& before.expiry is Some ==> after.expiry == before.expiry
                    &&& before.expiry is None ==> after.expiry == expiry_micros
                },
                EventKind::Unresolved { terminal: Some(terminal), source: Some(source), .. } => {
                    &&& before.release is Some ==> after == before
                    &&& before.release is None ==> {
                        &&& after == (Facts {
                            exit: after.exit,
                            exit_price: after.exit_price,
                            terminal_at: after.terminal_at,
                            transaction: after.transaction,
                            ..before
                        })
                        &&& terminal.exit_time_micros is Some ==> after.exit
                            == terminal.exit_time_micros
                        &&& terminal.exit_time_micros is None ==> after.exit == before.exit
                        &&& terminal.exit_price_units is Some ==> after.exit_price
                            == terminal.exit_price_units
                        &&& terminal.exit_price_units is None ==> after.exit_price
                            == before.exit_price
                        &&& terminal.transaction_ref is Some ==> after.transaction
                            == terminal.transaction_ref
                        &&& terminal.transaction_ref is None ==> after.transaction
                            == before.transaction
                        &&& after.terminal_at matches Some(known) && known
                            >= source.available_at_micros && (before.terminal_at matches Some(
                            old,
                        ) ==> known >= old) && (known == source.available_at_micros
                            || before.terminal_at == Some(known))
                    }
                },
                EventKind::Unresolved { .. } => after == before,
                EventKind::Settled { .. } => {
                    &&& after == (Facts {
                        cash_at: after.cash_at,
                        release: after.release,
                        ..before
                    })
                    &&& before.release is Some ==> after.release == before.release
                    &&& before.release is None ==> after.release == Some(
                        (time, before.terminal_at, after.cash_at),
                    )
                },
                EventKind::Reconciled { resolution, source, profit, .. } => match resolution {
                    Resolution::Purchased { liability, .. } => {
                        &&& after == (Facts {
                            purchased_at: after.purchased_at,
                            contract: after.contract,
                            ..before
                        })
                        &&& after.purchased_at == Some(liability.purchase_time_micros)
                        &&& after.contract == Some(liability.contract_ref)
                    },
                    Resolution::Settled { gross_return, terminal_fee, .. } => if profit is Some {
                        &&& after == (Facts {
                            cash_at: after.cash_at,
                            release: after.release,
                            ..before
                        })
                        &&& after.cash_at == (if before.cash_at is None && gross_return.units == 0
                            && terminal_fee.units == 0 {
                            Some(source.available_at_micros)
                        } else {
                            before.cash_at
                        })
                        &&& before.release is Some ==> after.release == before.release
                        &&& before.release is None ==> after.release == Some(
                            (time, before.terminal_at, after.cash_at),
                        )
                    } else {
                        after == before
                    },
                    Resolution::ExternallyClosed => if profit is Some {
                        &&& after == (Facts { release: after.release, ..before })
                        &&& before.release is Some ==> after.release == before.release
                        &&& before.release is None ==> after.release == Some(
                            (time, before.terminal_at, before.cash_at),
                        )
                    } else {
                        after == before
                    },
                    Resolution::NotSent => after == before,
                },
                _ => true,
            }
        }),
{
}

/// Cash of a sale reaches the unreleased commands on its contract that await it or no transaction,
/// and no others; cash of a purchase reaches none.
pub proof fn cash_reaches_what_awaits_it(
    state: Measured,
    inputs: Inputs,
    at: int,
    command: Seq<char>,
)
    requires
        inputs.events@[at].kind is CashObserved,
        state.commands.dom().contains(command),
    ensures
        ({
            let fact = inputs.events@[at].kind->CashObserved_fact;
            let source = inputs.events@[at].kind->CashObserved_source;
            let before = state.commands[command];
            let after = after_event(state, inputs, at).commands[command];
            let same_contract = match (before.contract, fact.contract_ref) {
                (Some(a), Some(b)) => a@ == b@,
                (None, None) => true,
                _ => false,
            };
            let awaited = before.transaction matches Some(id) ==> id@ == fact.transaction_ref@;
            &&& after_event(state, inputs, at).commands.dom() == state.commands.dom()
            &&& after.cash_at == (if fact.action == CashAction::Sell && same_contract && awaited
                && before.release is None {
                Some(source.available_at_micros)
            } else {
                before.cash_at
            })
        }),
{
    assert(after_event(state, inputs, at).commands.dom() =~= state.commands.dom());
}

/// The first due tick of a command stands, and a record changes nothing else that is known.
pub proof fn the_first_due_tick_stands(state: Measured, record: Record, command: Seq<char>)
    ensures
        ({
            let before = facts_of(state.commands, command);
            let after = facts_of(after_record(state, record).commands, command);
            &&& after == (Facts { due_tick: after.due_tick, ..before })
            &&& before.due_tick is Some ==> after.due_tick == before.due_tick
            &&& before.due_tick is None ==> after.due_tick == (match record.kind {
                RecordKind::DueTick { command: due, provider_time_micros, price_units } => if due@
                    == command {
                    Some((provider_time_micros, price_units))
                } else {
                    None
                },
                _ => None,
            })
        }),
{
}

/// Whether two amounts are the same.
pub open spec fn is_amount(a: Decimal, b: Decimal) -> bool {
    a.units * pow(10, b.scale as nat) == b.units * pow(10, a.scale as nat)
}

/// Whether a contract paid what its terms say of an outcome.
pub open spec fn paid(
    terms: ContractTerms,
    outcome: Outcome,
    gross_return: Decimal,
    terminal_fee: Decimal,
) -> bool {
    match outcome {
        Outcome::Win => is_amount(gross_return, terms.win.gross_return) && is_amount(
            terminal_fee,
            terms.win.terminal_fee,
        ),
        Outcome::Loss => is_amount(gross_return, terms.loss.gross_return) && is_amount(
            terminal_fee,
            terms.loss.terminal_fee,
        ),
        Outcome::Tie => is_amount(gross_return, terms.tie.gross_return) && is_amount(
            terminal_fee,
            terms.tie.terminal_fee,
        ),
    }
}

/// Whether a signal was offered at the assessed economics, as far as both are known.
pub open spec fn offered_as_assessed(inputs: Inputs, facts: Facts) -> bool {
    (facts.signal matches Some(at) && inputs.events@[at as int].kind matches EventKind::Signal(
        signal,
    ) && signal.proposal matches Some(proposal) && assessed(inputs, facts) matches Some(terms))
        ==> inputs.events@[facts.signal->0 as int].kind->Signal_0.proposal->0.economics@ == assessed(
        inputs,
        facts,
    )->0.economics@
}

/// Whether an event leaves the economics of a run as assessed.
pub open spec fn keeps_economics(inputs: Inputs, facts: Facts, kind: EventKind) -> bool {
    match kind {
        EventKind::Accepted { discrepancy, deficit, .. } => {
            &&& !discrepancy
            &&& deficit is None
            &&& facts.signal is Some
            &&& offered_as_assessed(inputs, facts)
        },
        EventKind::Settled { outcome, gross_return, terminal_fee, discrepancy, deficit, .. } => {
            &&& !discrepancy
            &&& deficit is None
            &&& assessed(inputs, facts) matches Some(terms) && paid(
                terms,
                outcome,
                gross_return,
                terminal_fee,
            )
        },
        EventKind::Reconciled { resolution, profit, .. } => match resolution {
            Resolution::Purchased { debit, liability } => {
                &&& facts.signal is Some
                &&& offered_as_assessed(inputs, facts)
                &&& assessed(inputs, facts) matches Some(terms) && terms.purchase matches Ok(
                    expected,
                ) && is_amount(debit, expected) && is_amount(
                    liability.payout,
                    terms.win.gross_return,
                )
            },
            Resolution::Settled { outcome, gross_return, terminal_fee } => profit is Some ==> (
            assessed(inputs, facts) matches Some(terms) && paid(
                terms,
                outcome,
                gross_return,
                terminal_fee,
            )),
            Resolution::ExternallyClosed => profit is None,
            Resolution::NotSent => true,
        },
        _ => true,
    }
}

/// Whether an event is a purchase, accepted or recovered.
pub open spec fn is_purchase(kind: EventKind) -> bool {
    match kind {
        EventKind::Accepted { liability, .. } => liability is Some,
        EventKind::Reconciled { resolution, .. } => resolution is Purchased,
        _ => false,
    }
}

/// Which events are purchases.
pub open spec fn purchases() -> spec_fn(EventKind) -> bool {
    |kind: EventKind| is_purchase(kind)
}

/// Which events admit a command.
pub open spec fn admissions() -> spec_fn(EventKind) -> bool {
    |kind: EventKind| is_admission(kind)
}

/// How many observed events among the first `count` meet a condition.
pub open spec fn observed_among(
    inputs: Inputs,
    count: nat,
    wanted: spec_fn(EventKind) -> bool,
) -> nat
    decreases count,
{
    if count == 0 {
        0
    } else {
        observed_among(inputs, (count - 1) as nat, wanted) + (if observed_at(
            inputs,
            inputs.events@[count - 1].time_micros,
        ) && wanted(inputs.events@[count - 1].kind) {
            1nat
        } else {
            0nat
        })
    }
}

/// Whether an event admits a command.
pub open spec fn is_admission(kind: EventKind) -> bool {
    kind matches EventKind::Signal(signal) && signal.command is Some
}

/// Whether an event reports that the broker rejected a command.
pub open spec fn is_rejection(kind: EventKind) -> bool {
    kind matches EventKind::Released { rejected, .. } && rejected
}

#[verifier::rlimit(60)]
proof fn one_more_event(state: Measured, inputs: Inputs, at: int)
    ensures
        ({
            let kind = inputs.events@[at].kind;
            let after = after_event(state, inputs, at);
            let command = match command_of(kind) {
                Some(command) => command,
                None => Seq::empty(),
            };
            let facts = facts_of(state.commands, command);
            &&& after.economics.status == Status::Matched <==> state.economics.status
                == Status::Matched && keeps_economics(inputs, facts, kind)
            &&& after.economics.samples == state.economics.samples + (if is_purchase(kind) {
                1nat
            } else {
                0nat
            })
            &&& after.offers.status == Status::Matched <==> state.offers.status == Status::Matched
                && !is_rejection(kind)
            &&& after.offers.samples == state.offers.samples + (if is_admission(kind) {
                1nat
            } else {
                0nat
            })
        }),
{
    match inputs.events@[at].kind {
        EventKind::Settled { command, outcome, gross_return, terminal_fee, .. } => {
            let facts = facts_of(state.commands, command@);
            if let Some(terms) = assessed(inputs, facts) {
                amounts_agree(terms, outcome, gross_return, terminal_fee);
            }
        },
        EventKind::Reconciled { command, resolution, .. } => {
            let facts = facts_of(state.commands, command@);
            if let Some(terms) = assessed(inputs, facts) {
                match resolution {
                    Resolution::Settled { outcome, gross_return, terminal_fee } => {
                        amounts_agree(terms, outcome, gross_return, terminal_fee);
                    },
                    Resolution::Purchased { debit, liability } => {
                        if let Ok(expected) = terms.purchase {
                            same_amount_in_powers(debit, expected);
                        }
                        same_amount_in_powers(liability.payout, terms.win.gross_return);
                    },
                    _ => {},
                }
            }
        },
        _ => {},
    }
}

proof fn amounts_agree(
    terms: ContractTerms,
    outcome: Outcome,
    gross_return: Decimal,
    terminal_fee: Decimal,
)
    ensures
        crate::live::receipt::model::paid_as_assessed(terms, outcome, gross_return, terminal_fee)
            <==> paid(terms, outcome, gross_return, terminal_fee),
{
    same_amount_in_powers(gross_return, terms.win.gross_return);
    same_amount_in_powers(gross_return, terms.loss.gross_return);
    same_amount_in_powers(gross_return, terms.tie.gross_return);
    same_amount_in_powers(terminal_fee, terms.win.terminal_fee);
    same_amount_in_powers(terminal_fee, terms.loss.terminal_fee);
    same_amount_in_powers(terminal_fee, terms.tie.terminal_fee);
}

/// What was known of the command of an event when it came.
pub open spec fn known_at(inputs: Inputs, i: int) -> Facts {
    facts_of(
        after_events(inputs, i as nat).commands,
        match command_of(inputs.events@[i].kind) {
            Some(command) => command,
            None => Seq::empty(),
        },
    )
}

proof fn all_events(inputs: Inputs, count: nat)
    requires
        count <= inputs.events@.len(),
    ensures
        ({
            let state = after_events(inputs, count);
            &&& state.economics.status == Status::Matched <==> forall|i: int|
                0 <= i < count && observed_at(inputs, (#[trigger] inputs.events@[i]).time_micros)
                    ==> keeps_economics(inputs, known_at(inputs, i), inputs.events@[i].kind)
            &&& state.economics.samples == observed_among(
                inputs,
                count,
                purchases(),
            )
            &&& state.offers.status == Status::Matched <==> forall|i: int|
                0 <= i < count && observed_at(inputs, (#[trigger] inputs.events@[i]).time_micros)
                    ==> !is_rejection(inputs.events@[i].kind)
            &&& state.offers.samples == observed_among(
                inputs,
                count,
                admissions(),
            )
        }),
    decreases count,
{
    if count > 0 {
        all_events(inputs, (count - 1) as nat);
        let last = inputs.events@[count - 1];
        one_more_event(after_events(inputs, (count - 1) as nat), inputs, count - 1);
        assert(known_at(inputs, count - 1) == facts_of(
            after_events(inputs, (count - 1) as nat).commands,
            match command_of(last.kind) {
                Some(command) => command,
                None => Seq::empty(),
            },
        ));
    }
}

/// How many refused offers among the first `count` records were observed.
pub open spec fn refused_among(inputs: Inputs, count: nat) -> nat
    decreases count,
{
    if count == 0 {
        0
    } else {
        refused_among(inputs, (count - 1) as nat) + (if observed_at(
            inputs,
            inputs.refusals@[count - 1].time_micros,
        ) && inputs.refusals@[count - 1].kind is Refused {
            1nat
        } else {
            0nat
        })
    }
}

proof fn all_records(inputs: Inputs, count: nat)
    requires
        count <= inputs.refusals@.len(),
    ensures
        ({
            let start = after_events(inputs, inputs.events@.len());
            let state = after_records(inputs, count);
            &&& state.economics == start.economics
            &&& state.offers.status == Status::Matched <==> start.offers.status == Status::Matched
                && refused_among(inputs, count) == 0
            &&& state.offers.samples == start.offers.samples + refused_among(inputs, count)
        }),
    decreases count,
{
    if count > 0 {
        all_records(inputs, (count - 1) as nat);
    }
}

/// The economics of a run are matched exactly when there were enough purchases, one at least, and
/// every observed event left them as assessed: no discrepancy and no deficit, every purchase of a
/// known signal at the assessed economics, every settlement paid as the terms say of its outcome,
/// and nothing closed from outside. The offers are matched exactly when enough commands were
/// admitted, one at least, the broker rejected none, and none was refused.
pub proof fn economics_and_offers_rest_on_every_event(inputs: Inputs, receipt: Receipt)
    requires
        is_receipt(receipt, inputs),
    ensures
        ({
            let purchases = observed_among(inputs, inputs.events@.len(), purchases());
            let admissions = observed_among(inputs, inputs.events@.len(), admissions());
            &&& receipt.dimensions@[0].status == Status::Matched <==> purchases >= 1 && purchases
                >= inputs.min_samples && forall|i: int|
                0 <= i < inputs.events@.len() && observed_at(
                    inputs,
                    (#[trigger] inputs.events@[i]).time_micros,
                ) ==> keeps_economics(inputs, known_at(inputs, i), inputs.events@[i].kind)
            &&& receipt.dimensions@[1].status == Status::Matched <==> admissions >= 1
                && admissions >= inputs.min_samples && refused_among(
                inputs,
                inputs.refusals@.len(),
            ) == 0 && forall|i: int|
                0 <= i < inputs.events@.len() && observed_at(
                    inputs,
                    (#[trigger] inputs.events@[i]).time_micros,
                ) ==> !is_rejection(inputs.events@[i].kind)
        }),
{
    all_events(inputs, inputs.events@.len());
    all_records(inputs, inputs.refusals@.len());
    first_dimensions(inputs, receipt);
}

proof fn first_dimensions(inputs: Inputs, receipt: Receipt)
    requires
        is_receipt(receipt, inputs),
    ensures
        ({
            let state = after_records(inputs, inputs.refusals@.len());
            &&& receipt.dimensions@[0].status == Status::Matched <==> state.economics.status
                == Status::Matched && state.economics.samples >= 1 && state.economics.samples
                >= inputs.min_samples
            &&& receipt.dimensions@[1].status == Status::Matched <==> state.offers.status
                == Status::Matched && state.offers.samples >= 1 && state.offers.samples
                >= inputs.min_samples
        }),
{
    assert(is_dimension(receipt.dimensions@[0], inputs, 0));
    assert(is_dimension(receipt.dimensions@[1], inputs, 1));
}

} // verus!
