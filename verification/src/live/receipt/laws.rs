//! What holds of every measurement.

use crate::live::finance::{CashFact, EventKind, FinancialEvent, Resolution};
use crate::live::journal::{Record, RecordKind};
use crate::live::receipt::model::{
    after_command, after_commands, after_event, after_events, after_record, after_records,
    assessed, concluded, conclusion, credited, facts_of, measured, observed_at, risk_of, second_of,
    signal_of, Facts, Measured,
};
use crate::live::receipt::{
    dated, dimension_bounds, is_dimension, is_receipt, objections, supports, Dimension, Gauge, Inputs,
    Receipt, Status,
};
use crate::table::{every_finite_set_is_listed, in_order};
use vstd::prelude::*;

verus! {

/// A gauge never returns to a better status: what left the envelope stays outside, and what is
/// not matched never becomes matched.
pub open spec fn no_better(before: Gauge, after: Gauge) -> bool {
    &&& before.status == Status::OutsideEnvelope ==> after.status == Status::OutsideEnvelope
    &&& before.status != Status::Matched ==> after.status != Status::Matched
    &&& after.samples >= before.samples
}

/// No event of the ledger improves what was measured before it.
pub proof fn events_never_improve(state: Measured, inputs: Inputs, at: int)
    ensures
        no_better(state.economics, after_event(state, inputs, at).economics),
        no_better(state.offers, after_event(state, inputs, at).offers),
{
}

/// A fact outside the envelope is never downgraded by later events or records.
pub proof fn outside_is_final(inputs: Inputs, earlier: nat, later: nat)
    requires
        earlier <= later,
    ensures
        no_better(
            after_events(inputs, earlier).economics,
            after_events(inputs, later).economics,
        ),
        no_better(after_events(inputs, earlier).offers, after_events(inputs, later).offers),
    decreases later,
{
    if earlier < later {
        outside_is_final(inputs, earlier, (later - 1) as nat);
        events_never_improve(
            after_events(inputs, (later - 1) as nat),
            inputs,
            later - 1,
        );
    }
}

/// Journal records never improve what the ledger measured.
pub proof fn records_never_improve(inputs: Inputs, count: nat)
    ensures
        no_better(
            after_events(inputs, inputs.events@.len()).economics,
            after_records(inputs, count).economics,
        ),
        no_better(
            after_events(inputs, inputs.events@.len()).offers,
            after_records(inputs, count).offers,
        ),
    decreases count,
{
    if count > 0 {
        records_never_improve(inputs, (count - 1) as nat);
    }
}

proof fn commands_never_improve(
    inputs: Inputs,
    commands: Map<Seq<char>, Facts>,
    keys: Seq<Seq<char>>,
    earlier: nat,
    later: nat,
)
    requires
        earlier <= later,
    ensures
        ({
            let before = after_commands(inputs, commands, keys, earlier);
            let after = after_commands(inputs, commands, keys, later);
            &&& no_better(before.quotes, after.quotes)
            &&& no_better(before.delays, after.delays)
            &&& no_better(before.timing, after.timing)
            &&& no_better(before.release, after.release)
        }),
    decreases later,
{
    if earlier < later {
        commands_never_improve(inputs, commands, keys, earlier, (later - 1) as nat);
    }
}

proof fn events_stay_finite(inputs: Inputs, count: nat)
    ensures
        after_events(inputs, count).commands.dom().finite(),
    decreases count,
{
    if count > 0 {
        let before = after_events(inputs, (count - 1) as nat);
        events_stay_finite(inputs, (count - 1) as nat);
        if let EventKind::CashObserved { source, fact, matched } = inputs.events@[count - 1].kind {
            let mapped = before.commands.map_values(
                |facts: Facts| credited(facts, fact, source.available_at_micros),
            );
            assert(mapped.dom() =~= before.commands.dom());
        }
    }
}

proof fn records_stay_finite(inputs: Inputs, count: nat)
    ensures
        after_records(inputs, count).commands.dom().finite(),
    decreases count,
{
    if count > 0 {
        records_stay_finite(inputs, (count - 1) as nat);
    } else {
        events_stay_finite(inputs, inputs.events@.len());
    }
}

/// Only finitely many commands are measured.
pub proof fn after_commands_stay_finite(inputs: Inputs)
    ensures
        measured(inputs).commands.dom().finite(),
{
    records_stay_finite(inputs, inputs.refusals@.len());
}

/// Missing facts never imply zero delay: one judged command without a confirmed purchase,
/// timing or release keeps the dimension from ever being matched.
pub proof fn missing_facts_never_match(inputs: Inputs, command: Seq<char>)
    requires
        measured(inputs).commands.dom().contains(command),
        signal_of(inputs, measured(inputs).commands[command]) is Some,
    ensures
        ({
            let facts = measured(inputs).commands[command];
            &&& facts.entry_price is None ==> conclusion(inputs)[2].status != Status::Matched
            &&& facts.purchased_at is None ==> conclusion(inputs)[3].status != Status::Matched
            &&& facts.entry is None || facts.expiry is None || facts.exit is None || facts.start
                is None || facts.exit_price is None || facts.due_tick is None
                ==> conclusion(inputs)[4].status != Status::Matched
            &&& facts.expiry is None || facts.release is None
                ==> conclusion(inputs)[5].status != Status::Matched
        }),
{
    let commands = measured(inputs).commands;
    let keys = in_order(commands.dom());
    records_stay_finite(inputs, inputs.refusals@.len());
    every_finite_set_is_listed(commands.dom());
    assert(keys.to_set().contains(command));
    let at = choose|at: int| 0 <= at < keys.len() && keys[at] == command;
    let before = after_commands(inputs, commands, keys, at as nat);
    let after = after_commands(inputs, commands, keys, (at + 1) as nat);
    assert(after == after_command(before, inputs, command, commands[command]));
    commands_never_improve(inputs, commands, keys, (at + 1) as nat, keys.len());
}

/// A dimension is matched in the end only by at least one sample and at least as many samples
/// as required.
pub proof fn matched_needs_samples(gauge: Gauge, required: u32, silence: Seq<char>)
    ensures
        concluded(gauge, required, silence).status == Status::Matched ==> gauge.status
            == Status::Matched && gauge.samples >= 1 && gauge.samples >= required,
        gauge.status == Status::OutsideEnvelope ==> concluded(gauge, required, silence).status
            == Status::OutsideEnvelope,
{
}

/// A deployment is eligible exactly when every dimension is matched by enough samples and the
/// account has the required class.
pub proof fn eligible_means_every_dimension(dimensions: Seq<Dimension>, inputs: Inputs)
    ensures
        objections(dimensions, inputs).len() == 0 <==> (inputs.account_class
            == inputs.required_account_class && forall|i: int|
            0 <= i < dimensions.len() ==> supports(#[trigger] dimensions[i])),
{
    let lacking = |dimension: Dimension| !supports(dimension);
    let found = dimensions.filter(lacking);
    if found.len() > 0 {
        let one = found[0];
        dimensions.lemma_filter_contains_rev(lacking, one);
        dimensions.lemma_filter_pred(lacking, 0);
        let i = choose|i: int| 0 <= i < dimensions.len() && dimensions[i] == one;
        assert(!supports(dimensions[i]));
    } else {
        assert forall|i: int| 0 <= i < dimensions.len() implies supports(
            #[trigger] dimensions[i],
        ) by {
            if !supports(dimensions[i]) {
                dimensions.lemma_filter_contains(lacking, i);
                assert(found.contains(dimensions[i]));
            }
        }
    }
}

/// Which moments lie in the observation window of some inputs, of events.
pub open spec fn in_window(inputs: Inputs) -> spec_fn(FinancialEvent) -> bool {
    |event: FinancialEvent| observed_at(inputs, event.time_micros)
}

/// Which moments lie in the observation window of some inputs, of records.
pub open spec fn recorded_in_window(inputs: Inputs) -> spec_fn(Record) -> bool {
    |record: Record| observed_at(inputs, record.time_micros)
}

/// Whether inputs are others without the events and records outside the observation window.
pub open spec fn is_windowed(inputs: Inputs, windowed: Inputs) -> bool {
    &&& windowed == (Inputs { events: windowed.events, refusals: windowed.refusals, ..inputs })
    &&& windowed.events@ == inputs.events@.filter(in_window(inputs))
    &&& windowed.refusals@ == inputs.refusals@.filter(recorded_in_window(inputs))
}

/// Whether the same is known of a command: its signal may stand at another place among the
/// events, but is the same.
spec fn same_facts(a: Inputs, b: Inputs, f: Facts, g: Facts) -> bool {
    &&& g == (Facts { signal: g.signal, ..f })
    &&& match (f.signal, g.signal) {
        (Some(i), Some(j)) => a.events@[i as int] == b.events@[j as int],
        (None, None) => true,
        _ => false,
    }
}

spec fn same_commands(
    a: Inputs,
    b: Inputs,
    f: Map<Seq<char>, Facts>,
    g: Map<Seq<char>, Facts>,
) -> bool {
    &&& f.dom() == g.dom()
    &&& forall|command: Seq<char>| #[trigger]
        f.dom().contains(command) ==> same_facts(a, b, f[command], g[command])
}

#[verifier::opaque]
spec fn same_measure(a: Inputs, b: Inputs, s: Measured, t: Measured) -> bool {
    &&& same_commands(a, b, s.commands, t.commands)
    &&& s.cash == t.cash
    &&& s.economics == t.economics
    &&& s.offers == t.offers
}

proof fn same_signal(a: Inputs, b: Inputs, f: Facts, g: Facts)
    requires
        is_windowed(a, b),
        same_facts(a, b, f, g),
    ensures
        signal_of(a, f) == signal_of(b, g),
        assessed(a, f) == assessed(b, g),
        signal_of(a, f) matches Some(signal) ==> risk_of(a, signal) == risk_of(b, signal),
{
}

proof fn same_place(
    a: Inputs,
    b: Inputs,
    f: Map<Seq<char>, Facts>,
    g: Map<Seq<char>, Facts>,
    command: Seq<char>,
)
    requires
        same_commands(a, b, f, g),
    ensures
        same_facts(a, b, facts_of(f, command), facts_of(g, command)),
{
    if f.dom().contains(command) {
        assert(g.dom().contains(command));
    }
}

proof fn same_after_insert(
    a: Inputs,
    b: Inputs,
    f: Map<Seq<char>, Facts>,
    g: Map<Seq<char>, Facts>,
    command: Seq<char>,
    x: Facts,
    y: Facts,
)
    requires
        same_commands(a, b, f, g),
        same_facts(a, b, x, y),
    ensures
        same_commands(a, b, f.insert(command, x), g.insert(command, y)),
{
    assert(f.insert(command, x).dom() =~= g.insert(command, y).dom());
}

proof fn same_after_credit(
    a: Inputs,
    b: Inputs,
    f: Map<Seq<char>, Facts>,
    g: Map<Seq<char>, Facts>,
    fact: CashFact,
    available: i64,
)
    requires
        same_commands(a, b, f, g),
    ensures
        same_commands(
            a,
            b,
            f.map_values(|facts: Facts| credited(facts, fact, available)),
            g.map_values(|facts: Facts| credited(facts, fact, available)),
        ),
{
    let x = f.map_values(|facts: Facts| credited(facts, fact, available));
    let y = g.map_values(|facts: Facts| credited(facts, fact, available));
    assert(x.dom() =~= f.dom());
    assert(y.dom() =~= g.dom());
    assert forall|command: Seq<char>| #[trigger] x.dom().contains(command) implies same_facts(
        a,
        b,
        x[command],
        y[command],
    ) by {
        assert(f.dom().contains(command));
        assert(same_facts(a, b, f[command], g[command]));
    }
}

proof fn same_after_event(a: Inputs, b: Inputs, s: Measured, t: Measured, i: int, j: int)
    requires
        is_windowed(a, b),
        same_measure(a, b, s, t),
        0 <= i < a.events@.len(),
        0 <= j < b.events@.len(),
        a.events@[i] == b.events@[j],
    ensures
        same_measure(a, b, after_event(s, a, i), after_event(t, b, j)),
{
    reveal(same_measure);
    let f = s.commands;
    let g = t.commands;
    let x = after_event(s, a, i).commands;
    let y = after_event(t, b, j).commands;
    match a.events@[i].kind {
        EventKind::Signal(signal) => {
            if let Some(command) = signal.command {
                assert(a.events@.len() == a.events.len() && b.events@.len() == b.events.len());
                same_place(a, b, f, g, command@);
                same_after_insert(a, b, f, g, command@, x[command@], y[command@]);
            }
        },
        EventKind::Accepted { command, source, liability, discrepancy, deficit } => {
            same_place(a, b, f, g, command@);
            same_signal(a, b, facts_of(f, command@), facts_of(g, command@));
            same_after_insert(a, b, f, g, command@, x[command@], y[command@]);
        },
        EventKind::Confirmed {
            command,
            entry_price_units,
            entry_time_micros,
            start_micros,
            expiry_micros,
        } => {
            same_place(a, b, f, g, command@);
            same_after_insert(a, b, f, g, command@, x[command@], y[command@]);
        },
        EventKind::Unresolved { command, terminal, source } => {
            if terminal is Some && source is Some {
                same_place(a, b, f, g, command@);
                same_after_insert(a, b, f, g, command@, x[command@], y[command@]);
            }
        },
        EventKind::CashObserved { source, fact, matched } => {
            same_after_credit(a, b, f, g, fact, source.available_at_micros);
        },
        EventKind::Settled {
            command,
            outcome,
            gross_return,
            terminal_fee,
            discrepancy,
            deficit,
            transaction_ref,
        } => {
            same_place(a, b, f, g, command@);
            same_signal(a, b, facts_of(f, command@), facts_of(g, command@));
            same_after_insert(a, b, f, g, command@, x[command@], y[command@]);
        },
        EventKind::Reconciled { command, source, resolution, profit } => {
            same_place(a, b, f, g, command@);
            same_signal(a, b, facts_of(f, command@), facts_of(g, command@));
            match resolution {
                Resolution::Purchased { debit, liability } => {
                    same_after_insert(a, b, f, g, command@, x[command@], y[command@]);
                },
                Resolution::Settled { outcome, gross_return, terminal_fee } => {
                    if profit is Some {
                        same_after_insert(a, b, f, g, command@, x[command@], y[command@]);
                    }
                },
                Resolution::ExternallyClosed => {
                    if profit is Some {
                        same_after_insert(a, b, f, g, command@, x[command@], y[command@]);
                    }
                },
                Resolution::NotSent => {},
            }
        },
        _ => {},
    }
}

/// What a filter keeps of a beginning is the beginning of what it keeps, with the next element
/// behind it where that is wanted.
proof fn filter_of_a_beginning<T>(s: Seq<T>, wanted: spec_fn(T) -> bool, count: nat)
    requires
        count <= s.len(),
    ensures
        ({
            let kept = s.take(count as int).filter(wanted);
            &&& kept.len() <= s.filter(wanted).len()
            &&& s.filter(wanted).take(kept.len() as int) == kept
            &&& count == 0 ==> kept.len() == 0
            &&& count > 0 ==> kept == if wanted(s[count - 1]) {
                s.take(count - 1).filter(wanted).push(s[count - 1])
            } else {
                s.take(count - 1).filter(wanted)
            }
        }),
{
    let begun = s.take(count as int);
    let rest = s.skip(count as int);
    assert(s =~= begun + rest);
    Seq::filter_distributes_over_add(begun, rest, wanted);
    assert(s.filter(wanted).take(begun.filter(wanted).len() as int) =~= begun.filter(wanted));
    if count == 0 {
        begun.lemma_filter_len(wanted);
    } else {
        assert(begun =~= s.take(count - 1).push(s[count - 1]));
        Seq::lemma_filter_push(s.take(count - 1), s[count - 1], wanted);
    }
}

proof fn same_after_events(a: Inputs, b: Inputs, count: nat)
    requires
        is_windowed(a, b),
        count <= a.events@.len(),
    ensures
        ({
            let kept = a.events@.take(count as int).filter(in_window(a));
            &&& kept.len() <= b.events@.len()
            &&& b.events@.take(kept.len() as int) == kept
            &&& same_measure(a, b, after_events(a, count), after_events(b, kept.len()))
        }),
    decreases count,
{
    let wanted = in_window(a);
    filter_of_a_beginning(a.events@, wanted, count);
    if count == 0 {
        reveal(same_measure);
    } else {
        let at = count - 1;
        same_after_events(a, b, at as nat);
        let before = a.events@.take(at).filter(wanted);
        if wanted(a.events@[at]) {
            assert(b.events@[before.len() as int] == a.events@[at]) by {
                assert(b.events@.take(before.len() as int + 1)[before.len() as int]
                    == a.events@[at]);
            }
            same_after_event(
                a,
                b,
                after_events(a, at as nat),
                after_events(b, before.len()),
                at,
                before.len() as int,
            );
        }
    }
}

proof fn same_after_record(a: Inputs, b: Inputs, s: Measured, t: Measured, record: Record)
    requires
        same_measure(a, b, s, t),
    ensures
        same_measure(a, b, after_record(s, record), after_record(t, record)),
{
    reveal(same_measure);
    if let RecordKind::DueTick { command, provider_time_micros, price_units } = record.kind {
        let x = after_record(s, record).commands[command@];
        let y = after_record(t, record).commands[command@];
        same_place(a, b, s.commands, t.commands, command@);
        same_after_insert(a, b, s.commands, t.commands, command@, x, y);
    }
}

proof fn same_after_records(a: Inputs, b: Inputs, count: nat)
    requires
        is_windowed(a, b),
        count <= a.refusals@.len(),
    ensures
        ({
            let kept = a.refusals@.take(count as int).filter(recorded_in_window(a));
            &&& kept.len() <= b.refusals@.len()
            &&& b.refusals@.take(kept.len() as int) == kept
            &&& same_measure(a, b, after_records(a, count), after_records(b, kept.len()))
        }),
    decreases count,
{
    let wanted = recorded_in_window(a);
    filter_of_a_beginning(a.refusals@, wanted, count);
    if count == 0 {
        same_after_events(a, b, a.events@.len());
        assert(a.events@.take(a.events@.len() as int) =~= a.events@);
    } else {
        let at = count - 1;
        same_after_records(a, b, at as nat);
        let before = a.refusals@.take(at).filter(wanted);
        if wanted(a.refusals@[at]) {
            assert(b.refusals@[before.len() as int] == a.refusals@[at]) by {
                assert(b.refusals@.take(before.len() as int + 1)[before.len() as int]
                    == a.refusals@[at]);
            }
            same_after_record(
                a,
                b,
                after_records(a, at as nat),
                after_records(b, before.len()),
                a.refusals@[at],
            );
        }
    }
}

proof fn same_verdicts(
    a: Inputs,
    b: Inputs,
    f: Map<Seq<char>, Facts>,
    g: Map<Seq<char>, Facts>,
    keys: Seq<Seq<char>>,
    count: nat,
)
    requires
        is_windowed(a, b),
        same_commands(a, b, f, g),
        count <= keys.len(),
        forall|i: int| 0 <= i < keys.len() ==> f.dom().contains(#[trigger] keys[i]),
    ensures
        after_commands(a, f, keys, count) == after_commands(b, g, keys, count),
    decreases count,
{
    if count > 0 {
        same_verdicts(a, b, f, g, keys, (count - 1) as nat);
        let command = keys[count - 1];
        assert(f.dom().contains(command));
        same_signal(a, b, f[command], g[command]);
    }
}

/// What lies outside the observation window has no influence: inputs without the events and
/// records outside their window have the very receipts that they have with them.
pub proof fn nothing_outside_the_window_counts(inputs: Inputs, windowed: Inputs, receipt: Receipt)
    requires
        is_windowed(inputs, windowed),
    ensures
        conclusion(inputs) == conclusion(windowed),
        is_receipt(receipt, inputs) == is_receipt(receipt, windowed),
{
    same_after_records(inputs, windowed, inputs.refusals@.len());
    assert(inputs.refusals@.take(inputs.refusals@.len() as int) =~= inputs.refusals@);
    reveal(same_measure);
    let f = measured(inputs).commands;
    let g = measured(windowed).commands;
    records_stay_finite(inputs, inputs.refusals@.len());
    every_finite_set_is_listed(f.dom());
    let keys = in_order(f.dom());
    assert forall|i: int| 0 <= i < keys.len() implies f.dom().contains(#[trigger] keys[i]) by {
        assert(keys.contains(keys[i]));
        assert(keys.to_set().contains(keys[i]));
    }
    same_verdicts(inputs, windowed, f, g, keys, keys.len());
    assert(conclusion(inputs) =~= conclusion(windowed));
    assert(dimension_bounds(inputs) =~= dimension_bounds(windowed));
    assert(objections(receipt.dimensions@, inputs) =~= objections(receipt.dimensions@, windowed));
    assert(forall|i: int|
        0 <= i < 6 ==> is_dimension(#[trigger] receipt.dimensions@[i], inputs, i) == is_dimension(
            receipt.dimensions@[i],
            windowed,
            i,
        ));
}

/// Facts point to a signal with a command among the first `count` events.
spec fn points_to_signal(inputs: Inputs, facts: Facts, count: nat) -> bool {
    facts.signal matches Some(at) ==> at < count && (inputs.events@[at as int].kind matches
        EventKind::Signal(signal) && signal.command is Some)
}

#[verifier::rlimit(40)]
proof fn only_signals_are_pointed_to(state: Measured, inputs: Inputs, at: int, command: Seq<char>)
    ensures
        after_event(state, inputs, at).commands.dom().contains(command) ==> ({
            let signal = after_event(state, inputs, at).commands[command].signal;
            ||| signal == facts_of(state.commands, command).signal
            ||| signal == Some(at as usize) && (inputs.events@[at].kind matches EventKind::Signal(
                signal,
            ) && signal.command is Some)
        }),
{
}

proof fn facts_point_to_signals(inputs: Inputs, count: nat)
    requires
        count <= inputs.events@.len() <= u32::MAX,
    ensures
        forall|command: Seq<char>| #[trigger]
            after_events(inputs, count).commands.dom().contains(command) ==> points_to_signal(
                inputs,
                after_events(inputs, count).commands[command],
                count,
            ),
    decreases count,
{
    if count > 0 {
        facts_point_to_signals(inputs, (count - 1) as nat);
        let before = after_events(inputs, (count - 1) as nat);
        assert forall|command: Seq<char>| #[trigger]
            after_events(inputs, count).commands.dom().contains(command) implies points_to_signal(
            inputs,
            after_events(inputs, count).commands[command],
            count,
        ) by {
            only_signals_are_pointed_to(before, inputs, count - 1, command);
            if before.commands.dom().contains(command) {
                assert(points_to_signal(inputs, before.commands[command], (count - 1) as nat));
            }
        }
    }
}

proof fn recorded_facts_point_to_signals(inputs: Inputs, count: nat)
    requires
        count <= inputs.refusals@.len(),
        inputs.events@.len() <= u32::MAX,
    ensures
        forall|command: Seq<char>| #[trigger]
            after_records(inputs, count).commands.dom().contains(command) ==> points_to_signal(
                inputs,
                after_records(inputs, count).commands[command],
                inputs.events@.len(),
            ),
    decreases count,
{
    if count == 0 {
        facts_point_to_signals(inputs, inputs.events@.len());
    } else {
        recorded_facts_point_to_signals(inputs, (count - 1) as nat);
    }
}

/// Inputs whose admitted signals all have a second that can be named are well formed.
pub proof fn dated_signals_are_enough(inputs: Inputs)
    requires
        inputs.events@.len() + inputs.refusals@.len() <= u32::MAX,
        forall|i: int|
            0 <= i < inputs.events@.len() && ((#[trigger] inputs.events@[i]).kind matches
                EventKind::Signal(signal) && signal.command is Some) ==> second_of(
                inputs.events@[i].time_micros as int,
            ) >= i64::MIN,
    ensures
        inputs.wf(),
{
    recorded_facts_point_to_signals(inputs, inputs.refusals@.len());
    assert forall|command: Seq<char>| #[trigger]
        measured(inputs).commands.dom().contains(command) implies dated(
        inputs,
        measured(inputs).commands[command],
    ) by {
        let facts = measured(inputs).commands[command];
        assert(points_to_signal(inputs, facts, inputs.events@.len()));
    }
}

} // verus!
