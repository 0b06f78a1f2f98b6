//! When a receipt's dimensions are matched, in terms of what was observed.

use crate::live::finance::{EventKind, Signal};
use crate::live::receipt::laws::{after_commands_stay_finite, eligible_means_every_dimension};
use crate::live::receipt::model::{
    after_command, after_commands, are_terms, assessed, conclusion, is_binding, is_risk, measured,
    risk_of, signal_of, Facts, Verdict,
};
use crate::live::receipt::{is_dimension, is_receipt, supports, Inputs, Receipt, Status};
use crate::search::first_where_found;
use crate::table::{every_finite_set_is_listed, in_order};
use crate::text::views;
use vstd::prelude::*;

verus! {

/// A signal is assessed by the baseline of its binding's contract, and its quote is bounded by its
/// binding's risk policy.
pub proof fn a_signal_is_assessed_by_its_binding(
    inputs: Inputs,
    facts: Facts,
    at: usize,
    signal: Signal,
    b: int,
    t: int,
    r: int,
)
    requires
        facts.signal == Some(at),
        inputs.events@[at as int].kind == EventKind::Signal(signal),
        0 <= b < inputs.bindings@.len(),
        inputs.bindings@[b].id@ == signal.binding@,
        forall|i: int| 0 <= i < b ==> (#[trigger] inputs.bindings@[i]).id@ != signal.binding@,
        0 <= t < inputs.baseline@.len(),
        inputs.baseline@[t].id@ == inputs.bindings@[b].contract@,
        forall|i: int|
            0 <= i < t ==> (#[trigger] inputs.baseline@[i]).id@ != inputs.bindings@[b].contract@,
        0 <= r < inputs.risk_policies@.len(),
        inputs.risk_policies@[r].id@ == inputs.bindings@[b].risk_policy@,
        forall|i: int|
            0 <= i < r ==> (#[trigger] inputs.risk_policies@[i]).id@
                != inputs.bindings@[b].risk_policy@,
    ensures
        signal_of(inputs, facts) == Some(signal),
        assessed(inputs, facts) == Some(inputs.baseline@[t]),
        risk_of(inputs, signal) == Some(r),
{
    let bound = is_binding(signal.binding@);
    assert forall|i: int| 0 <= i < b implies !bound(#[trigger] inputs.bindings@[i]) by {}
    first_where_found(inputs.bindings@, bound, b);
    let terms = are_terms(inputs.bindings@[b].contract@);
    assert forall|i: int| 0 <= i < t implies !terms(#[trigger] inputs.baseline@[i]) by {}
    first_where_found(inputs.baseline@, terms, t);
    let policy = is_risk(inputs.bindings@[b].risk_policy@);
    assert forall|i: int| 0 <= i < r implies !policy(#[trigger] inputs.risk_policies@[i]) by {}
    first_where_found(inputs.risk_policies@, policy, r);
}

/// Whether a command is judged: its signal is known.
pub open spec fn is_judged(inputs: Inputs, facts: Facts) -> bool {
    facts.signal matches Some(at) && inputs.events@[at as int].kind is Signal
}

/// Whether a command was entered at its quote, while the quote was fresh.
pub open spec fn entered_at_its_quote(inputs: Inputs, facts: Facts) -> bool {
    let event = inputs.events@[facts.signal->0 as int];
    let signal = event.kind->Signal_0;
    facts.entry_price matches Some(price) && signal.quote_price_units matches Some(quote)
        && signal.quote_time_micros matches Some(time) && risk_of(inputs, signal) matches Some(r)
        && price == quote && time <= event.time_micros <= time
        + inputs.risk_policies@[r].max_quote_age_micros
}

/// Whether a command was bought in the second in which it was decided, at its start.
pub open spec fn bought_in_its_second(inputs: Inputs, facts: Facts) -> bool {
    let decided = inputs.events@[facts.signal->0 as int].time_micros as int;
    facts.purchased_at matches Some(at) && at <= decided < at + 1_000_000 && at as int % 1_000_000
        == 0
}

/// Whether a contract started at entry, ran its duration, and was settled at its expiry with the
/// price of the first due tick, which came no earlier.
pub open spec fn ran_its_time(inputs: Inputs, facts: Facts) -> bool {
    &&& assessed(inputs, facts) matches Some(terms)
    &&& facts.entry matches Some(entry)
    &&& facts.start == Some(entry)
    &&& facts.expiry matches Some(expiry)
    &&& expiry == entry + terms.duration_micros
    &&& facts.exit == Some(expiry)
    &&& facts.due_tick matches Some((tick_time, tick_price))
    &&& facts.exit_price == Some(tick_price)
    &&& tick_time >= expiry
}

/// Whether the funds of a command were released at its expiry: the later of the terminal and the
/// cash evidence came then, and was applied then.
pub open spec fn released_at_expiry(facts: Facts) -> bool {
    &&& facts.expiry matches Some(expiry)
    &&& facts.release matches Some((application, Some(terminal), Some(cash)))
    &&& application == expiry
    &&& terminal <= expiry
    &&& cash <= expiry
    &&& terminal == expiry || cash == expiry
}

/// How many of the first `count` commands are judged.
pub open spec fn judged_among(
    inputs: Inputs,
    commands: Map<Seq<char>, Facts>,
    keys: Seq<Seq<char>>,
    count: nat,
) -> nat
    decreases count,
{
    if count == 0 {
        0
    } else {
        judged_among(inputs, commands, keys, (count - 1) as nat) + (if is_judged(
            inputs,
            commands[keys[count - 1]],
        ) {
            1nat
        } else {
            0nat
        })
    }
}

/// Whether what holds of a command holds of every judged one among the first `count`.
pub open spec fn holds_of_all(
    inputs: Inputs,
    commands: Map<Seq<char>, Facts>,
    keys: Seq<Seq<char>>,
    count: nat,
    wanted: spec_fn(Facts) -> bool,
) -> bool {
    forall|i: int|
        0 <= i < count && is_judged(inputs, commands[#[trigger] keys[i]]) ==> wanted(
            commands[keys[i]],
        )
}

#[verifier::rlimit(40)]
proof fn one_more_command(
    inputs: Inputs,
    verdict: Verdict,
    command: Seq<char>,
    facts: Facts,
)
    requires
        is_judged(inputs, facts),
    ensures
        ({
            let after = after_command(verdict, inputs, command, facts);
            &&& after.quotes.status == Status::Matched <==> verdict.quotes.status == Status::Matched
                && entered_at_its_quote(inputs, facts)
            &&& after.delays.status == Status::Matched <==> verdict.delays.status == Status::Matched
                && bought_in_its_second(inputs, facts)
            &&& after.timing.status == Status::Matched <==> verdict.timing.status == Status::Matched
                && ran_its_time(inputs, facts)
            &&& after.release.status == Status::Matched <==> verdict.release.status
                == Status::Matched && released_at_expiry(facts)
            &&& after.quotes.status == Status::Matched ==> after.quotes.samples
                == verdict.quotes.samples + 1
            &&& after.delays.status == Status::Matched ==> after.delays.samples
                == verdict.delays.samples + 1
            &&& after.timing.status == Status::Matched ==> after.timing.samples
                == verdict.timing.samples + 1
            &&& after.release.status == Status::Matched ==> after.release.samples
                == verdict.release.samples + 1
        }),
{
}

proof fn all_commands(
    inputs: Inputs,
    commands: Map<Seq<char>, Facts>,
    keys: Seq<Seq<char>>,
    count: nat,
)
    requires
        count <= keys.len(),
    ensures
        ({
            let verdict = after_commands(inputs, commands, keys, count);
            let judged = judged_among(inputs, commands, keys, count);
            &&& verdict.quotes.status == Status::Matched <==> holds_of_all(
                inputs,
                commands,
                keys,
                count,
                |facts: Facts| entered_at_its_quote(inputs, facts),
            )
            &&& verdict.delays.status == Status::Matched <==> holds_of_all(
                inputs,
                commands,
                keys,
                count,
                |facts: Facts| bought_in_its_second(inputs, facts),
            )
            &&& verdict.timing.status == Status::Matched <==> holds_of_all(
                inputs,
                commands,
                keys,
                count,
                |facts: Facts| ran_its_time(inputs, facts),
            )
            &&& verdict.release.status == Status::Matched <==> holds_of_all(
                inputs,
                commands,
                keys,
                count,
                |facts: Facts| released_at_expiry(facts),
            )
            &&& verdict.quotes.status == Status::Matched ==> verdict.quotes.samples == judged
            &&& verdict.delays.status == Status::Matched ==> verdict.delays.samples == judged
            &&& verdict.timing.status == Status::Matched ==> verdict.timing.samples == judged
            &&& verdict.release.status == Status::Matched ==> verdict.release.samples == judged
        }),
    decreases count,
{
    if count > 0 {
        all_commands(inputs, commands, keys, (count - 1) as nat);
        let command = keys[count - 1];
        let facts = commands[command];
        if is_judged(inputs, facts) {
            one_more_command(
                inputs,
                after_commands(inputs, commands, keys, (count - 1) as nat),
                command,
                facts,
            );
        }
    }
}

/// A dimension that is judged command by command is matched exactly when there are enough judged
/// commands, one at least, and every one of them stayed in the envelope: it was entered at its
/// fresh quote, bought at the start of the second of its decision, ran its time, and was released
/// at its expiry.
pub proof fn a_dimension_is_matched_by_every_command(inputs: Inputs, receipt: Receipt)
    requires
        is_receipt(receipt, inputs),
    ensures
        ({
            let commands = measured(inputs).commands;
            let judged = judged_among(
                inputs,
                commands,
                in_order(commands.dom()),
                in_order(commands.dom()).len(),
            );
            let enough = judged >= 1 && judged >= inputs.min_samples;
            &&& receipt.dimensions@[2].status == Status::Matched <==> enough && forall|
                command: Seq<char>,
            | #[trigger]
                commands.dom().contains(command) && is_judged(inputs, commands[command])
                    ==> entered_at_its_quote(inputs, commands[command])
            &&& receipt.dimensions@[3].status == Status::Matched <==> enough && forall|
                command: Seq<char>,
            | #[trigger]
                commands.dom().contains(command) && is_judged(inputs, commands[command])
                    ==> bought_in_its_second(inputs, commands[command])
            &&& receipt.dimensions@[4].status == Status::Matched <==> enough && forall|
                command: Seq<char>,
            | #[trigger]
                commands.dom().contains(command) && is_judged(inputs, commands[command])
                    ==> ran_its_time(inputs, commands[command])
            &&& receipt.dimensions@[5].status == Status::Matched <==> enough && forall|
                command: Seq<char>,
            | #[trigger]
                commands.dom().contains(command) && is_judged(inputs, commands[command])
                    ==> released_at_expiry(commands[command])
        }),
{
    let commands = measured(inputs).commands;
    let keys = in_order(commands.dom());
    after_commands_stay_finite(inputs);
    every_finite_set_is_listed(commands.dom());
    all_commands(inputs, commands, keys, keys.len());
    same_commands(inputs, commands, keys, |facts: Facts| entered_at_its_quote(inputs, facts));
    same_commands(inputs, commands, keys, |facts: Facts| bought_in_its_second(inputs, facts));
    same_commands(inputs, commands, keys, |facts: Facts| ran_its_time(inputs, facts));
    same_commands(inputs, commands, keys, |facts: Facts| released_at_expiry(facts));
    assert(is_dimension(receipt.dimensions@[2], inputs, 2));
    assert(is_dimension(receipt.dimensions@[3], inputs, 3));
    assert(is_dimension(receipt.dimensions@[4], inputs, 4));
    assert(is_dimension(receipt.dimensions@[5], inputs, 5));
}

proof fn same_commands(
    inputs: Inputs,
    commands: Map<Seq<char>, Facts>,
    keys: Seq<Seq<char>>,
    wanted: spec_fn(Facts) -> bool,
)
    requires
        keys.to_set() == commands.dom(),
    ensures
        holds_of_all(inputs, commands, keys, keys.len(), wanted) <==> forall|command: Seq<char>|
            #[trigger]
            commands.dom().contains(command) && is_judged(inputs, commands[command]) ==> wanted(
                commands[command],
            ),
{
    assert forall|i: int| 0 <= i < keys.len() implies commands.dom().contains(
        #[trigger] keys[i],
    ) by {
        assert(keys.to_set().contains(keys[i]));
    }
    if holds_of_all(inputs, commands, keys, keys.len(), wanted) {
        assert forall|command: Seq<char>| #[trigger]
            commands.dom().contains(command) && is_judged(inputs, commands[command]) implies wanted(
            commands[command],
        ) by {
            assert(keys.to_set().contains(command));
            let i = choose|i: int| 0 <= i < keys.len() && keys[i] == command;
            assert(wanted(commands[keys[i]]));
        }
    }
}

/// What a matched dimension says of each judged command. Quotes: the entry price is the quoted
/// one, and the quote was neither from the future nor older than the risk policy allows.
/// Acceptance: the purchase time is the start of the second of the decision. Timing: the contract
/// started at entry, expired after its duration, and exited at its expiry at the price of its
/// first due tick, which came at or after expiry. Release: terminal and cash evidence were there
/// at expiry, and no later, and were applied at expiry.
pub proof fn a_matched_dimension_is_exact(
    inputs: Inputs,
    receipt: Receipt,
    command: Seq<char>,
    at: usize,
    signal: Signal,
)
    requires
        is_receipt(receipt, inputs),
        measured(inputs).commands.dom().contains(command),
        measured(inputs).commands[command].signal == Some(at),
        inputs.events@[at as int].kind == EventKind::Signal(signal),
    ensures
        ({
            let facts = measured(inputs).commands[command];
            let decided = inputs.events@[at as int].time_micros;
            &&& receipt.dimensions@[2].status == Status::Matched ==> {
                &&& facts.entry_price is Some
                &&& facts.entry_price == signal.quote_price_units
                &&& signal.quote_time_micros is Some
                &&& signal.quote_time_micros->0 <= decided
                &&& risk_of(inputs, signal) is Some
                &&& decided - signal.quote_time_micros->0
                    <= inputs.risk_policies@[risk_of(inputs, signal)->0].max_quote_age_micros
            }
            &&& receipt.dimensions@[3].status == Status::Matched ==> {
                &&& facts.purchased_at is Some
                &&& facts.purchased_at->0 == decided as int / 1_000_000 * 1_000_000
            }
            &&& receipt.dimensions@[4].status == Status::Matched ==> {
                &&& assessed(inputs, facts) is Some
                &&& facts.entry is Some && facts.expiry is Some && facts.exit is Some
                    && facts.start is Some && facts.exit_price is Some && facts.due_tick is Some
                &&& facts.expiry->0 == facts.entry->0 + assessed(
                    inputs,
                    facts,
                )->0.duration_micros
                &&& facts.exit->0 == facts.expiry->0
                &&& facts.start->0 == facts.entry->0
                &&& facts.due_tick matches Some((tick_time, tick_price)) && facts.exit_price->0
                    == tick_price && tick_time >= facts.expiry->0
            }
            &&& receipt.dimensions@[5].status == Status::Matched ==> {
                &&& facts.expiry matches Some(expiry) && facts.release matches Some(
                    (application, Some(terminal), Some(cash)),
                ) && application == expiry && terminal <= expiry && cash <= expiry && (terminal
                    == expiry || cash == expiry)
            }
        }),
{
    a_dimension_is_matched_by_every_command(inputs, receipt);
    assert(is_judged(inputs, measured(inputs).commands[command]));
}

/// A run is eligible for promotion only if every one of the six dimensions is matched by as many
/// samples as required, and the account has the required class; then it is.
pub proof fn promotion_needs_all_six(inputs: Inputs, receipt: Receipt)
    requires
        is_receipt(receipt, inputs),
    ensures
        receipt.promotion.eligible <==> inputs.account_class == inputs.required_account_class
            && forall|i: int|
            0 <= i < 6 ==> (#[trigger] receipt.dimensions@[i]).status == Status::Matched
                && receipt.dimensions@[i].samples >= inputs.min_samples
                && receipt.dimensions@[i].samples >= 1,
        receipt.promotion.eligible <==> receipt.promotion.reasons@.len() == 0,
{
    eligible_means_every_dimension(receipt.dimensions@, inputs);
    assert(views(receipt.promotion.reasons@).len() == receipt.promotion.reasons@.len());
    assert forall|i: int| 0 <= i < 6 implies (supports(#[trigger] receipt.dimensions@[i]) <==>
    receipt.dimensions@[i].status == Status::Matched && receipt.dimensions@[i].samples
        >= inputs.min_samples && receipt.dimensions@[i].samples >= 1) by {
        assert(is_dimension(receipt.dimensions@[i], inputs, i));
        let gauge = conclusion(inputs)[i];
    }
}

} // verus!
