//! What holds of every observation: which rows it yields, when they are ready, what they wait for,
//! and what a tick and its rows lead to.

use crate::live::due::ended_by;
use crate::live::finance::Proposal;
use crate::live::journal::RecordKind;
use crate::live::market::{
    acts_on, asks_for_binding, asks_of, feed_after, instrument_at, is_instrument, is_new_ask,
    new_asks, requested_terms, subscribes_to, waits, BoundInstrument, Deciding, Feed, MarketAction,
    ProposalTerms,
};
use crate::live::receipt::{Binding, RiskPolicy};
use crate::live::rows::{
    age_limit, base_of, bound_rows, column_of, decides, deciding, has_row, instrument_ready,
    is_fresh, is_ready, latest_close, max_age, risk_at, row_of, seconds_of, took_answer,
    ColumnSpec, FeatureValue, Observation, PendingRows, ProducedRow, Row, Strategy, StreamColumns,
    StreamPlan,
};
use crate::live::workers::{MarketTick, ProposalRequest};
use crate::search::{first_where_found, first_where_meets};
use crate::table::in_order;
use crate::text::views;
use vstd::prelude::*;

verus! {

/// A row is ready exactly where each of its columns has a value that is none of its unready texts,
/// and every flag that a column names is a column of the row that is set.
pub proof fn a_row_is_ready_by_its_values_and_flags(
    columns: Seq<ColumnSpec>,
    values: Seq<Option<FeatureValue>>,
)
    ensures
        is_ready(columns, values) <==> forall|at: int|
            0 <= at < columns.len() ==> {
                let column = #[trigger] columns[at];
                &&& values[at] is Some
                &&& values[at] matches Some(FeatureValue::Text(text)) ==> !views(
                    column.unready@,
                ).contains(text@)
                &&& forall|i: int|
                    0 <= i < column.readiness@.len() ==> (column_of(
                        columns,
                        (#[trigger] column.readiness@[i])@,
                    ) matches Some(flag) && values[flag] == Some(FeatureValue::Bool(true)))
            },
{
    if is_ready(columns, values) {
        assert forall|at: int| 0 <= at < columns.len() implies {
            let column = #[trigger] columns[at];
            &&& values[at] is Some
            &&& values[at] matches Some(FeatureValue::Text(text)) ==> !views(
                column.unready@,
            ).contains(text@)
            &&& forall|i: int|
                0 <= i < column.readiness@.len() ==> (column_of(
                    columns,
                    (#[trigger] column.readiness@[i])@,
                ) matches Some(flag) && values[flag] == Some(FeatureValue::Bool(true)))
        } by {
            assert(crate::live::rows::column_ready(columns, values, at));
        }
    } else {
        let at = choose|at: int|
            0 <= at < columns.len() && !#[trigger] crate::live::rows::column_ready(
                columns,
                values,
                at,
            );
        let column = columns[at];
    }
}

/// A column is found under its name, and is the first of that name.
pub proof fn a_column_is_found_by_its_name(columns: Seq<ColumnSpec>, name: Seq<char>)
    ensures
        column_of(columns, name) matches Some(at) ==> 0 <= at < columns.len() && columns[at].name@
            == name && forall|i: int| 0 <= i < at ==> (#[trigger] columns[i]).name@ != name,
        column_of(columns, name) is None ==> forall|i: int|
            0 <= i < columns.len() ==> (#[trigger] columns[i]).name@ != name,
{
    let wanted = crate::live::rows::is_column(name);
    first_where_meets(columns, wanted);
    match column_of(columns, name) {
        Some(at) => {
            assert forall|i: int| 0 <= i < at implies (#[trigger] columns[i]).name@ != name by {
                assert(!wanted(columns[i]));
            }
        },
        None => {
            assert forall|i: int| 0 <= i < columns.len() implies (#[trigger] columns[i]).name@
                != name by {
                assert(!wanted(columns[i]));
            }
        },
    }
}

/// A produced row of a bound stream becomes a row of it: with its close, known no earlier than it
/// was received, and with each column's value taken from the output that the column names. A row
/// of another stream is passed over.
pub proof fn a_row_takes_its_columns_from_their_sources(
    plan: Seq<StreamPlan>,
    bound: Seq<StreamColumns>,
    row: ProducedRow,
    receipt: i64,
    stream: int,
    column: int,
    source: int,
)
    requires
        0 <= stream < bound.len(),
        bound[stream].stream == plan[row.plan as int].stream,
        forall|i: int|
            0 <= i < stream ==> (#[trigger] bound[i]).stream != plan[row.plan as int].stream,
        0 <= column < bound[stream].columns@.len(),
        0 <= source < plan[row.plan as int].outputs@.len(),
        plan[row.plan as int].outputs@[source]@ == bound[stream].columns@[column].source@,
        forall|i: int|
            0 <= i < source ==> (#[trigger] plan[row.plan as int].outputs@[i])@
                != bound[stream].columns@[column].source@,
    ensures
        row_of(plan, bound, row, receipt) matches Some(view) && {
            &&& view.stream == stream
            &&& view.close_time_micros == row.close_time_micros
            &&& view.known_at_micros >= receipt && view.known_at_micros >= row.known_at_micros && (
            view.known_at_micros == receipt || view.known_at_micros == row.known_at_micros)
            &&& view.values.len() == bound[stream].columns@.len()
            &&& view.values[column] == row.values@[source]
        },
{
    let key = plan[row.plan as int].stream;
    let same = |one: StreamColumns| one.stream == key;
    assert forall|i: int| 0 <= i < stream implies !same(#[trigger] bound[i]) by {}
    first_where_found(bound, same, stream);
    let outputs = plan[row.plan as int].outputs@;
    let wanted = crate::live::rows::is_text(bound[stream].columns@[column].source@);
    assert forall|i: int| 0 <= i < source implies !wanted(#[trigger] outputs[i]) by {}
    first_where_found(outputs, wanted, source);
}

/// A produced row of no bound stream yields nothing.
pub proof fn an_unbound_row_yields_nothing(
    plan: Seq<StreamPlan>,
    bound: Seq<StreamColumns>,
    row: ProducedRow,
    receipt: i64,
)
    requires
        forall|i: int|
            0 <= i < bound.len() ==> (#[trigger] bound[i]).stream != plan[row.plan as int].stream,
    ensures
        row_of(plan, bound, row, receipt) is None,
{
    let key = plan[row.plan as int].stream;
    crate::search::first_where_absent(bound, |one: StreamColumns| one.stream == key);
}

/// The rows of an observation are those of its produced rows that a bound stream has, in order.
pub proof fn an_observation_yields_its_bound_rows(
    plan: Seq<StreamPlan>,
    bound: Seq<StreamColumns>,
    produced: Seq<ProducedRow>,
    receipt: i64,
    count: nat,
)
    ensures
        bound_rows(plan, bound, produced, receipt, 0).len() == 0,
        (row_of(plan, bound, produced[count as int], receipt) matches Some(row) ==> bound_rows(
            plan,
            bound,
            produced,
            receipt,
            count + 1,
        ) == bound_rows(plan, bound, produced, receipt, count).push(row)),
        row_of(plan, bound, produced[count as int], receipt) is None ==> bound_rows(
            plan,
            bound,
            produced,
            receipt,
            count + 1,
        ) == bound_rows(plan, bound, produced, receipt, count),
{
}

/// A binding decides on rows exactly where it is of the instrument and one of the rows, ready
/// where that is asked, is of the stream that its strategy decides on.
pub proof fn a_binding_decides_on_its_base_stream(
    strategies: Seq<Strategy>,
    bound: Seq<StreamColumns>,
    rows: Seq<Row>,
    binding: Binding,
    instrument: Seq<char>,
    ready: bool,
    strategy: int,
)
    requires
        0 <= strategy < strategies.len(),
        strategies[strategy].id@ == binding.strategy@,
        forall|i: int|
            0 <= i < strategy ==> (#[trigger] strategies[i]).id@ != binding.strategy@,
    ensures
        decides(strategies, bound, rows, binding, instrument, ready) <==> binding.instrument@
            == instrument && exists|i: int|
            0 <= i < rows.len() && bound[(#[trigger] rows[i]).stream as int].stream
                == strategies[strategy].base_stream && (ready ==> is_ready(
                bound[rows[i].stream as int].columns@,
                rows[i].values@,
            )),
{
    let named = |one: Strategy| one.id@ == binding.strategy@;
    assert forall|i: int| 0 <= i < strategy implies !named(#[trigger] strategies[i]) by {}
    first_where_found(strategies, named, strategy);
}

/// The bindings that decide are exactly those of the instrument with a row of their base stream.
pub proof fn every_deciding_binding_is_asked(
    strategies: Seq<Strategy>,
    bound: Seq<StreamColumns>,
    rows: Seq<Row>,
    bindings: Seq<Binding>,
    instrument: Seq<char>,
    count: nat,
)
    requires
        count <= bindings.len(),
    ensures
        forall|k: int| #[trigger]
            deciding(strategies, bound, rows, bindings, instrument, count).contains(k) <==> 0 <= k
                < count && bindings[k].instrument@ == instrument && has_row(
                bound,
                rows,
                strategies[base_of(strategies, bindings[k])->0].base_stream,
                false,
            ),
    decreases count,
{
    if count > 0 {
        let before = deciding(strategies, bound, rows, bindings, instrument, (count - 1) as nat);
        every_deciding_binding_is_asked(
            strategies,
            bound,
            rows,
            bindings,
            instrument,
            (count - 1) as nat,
        );
        let all = deciding(strategies, bound, rows, bindings, instrument, count);
        assert forall|k: int| #[trigger] all.contains(k) <==> 0 <= k < count
            && bindings[k].instrument@ == instrument && has_row(
            bound,
            rows,
            strategies[base_of(strategies, bindings[k])->0].base_stream,
            false,
        ) by {
            if all != before {
                if before.contains(k) {
                    let i = choose|i: int| 0 <= i < before.len() && before[i] == k;
                    assert(all[i] == k);
                }
                if all.contains(k) && k != count - 1 {
                    let i = choose|i: int| 0 <= i < all.len() && all[i] == k;
                    assert(before[i] == k);
                }
                assert(all[all.len() - 1] == count - 1);
            }
        }
    }
}

/// An instrument is ready exactly where each of its bindings has a ready row of its base stream.
pub proof fn an_instrument_is_ready_for_all_its_bindings(
    strategies: Seq<Strategy>,
    bound: Seq<StreamColumns>,
    rows: Seq<Row>,
    bindings: Seq<Binding>,
    instrument: Seq<char>,
)
    ensures
        instrument_ready(strategies, bound, rows, bindings, instrument) <==> forall|i: int|
            0 <= i < bindings.len() && (#[trigger] bindings[i]).instrument@ == instrument
                ==> exists|k: int|
                0 <= k < rows.len() && bound[(#[trigger] rows[k]).stream as int].stream
                    == strategies[base_of(strategies, bindings[i])->0].base_stream && is_ready(
                    bound[rows[k].stream as int].columns@,
                    rows[k].values@,
                ),
{
    if instrument_ready(strategies, bound, rows, bindings, instrument) {
        assert forall|i: int|
            0 <= i < bindings.len() && (#[trigger] bindings[i]).instrument@
                == instrument implies exists|k: int|
            0 <= k < rows.len() && bound[(#[trigger] rows[k]).stream as int].stream
                == strategies[base_of(strategies, bindings[i])->0].base_stream && is_ready(
                bound[rows[k].stream as int].columns@,
                rows[k].values@,
            ) by {
            assert(decides(strategies, bound, rows, bindings[i], instrument, true));
        }
    } else {
        let i = choose|i: int|
            0 <= i < bindings.len() && (#[trigger] bindings[i]).instrument@ == instrument
                && !decides(strategies, bound, rows, bindings[i], instrument, true);
        assert(bindings[i].instrument@ == instrument);
    }
}

/// The latest close is one of the closes, and none is later.
pub proof fn the_latest_close_is_the_latest(rows: Seq<Row>)
    requires
        rows.len() > 0,
    ensures
        forall|i: int|
            0 <= i < rows.len() ==> (#[trigger] rows[i]).close_time_micros <= latest_close(rows),
        exists|i: int|
            0 <= i < rows.len() && (#[trigger] rows[i]).close_time_micros == latest_close(rows),
    decreases rows.len(),
{
    if rows.len() == 1 {
        assert(rows[0].close_time_micros == latest_close(rows));
    } else {
        let rest = rows.drop_last();
        the_latest_close_is_the_latest(rest);
        assert forall|i: int| 0 <= i < rows.len() implies (#[trigger] rows[i]).close_time_micros
            <= latest_close(rows) by {
            if i < rest.len() {
                assert(rest[i] == rows[i]);
            }
        }
        if rows.last().close_time_micros >= latest_close(rest) {
            assert(rows[rows.len() - 1].close_time_micros == latest_close(rows));
        } else {
            let i = choose|i: int|
                0 <= i < rest.len() && (#[trigger] rest[i]).close_time_micros == latest_close(rest);
            assert(rows[i].close_time_micros == latest_close(rows));
        }
    }
}

/// A row of an instrument may become as old as the most lenient of its bindings allows: no binding
/// allows more, and one allows it. Where no binding says, it may not age at all.
pub proof fn a_row_may_age_as_its_bindings_allow(
    bindings: Seq<Binding>,
    risks: Seq<RiskPolicy>,
    instrument: Seq<char>,
    count: nat,
)
    requires
        count <= bindings.len(),
    ensures
        forall|i: int|
            0 <= i < count && (#[trigger] bindings[i]).instrument@ == instrument && risk_at(
                risks,
                bindings[i].risk_policy@,
            ) is Some ==> (age_limit(bindings, risks, instrument, count) matches Some(limit)
                && risks[risk_at(risks, bindings[i].risk_policy@)->0].max_feature_age_micros
                <= limit),
        age_limit(bindings, risks, instrument, count) matches Some(limit) ==> exists|i: int|
            0 <= i < count && (#[trigger] bindings[i]).instrument@ == instrument && risk_at(
                risks,
                bindings[i].risk_policy@,
            ) is Some && risks[risk_at(
                risks,
                bindings[i].risk_policy@,
            )->0].max_feature_age_micros == limit,
        age_limit(bindings, risks, instrument, bindings.len()) is None ==> max_age(
            bindings,
            risks,
            instrument,
        ) == 0,
        (age_limit(bindings, risks, instrument, bindings.len()) matches Some(limit) ==> max_age(
            bindings,
            risks,
            instrument,
        ) == limit),
    decreases count,
{
    if count > 0 {
        a_row_may_age_as_its_bindings_allow(bindings, risks, instrument, (count - 1) as nat);
        let before = age_limit(bindings, risks, instrument, (count - 1) as nat);
        let last = bindings[count - 1];
        if let Some(limit) = age_limit(bindings, risks, instrument, count) {
            if before == Some(limit) {
                let i = choose|i: int|
                    0 <= i < count - 1 && (#[trigger] bindings[i]).instrument@ == instrument
                        && risk_at(risks, bindings[i].risk_policy@) is Some && risks[risk_at(
                        risks,
                        bindings[i].risk_policy@,
                    )->0].max_feature_age_micros == limit;
                assert(bindings[i].instrument@ == instrument);
            } else {
                assert(bindings[count - 1].instrument@ == instrument);
            }
        }
    }
}

/// Rows are fresh exactly while no more time has passed since their close than they may age.
pub proof fn rows_are_fresh_until_too_old(
    rows: PendingRows,
    instruments: Seq<String>,
    bindings: Seq<Binding>,
    risks: Seq<RiskPolicy>,
    now: i64,
)
    requires
        i64::MIN <= now - rows.close_micros <= i64::MAX,
    ensures
        is_fresh(rows, instruments, bindings, risks, now) <==> now - rows.close_micros <= max_age(
            bindings,
            risks,
            instruments[rows.instrument as int]@,
        ),
{
}

/// An answer ends the wait for its binding alone. A proposal that came stands before all else, and
/// nothing that waited is lost.
pub proof fn an_answer_ends_one_wait(
    before: PendingRows,
    after: PendingRows,
    binding: Seq<char>,
    offered: Option<Proposal>,
    other: Seq<char>,
)
    requires
        took_answer(before, after, binding, offered),
    ensures
        !after.bindings@.dom().contains(binding),
        other != binding ==> (after.bindings@.dom().contains(other)
            <==> before.bindings@.dom().contains(other)),
        after.instrument == before.instrument && after.close_micros == before.close_micros
            && after.receipt_micros == before.receipt_micros,
        before.bindings@.dom().contains(binding) && offered is Some ==> (
        after.observations@[0] matches Observation::Proposal { binding: id, proposal } && id@
            == binding && proposal == offered->0) && forall|i: int|
            0 <= i < before.observations@.len() ==> after.observations@[i + 1]
                == #[trigger] before.observations@[i],
        !(before.bindings@.dom().contains(binding) && offered is Some) ==> after.observations@
            == before.observations@,
{
    if before.bindings@.dom().contains(binding) && offered is Some {
        assert forall|i: int| 0 <= i < before.observations@.len() implies after.observations@[i + 1]
            == #[trigger] before.observations@[i] by {
            assert(after.observations@.skip(1)[i] == after.observations@[i + 1]);
        }
    }
}

/// The seconds of a duration are whole ones, rounded toward zero, where they fit.
pub proof fn a_duration_has_whole_seconds(duration: i64)
    ensures
        seconds_of(duration) matches Some(seconds) ==> seconds * 1_000_000 <= duration < (seconds
            + 1) * 1_000_000 || (seconds == 0 && -1_000_000 < duration < 0),
        seconds_of(duration) is None <==> duration <= -1_000_000 || duration >= (u32::MAX + 1)
            * 1_000_000,
{
}

/// A request of a proposal asks for its binding, its instrument at its scale, and the direction,
/// duration, stake, currency, semantics and settlement of the terms.
pub proof fn a_request_asks_for_the_terms(
    request: ProposalRequest,
    binding: Binding,
    bound: BoundInstrument,
    terms: ProposalTerms,
)
    requires
        asks_for_binding(request, binding, bound, terms),
    ensures
        request.binding@ == binding.id@,
        request.instrument@ == bound.instrument@ && request.scale == bound.scale,
        request.direction == terms.direction,
        seconds_of(terms.duration_micros) == Some(request.duration_seconds),
        request.stake == terms.stake && request.currency@ == terms.currency@,
        request.semantics@ == terms.semantics@ && request.settlement@ == terms.settlement@,
{
}

/// The terms of a binding are those of the contract that it names.
pub proof fn a_binding_asks_for_its_contract(terms: Seq<ProposalTerms>, binding: Binding)
    ensures
        requested_terms(terms, binding) matches Some(at) ==> 0 <= at < terms.len() && terms[at].id@
            == binding.contract@,
        requested_terms(terms, binding) is None ==> forall|i: int|
            0 <= i < terms.len() ==> (#[trigger] terms[i]).id@ != binding.contract@,
{
    let wanted = crate::live::market::is_contract(binding.contract@);
    first_where_meets(terms, wanted);
    if requested_terms(terms, binding) is None {
        assert forall|i: int| 0 <= i < terms.len() implies (#[trigger] terms[i]).id@
            != binding.contract@ by {
            assert(!wanted(terms[i]));
        }
    }
}

/// A proposal is requested anew exactly where none of the binding is under way and no earlier
/// binding of the list has the same name.
pub proof fn a_proposal_is_requested_once(
    bindings: Seq<Binding>,
    list: Seq<int>,
    asked: Set<Seq<char>>,
    count: nat,
)
    requires
        count <= list.len(),
    ensures
        forall|k: int|
            0 <= k < count && !asked.contains(bindings[#[trigger] list[k]].id@) ==> exists|i: int|
                0 <= i < new_asks(bindings, list, asked, count).len() && bindings[
                #[trigger] new_asks(bindings, list, asked, count)[i]].id@ == bindings[list[k]].id@,
        forall|i: int|
            0 <= i < new_asks(bindings, list, asked, count).len() ==> !asked.contains(
                bindings[#[trigger] new_asks(bindings, list, asked, count)[i]].id@,
            ),
        forall|i: int, j: int|
            0 <= i < j < new_asks(bindings, list, asked, count).len() ==> bindings[
            #[trigger] new_asks(bindings, list, asked, count)[i]].id@ != bindings[
            #[trigger] new_asks(bindings, list, asked, count)[j]].id@,
        forall|i: int|
            0 <= i < new_asks(bindings, list, asked, count).len() ==> exists|k: int|
                0 <= k < count && #[trigger] list[k] == #[trigger] new_asks(
                    bindings,
                    list,
                    asked,
                    count,
                )[i],
    decreases count,
{
    if count > 0 {
        let before = new_asks(bindings, list, asked, (count - 1) as nat);
        a_proposal_is_requested_once(bindings, list, asked, (count - 1) as nat);
        let all = new_asks(bindings, list, asked, count);
        let last = list[count - 1];
        assert forall|k: int|
            0 <= k < count && !asked.contains(bindings[#[trigger] list[k]].id@) implies exists|
            i: int,
        |
            0 <= i < all.len() && bindings[#[trigger] all[i]].id@ == bindings[list[k]].id@ by {
            if k < count - 1 {
                let i = choose|i: int|
                    0 <= i < before.len() && bindings[#[trigger] before[i]].id@
                        == bindings[list[k]].id@;
                assert(all[i] == before[i]);
            } else if is_new_ask(bindings, list, asked, count - 1) {
                assert(all[before.len() as int] == last);
            } else {
                let j = choose|j: int|
                    0 <= j < count - 1 && bindings[#[trigger] list[j]].id@
                        == bindings[list[count - 1]].id@;
                let i = choose|i: int|
                    0 <= i < before.len() && bindings[#[trigger] before[i]].id@
                        == bindings[list[j]].id@;
                assert(all[i] == before[i]);
            }
        }
        assert forall|i: int| 0 <= i < all.len() implies exists|k: int|
            0 <= k < count && #[trigger] list[k] == #[trigger] all[i] by {
            if i < before.len() {
                assert(all[i] == before[i]);
                let k = choose|k: int| 0 <= k < count - 1 && #[trigger] list[k] == before[i];
                assert(list[k] == all[i]);
            } else {
                assert(list[count - 1] == all[i]);
            }
        }
        assert forall|i: int, j: int| 0 <= i < j < all.len() implies bindings[#[trigger] all[i]].id@
            != bindings[#[trigger] all[j]].id@ by {
            assert(all[i] == before[i]);
            if j < before.len() {
                assert(all[j] == before[j]);
            } else {
                let k = choose|k: int| 0 <= k < count - 1 && #[trigger] list[k] == before[i];
                assert(bindings[list[k]].id@ != bindings[list[count - 1]].id@);
            }
        }
    }
}

/// Rows that wait keep their rows, in order, wait for the bindings that decide on them, and close
/// when the latest of them does.
pub proof fn waiting_rows_are_kept_whole(
    waiting: PendingRows,
    rows: Seq<Row>,
    instrument: usize,
    bindings: Set<Seq<char>>,
    receipt: i64,
)
    requires
        waits(waiting, rows, instrument, bindings, receipt),
        rows.len() > 0,
    ensures
        waiting.observations@.len() == rows.len(),
        forall|i: int|
            0 <= i < rows.len() ==> (#[trigger] waiting.observations@[i] matches Observation::Row {
                instrument: of,
                row,
            } && of == instrument && row == rows[i]),
        waiting.bindings@.dom() == bindings,
        waiting.receipt_micros == receipt && waiting.instrument == instrument,
        forall|i: int|
            0 <= i < rows.len() ==> (#[trigger] rows[i]).close_time_micros <= waiting.close_micros,
{
    the_latest_close_is_the_latest(rows);
}

/// A tick leaves of the feed what it was, but for its instrument's warmth, the contracts that it
/// ends, and the rows that it brings: an instrument becomes warm only by ready rows and never
/// cold, and a contract is due no longer exactly where it is of the instrument and expired.
pub proof fn a_tick_changes_its_instrument_alone(
    before: Feed,
    after: Feed,
    by: Deciding<'_>,
    rows: Seq<Row>,
    instrument: usize,
    tick: MarketTick,
    other: int,
    command: Seq<char>,
)
    requires
        feed_after(before, after, by, rows, instrument, tick),
        0 <= other < before.warmth.warm@.len(),
        0 <= instrument < before.warmth.warm@.len(),
    ensures
        other != instrument ==> after.warmth.warm@[other] == before.warmth.warm@[other],
        before.warmth.warm@[instrument as int] ==> after.warmth.warm@[instrument as int],
        after.warmth.warm@[instrument as int] ==> before.warmth.warm@[instrument as int]
            || instrument_ready(
            by.strategies@,
            by.columns@,
            rows,
            by.bindings@,
            by.instruments@[instrument as int].instrument@,
        ),
        after.due@.dom().contains(command) <==> before.due@.dom().contains(command)
            && !ended_by(before.due@, instrument, tick.provider_time_micros).contains(command),
        rows.len() == 0 ==> after.pending@ == before.pending@ && after.asked@ == before.asked@,
        after.connection_generation == before.connection_generation && after.receipt_sequence
            == before.receipt_sequence && after.last_provider_time == before.last_provider_time,
{
}

/// Whether an action asks for the proposal of a binding.
pub open spec fn asks_binding(action: MarketAction, by: Deciding<'_>, binding: int) -> bool {
    action matches MarketAction::Ask(request) && request.binding@ == by.bindings@[binding].id@
}

/// What a tick does, in order: it is recorded for each contract that it ends, then the engine is
/// told it, then what is asked is asked, then rows are looked at where there are any, and where a
/// contract ended compatibility is assessed.
pub proof fn a_tick_is_recorded_before_it_is_told(
    actions: Seq<MarketAction>,
    before: Feed,
    by: Deciding<'_>,
    rows: Seq<Row>,
    instrument: usize,
    tick: MarketTick,
)
    requires
        acts_on(actions, before, by, rows, instrument, tick),
    ensures
        ({
            let ended = in_order(ended_by(before.due@, instrument, tick.provider_time_micros));
            let asks = asks_of(before, by, rows, instrument);
            let d = ended.len() as int;
            &&& forall|i: int|
                0 <= i < d ==> (#[trigger] actions[i] matches MarketAction::Record(
                    RecordKind::DueTick { command, provider_time_micros, price_units },
                ) && command@ == ended[i] && provider_time_micros == tick.provider_time_micros
                    && price_units == tick.price_units)
            &&& actions[d] matches MarketAction::Tick {
                instrument: of,
                provider_time_micros,
                price_units,
            } && of == instrument && provider_time_micros == tick.provider_time_micros
                && price_units == tick.price_units
            &&& forall|i: int|
                0 <= i < asks.len() ==> asks_binding(actions[d + 1 + i], by, #[trigger] asks[i])
            &&& rows.len() > 0 ==> actions[d + 1 + asks.len()] is RowsReady
            &&& d > 0 ==> actions.last() is Compatibility
            &&& rows.len() == 0 ==> asks.len() == 0
        }),
{
    let ended = in_order(ended_by(before.due@, instrument, tick.provider_time_micros));
    let asks = asks_of(before, by, rows, instrument);
    let d = ended.len() as int;
    assert forall|i: int| 0 <= i < asks.len() implies asks_binding(
        actions[d + 1 + i],
        by,
        #[trigger] asks[i],
    ) by {
        assert(crate::live::market::is_ask(actions[d + 1 + i], asks[i], by, instrument));
    }
    assert forall|i: int| 0 <= i < d implies (#[trigger] actions[i] matches MarketAction::Record(
        RecordKind::DueTick { command, provider_time_micros, price_units },
    ) && command@ == ended[i] && provider_time_micros == tick.provider_time_micros && price_units
        == tick.price_units) by {
        assert(crate::live::market::records_due(actions[i], ended[i], tick));
    }
}

/// A tick is of the bound instrument of its name.
pub proof fn a_tick_is_of_a_bound_instrument(instruments: Seq<BoundInstrument>, name: Seq<char>)
    ensures
        instrument_at(instruments, name) matches Some(at) ==> 0 <= at < instruments.len()
            && instruments[at].instrument@ == name,
        instrument_at(instruments, name) is None ==> forall|i: int|
            0 <= i < instruments.len() ==> (#[trigger] instruments[i]).instrument@ != name,
{
    let wanted = is_instrument(name);
    first_where_meets(instruments, wanted);
    if instrument_at(instruments, name) is None {
        assert forall|i: int| 0 <= i < instruments.len() implies (
        #[trigger] instruments[i]).instrument@ != name by {
            assert(!wanted(instruments[i]));
        }
    }
}

/// An instrument is subscribed to under its own name, at its own scale.
pub proof fn a_subscription_is_that_of_the_instrument(action: MarketAction, bound: BoundInstrument)
    ensures
        subscribes_to(action, bound) <==> (action matches MarketAction::Subscribe {
            instrument,
            scale,
        } && instrument@ == bound.instrument@ && scale == bound.scale),
{
}

/// After a tick with rows only fresh rows wait: those that waited before and are fresh still do,
/// and the tick's own rows do, under its instrument and its receipt, where they are.
pub proof fn only_fresh_rows_wait(
    before: Feed,
    after: Feed,
    by: Deciding<'_>,
    rows: Seq<Row>,
    instrument: usize,
    tick: MarketTick,
    kept: PendingRows,
)
    requires
        feed_after(before, after, by, rows, instrument, tick),
        rows.len() > 0,
    ensures
        after.pending@.contains(kept) ==> is_fresh(kept, by.names@, by.bindings@, by.risks@, by.now),
        before.pending@.contains(kept) && is_fresh(
            kept,
            by.names@,
            by.bindings@,
            by.risks@,
            by.now,
        ) ==> after.pending@.contains(kept),
        exists|waiting: PendingRows|
            #![trigger waiting.observations@]
            waiting.instrument == instrument && waiting.close_micros == latest_close(rows)
                && waiting.receipt_micros == tick.receipt_micros && waiting.observations@.len()
                == rows.len() && (is_fresh(waiting, by.names@, by.bindings@, by.risks@, by.now)
                ==> after.pending@.contains(waiting)),
{
    let fresh = |rows: PendingRows| is_fresh(rows, by.names@, by.bindings@, by.risks@, by.now);
    let list = by.deciders(rows, instrument as int);
    let waiting = choose|waiting: PendingRows| #[trigger]
        waits(waiting, rows, instrument, by.awaited(list), tick.receipt_micros)
            && after.pending@ == before.pending@.push(waiting).filter(fresh);
    assert(waits(waiting, rows, instrument, by.awaited(list), tick.receipt_micros));
    let all = before.pending@.push(waiting);
    assert(after.pending@ == all.filter(fresh));
    if after.pending@.contains(kept) {
        let i = choose|i: int| 0 <= i < after.pending@.len() && after.pending@[i] == kept;
        all.lemma_filter_pred(fresh, i);
    }
    if before.pending@.contains(kept) && fresh(kept) {
        let i = choose|i: int| 0 <= i < before.pending@.len() && before.pending@[i] == kept;
        assert(all[i] == kept);
        all.lemma_filter_contains(fresh, i);
    }
    if fresh(waiting) {
        assert(all[all.len() - 1] == waiting);
        all.lemma_filter_contains(fresh, all.len() - 1);
    }
    assert(waiting.observations@.len() == rows.len());
}

} // verus!
