//! Rows of features on their way to a decision: which rows an observation yields, when an
//! instrument is warm, and which rows wait for a proposal.

use crate::live::entries::{after_veto, Vetoes, CONTINUITY, WARMUP};
use crate::live::finance::Proposal;
use crate::live::receipt::{Binding, RiskPolicy};
use crate::market::{clamped, saturating_difference};
use crate::search::{first_where, first_where_absent, first_where_found, first_where_meets};
use crate::table::Table;
use crate::text::{same_text, views};
use vstd::prelude::*;
use vstd::string::*;

verus! {

/// A feature value; a number by its bits.
#[derive(Debug)]
pub enum FeatureValue {
    Bool(bool),
    Text(String),
    Number(u64),
}

impl Clone for FeatureValue {
    fn clone(&self) -> (copy: Self)
        ensures
            copy == *self,
    {
        match self {
            FeatureValue::Bool(value) => FeatureValue::Bool(*value),
            FeatureValue::Text(value) => FeatureValue::Text(value.clone()),
            FeatureValue::Number(value) => FeatureValue::Number(*value),
        }
    }
}

/// The stream that rows of one duration and offset form.
#[derive(Debug, Clone, Copy, PartialEq, Eq, Structural)]
pub struct StreamKey {
    pub duration_seconds: u32,
    pub offset_seconds: u32,
}

/// A column that strategies read: where it comes from, which flags must be set and which texts
/// must be gone before it is ready.
#[derive(Debug)]
pub struct ColumnSpec {
    pub name: String,
    pub source: String,
    pub readiness: Vec<String>,
    pub unready: Vec<String>,
}

/// The columns of one stream.
#[derive(Debug)]
pub struct StreamColumns {
    pub stream: StreamKey,
    pub columns: Vec<ColumnSpec>,
}

/// What holds of a text.
pub open spec fn is_text(text: Seq<char>) -> spec_fn(String) -> bool {
    |other: String| other@ == text
}

/// Where a text stands among others.
pub open spec fn position_of(texts: Seq<String>, text: Seq<char>) -> Option<int> {
    first_where(texts, is_text(text))
}

/// Where a text stands among others.
pub fn position(texts: &Vec<String>, text: &str) -> (found: Option<usize>)
    ensures
        found matches Some(at) ==> at < texts@.len() && position_of(texts@, text@) == Some(
            at as int,
        ),
        found is None ==> position_of(texts@, text@) is None,
{
    let ghost wanted = is_text(text@);
    let mut i: usize = 0;
    while i < texts.len()
        invariant
            i <= texts@.len(),
            wanted == is_text(text@),
            forall|j: int| 0 <= j < i ==> !wanted(#[trigger] texts@[j]),
        decreases texts@.len() - i,
    {
        if same_text(texts[i].as_str(), text) {
            proof {
                first_where_found(texts@, wanted, i as int);
            }
            return Some(i);
        }
        i = i + 1;
    }
    proof {
        first_where_absent(texts@, wanted);
    }
    None
}

/// A text is found where it stands, and wherever it stands it is found.
pub proof fn position_meets(texts: Seq<String>, text: Seq<char>)
    ensures
        position_of(texts, text) matches Some(at) ==> 0 <= at < texts.len() && texts[at]@ == text,
        position_of(texts, text) is None <==> !views(texts).contains(text),
{
    let wanted = is_text(text);
    first_where_meets(texts, wanted);
    match position_of(texts, text) {
        Some(at) => {
            assert(wanted(texts[at]));
            assert(views(texts)[at] == text);
        },
        None => {
            if views(texts).contains(text) {
                let j = choose|j: int| 0 <= j < views(texts).len() && views(texts)[j] == text;
                assert(wanted(texts[j]));
            }
        },
    }
}

/// Whether a column has a name.
pub open spec fn is_column(name: Seq<char>) -> spec_fn(ColumnSpec) -> bool {
    |column: ColumnSpec| column.name@ == name
}

/// Where a column of a name stands.
pub open spec fn column_of(columns: Seq<ColumnSpec>, name: Seq<char>) -> Option<int> {
    first_where(columns, is_column(name))
}

fn find_column(columns: &Vec<ColumnSpec>, name: &str) -> (found: Option<usize>)
    ensures
        found matches Some(at) ==> at < columns@.len() && column_of(columns@, name@) == Some(
            at as int,
        ),
        found is None ==> column_of(columns@, name@) is None,
{
    let ghost wanted = is_column(name@);
    let mut i: usize = 0;
    while i < columns.len()
        invariant
            i <= columns@.len(),
            wanted == is_column(name@),
            forall|j: int| 0 <= j < i ==> !wanted(#[trigger] columns@[j]),
        decreases columns@.len() - i,
    {
        if same_text(columns[i].name.as_str(), name) {
            proof {
                first_where_found(columns@, wanted, i as int);
            }
            return Some(i);
        }
        i = i + 1;
    }
    proof {
        first_where_absent(columns@, wanted);
    }
    None
}

/// Whether the flag of a name is set.
pub open spec fn flag_set(
    columns: Seq<ColumnSpec>,
    values: Seq<Option<FeatureValue>>,
    flag: Seq<char>,
) -> bool {
    column_of(columns, flag) matches Some(at) && values[at] == Some(FeatureValue::Bool(true))
}

/// Whether a value is there and does not say that it is not ready.
pub open spec fn value_ready(column: ColumnSpec, value: Option<FeatureValue>) -> bool {
    match value {
        None => false,
        Some(FeatureValue::Text(text)) => !views(column.unready@).contains(text@),
        Some(_) => true,
    }
}

/// Whether a column of a row is ready: its value is, and all of its flags are set.
pub open spec fn column_ready(
    columns: Seq<ColumnSpec>,
    values: Seq<Option<FeatureValue>>,
    at: int,
) -> bool {
    &&& value_ready(columns[at], values[at])
    &&& forall|i: int|
        0 <= i < columns[at].readiness@.len() ==> flag_set(
            columns,
            values,
            (#[trigger] columns[at].readiness@[i])@,
        )
}

/// Whether a row is ready: all of its columns are.
pub open spec fn is_ready(columns: Seq<ColumnSpec>, values: Seq<Option<FeatureValue>>) -> bool {
    forall|at: int| 0 <= at < columns.len() ==> #[trigger] column_ready(columns, values, at)
}

fn flags_set(columns: &Vec<ColumnSpec>, values: &Vec<Option<FeatureValue>>, flags: &Vec<String>) -> (set:
    bool)
    requires
        columns@.len() <= values@.len(),
    ensures
        set == (forall|i: int|
            0 <= i < flags@.len() ==> flag_set(columns@, values@, (#[trigger] flags@[i])@)),
{
    let mut i: usize = 0;
    while i < flags.len()
        invariant
            i <= flags@.len(),
            columns@.len() <= values@.len(),
            forall|j: int|
                0 <= j < i ==> flag_set(columns@, values@, (#[trigger] flags@[j])@),
        decreases flags@.len() - i,
    {
        let set: bool = match find_column(columns, flags[i].as_str()) {
            Some(at) => match &values[at] {
                Some(FeatureValue::Bool(flag)) => *flag,
                _ => false,
            },
            None => false,
        };
        if !set {
            assert(!flag_set(columns@, values@, flags@[i as int]@));
            return false;
        }
        i = i + 1;
    }
    true
}

/// Whether a row is ready.
pub fn row_ready(stream: &StreamColumns, values: &Vec<Option<FeatureValue>>) -> (ready: bool)
    requires
        stream.columns@.len() <= values@.len(),
    ensures
        ready == is_ready(stream.columns@, values@),
{
    let columns = &stream.columns;
    let mut i: usize = 0;
    while i < columns.len()
        invariant
            i <= columns@.len(),
            columns@.len() <= values@.len(),
            columns@ == stream.columns@,
            forall|at: int| 0 <= at < i ==> #[trigger] column_ready(columns@, values@, at),
        decreases columns@.len() - i,
    {
        let good: bool = match &values[i] {
            None => false,
            Some(FeatureValue::Text(text)) => {
                let listed: Option<usize> = position(&columns[i].unready, text.as_str());
                proof {
                    position_meets(columns@[i as int].unready@, text@);
                }
                listed.is_none()
            },
            Some(_) => true,
        };
        if !good || !flags_set(columns, values, &columns[i].readiness) {
            assert(!column_ready(columns@, values@, i as int));
            return false;
        }
        i = i + 1;
    }
    true
}

/// The plan of one stream: its key and the names of what it yields.
#[derive(Debug)]
pub struct StreamPlan {
    pub stream: StreamKey,
    pub outputs: Vec<String>,
}

/// A row that the feature engine yields: the index of its stream, its times and its values.
#[derive(Debug)]
pub struct ProducedRow {
    pub plan: usize,
    pub close_time_micros: i64,
    pub known_at_micros: i64,
    pub values: Vec<Option<FeatureValue>>,
}

/// A row of a bound stream.
#[derive(Debug)]
pub struct Row {
    pub stream: usize,
    pub close_time_micros: i64,
    pub known_at_micros: i64,
    pub values: Vec<Option<FeatureValue>>,
}

/// What a row holds.
pub struct RowView {
    pub stream: int,
    pub close_time_micros: i64,
    pub known_at_micros: i64,
    pub values: Seq<Option<FeatureValue>>,
}

impl Row {
    /// What the row holds.
    pub open spec fn view(&self) -> RowView {
        RowView {
            stream: self.stream as int,
            close_time_micros: self.close_time_micros,
            known_at_micros: self.known_at_micros,
            values: self.values@,
        }
    }
}

/// What rows hold.
pub open spec fn row_views(rows: Seq<Row>) -> Seq<RowView> {
    rows.map_values(|row: Row| row@)
}

/// The bound stream of a key.
pub open spec fn bound_of(bound: Seq<StreamColumns>, key: StreamKey) -> Option<int> {
    first_where(bound, |stream: StreamColumns| stream.stream == key)
}

/// Where the columns of a bound stream stand in what its plan yields.
pub open spec fn column_values(
    columns: Seq<ColumnSpec>,
    outputs: Seq<String>,
    values: Seq<Option<FeatureValue>>,
) -> Seq<Option<FeatureValue>> {
    Seq::new(columns.len(), |i: int| values[position_of(outputs, columns[i].source@)->0])
}

/// Whether every column of every bound stream has its source among what its plan yields.
pub open spec fn sources_bound(plan: Seq<StreamPlan>, bound: Seq<StreamColumns>) -> bool {
    forall|p: int, b: int, c: int|
        #![trigger plan[p], bound[b].columns@[c]]
        0 <= p < plan.len() && 0 <= b < bound.len() && plan[p].stream == bound[b].stream && 0 <= c
            < bound[b].columns@.len() ==> position_of(
            plan[p].outputs@,
            bound[b].columns@[c].source@,
        ) is Some
}

/// Whether produced rows are those of a plan.
pub open spec fn follows_plan(plan: Seq<StreamPlan>, produced: Seq<ProducedRow>) -> bool {
    forall|i: int|
        0 <= i < produced.len() ==> (#[trigger] produced[i]).plan < plan.len()
            && produced[i].values@.len() == plan[produced[i].plan as int].outputs@.len()
}

/// The row of a bound stream that a produced row becomes; it is known no earlier than the
/// observation was received.
pub open spec fn row_of(
    plan: Seq<StreamPlan>,
    bound: Seq<StreamColumns>,
    row: ProducedRow,
    receipt_micros: i64,
) -> Option<RowView> {
    match bound_of(bound, plan[row.plan as int].stream) {
        Some(stream) => Some(
            RowView {
                stream,
                close_time_micros: row.close_time_micros,
                known_at_micros: if row.known_at_micros >= receipt_micros {
                    row.known_at_micros
                } else {
                    receipt_micros
                },
                values: column_values(
                    bound[stream].columns@,
                    plan[row.plan as int].outputs@,
                    row.values@,
                ),
            },
        ),
        None => None,
    }
}

/// The rows of bound streams among the first `count` produced rows.
pub open spec fn bound_rows(
    plan: Seq<StreamPlan>,
    bound: Seq<StreamColumns>,
    produced: Seq<ProducedRow>,
    receipt_micros: i64,
    count: nat,
) -> Seq<RowView>
    decreases count,
{
    if count == 0 {
        Seq::empty()
    } else {
        let before = bound_rows(plan, bound, produced, receipt_micros, (count - 1) as nat);
        match row_of(plan, bound, produced[count - 1], receipt_micros) {
            Some(row) => before.push(row),
            None => before,
        }
    }
}

fn find_bound(bound: &Vec<StreamColumns>, key: StreamKey) -> (found: Option<usize>)
    ensures
        found matches Some(at) ==> at < bound@.len() && bound_of(bound@, key) == Some(at as int)
            && bound@[at as int].stream == key,
        found is None ==> bound_of(bound@, key) is None,
{
    let ghost wanted = |stream: StreamColumns| stream.stream == key;
    let mut i: usize = 0;
    while i < bound.len()
        invariant
            i <= bound@.len(),
            wanted == (|stream: StreamColumns| stream.stream == key),
            forall|j: int| 0 <= j < i ==> !wanted(#[trigger] bound@[j]),
        decreases bound@.len() - i,
    {
        if bound[i].stream == key {
            proof {
                first_where_found(bound@, wanted, i as int);
            }
            return Some(i);
        }
        i = i + 1;
    }
    proof {
        first_where_absent(bound@, wanted);
    }
    None
}

fn pick_values(
    columns: &Vec<ColumnSpec>,
    outputs: &Vec<String>,
    values: &Vec<Option<FeatureValue>>,
) -> (picked: Vec<Option<FeatureValue>>)
    requires
        values@.len() == outputs@.len(),
        forall|c: int|
            0 <= c < columns@.len() ==> position_of(
                outputs@,
                (#[trigger] columns@[c]).source@,
            ) is Some,
    ensures
        picked@ == column_values(columns@, outputs@, values@),
{
    let mut picked: Vec<Option<FeatureValue>> = Vec::new();
    let mut i: usize = 0;
    while i < columns.len()
        invariant
            i <= columns@.len(),
            values@.len() == outputs@.len(),
            forall|c: int|
                0 <= c < columns@.len() ==> position_of(
                    outputs@,
                    (#[trigger] columns@[c]).source@,
                ) is Some,
            picked@ == column_values(columns@, outputs@, values@).take(i as int),
        decreases columns@.len() - i,
    {
        let ghost wanted = columns@[i as int];
        assert(position_of(outputs@, wanted.source@) is Some);
        let ghost before = picked@;
        if let Some(at) = position(outputs, columns[i].source.as_str()) {
            let value = match &values[at] {
                Some(value) => Some(value.clone()),
                None => None,
            };
            picked.push(value);
            assert(picked@ =~= column_values(columns@, outputs@, values@).take(i + 1));
        }
        i = i + 1;
    }
    assert(picked@ =~= column_values(columns@, outputs@, values@));
    picked
}

/// The rows of bound streams among the rows that an observation yields.
pub fn select_rows(
    plan: &Vec<StreamPlan>,
    bound: &Vec<StreamColumns>,
    produced: &Vec<ProducedRow>,
    receipt_micros: i64,
) -> (rows: Vec<Row>)
    requires
        sources_bound(plan@, bound@),
        follows_plan(plan@, produced@),
    ensures
        row_views(rows@) == bound_rows(
            plan@,
            bound@,
            produced@,
            receipt_micros,
            produced@.len(),
        ),
        forall|i: int|
            0 <= i < rows@.len() ==> (#[trigger] rows@[i]).stream < bound@.len()
                && rows@[i].values@.len() == bound@[rows@[i].stream as int].columns@.len(),
{
    let mut rows: Vec<Row> = Vec::new();
    let mut i: usize = 0;
    assert(row_views(rows@) =~= bound_rows(plan@, bound@, produced@, receipt_micros, 0));
    while i < produced.len()
        invariant
            i <= produced@.len(),
            sources_bound(plan@, bound@),
            follows_plan(plan@, produced@),
            row_views(rows@) == bound_rows(
                plan@,
                bound@,
                produced@,
                receipt_micros,
                i as nat,
            ),
            forall|j: int|
                0 <= j < rows@.len() ==> (#[trigger] rows@[j]).stream < bound@.len()
                    && rows@[j].values@.len() == bound@[rows@[j].stream as int].columns@.len(),
        decreases produced@.len() - i,
    {
        let row = &produced[i];
        let ghost before = row_views(rows@);
        if let Some(stream) = find_bound(bound, plan[row.plan].stream) {
            assert forall|c: int| 0 <= c < bound@[stream as int].columns@.len() implies position_of(
                plan@[row.plan as int].outputs@,
                (#[trigger] bound@[stream as int].columns@[c]).source@,
            ) is Some by {
                assert(plan@[row.plan as int].stream == bound@[stream as int].stream);
            }
            let values = pick_values(
                &bound[stream].columns,
                &plan[row.plan].outputs,
                &row.values,
            );
            let known_at: i64 = if row.known_at_micros >= receipt_micros {
                row.known_at_micros
            } else {
                receipt_micros
            };
            let next = Row {
                stream,
                close_time_micros: row.close_time_micros,
                known_at_micros: known_at,
                values,
            };
            rows.push(next);
            assert(row_views(rows@) =~= before.push(next@));
        }
        i = i + 1;
    }
    rows
}

/// A strategy by its identifier and the stream that it decides on.
#[derive(Debug)]
pub struct Strategy {
    pub id: String,
    pub base_stream: StreamKey,
}

/// The stream that a binding's strategy decides on.
pub open spec fn base_of(strategies: Seq<Strategy>, binding: Binding) -> Option<int> {
    first_where(strategies, |strategy: Strategy| strategy.id@ == binding.strategy@)
}

/// Whether every binding names a strategy.
pub open spec fn strategies_bound(strategies: Seq<Strategy>, bindings: Seq<Binding>) -> bool {
    forall|i: int| 0 <= i < bindings.len() ==> base_of(strategies, #[trigger] bindings[i]) is Some
}

fn find_base(strategies: &Vec<Strategy>, binding: &Binding) -> (found: Option<StreamKey>)
    ensures
        found == (match base_of(strategies@, *binding) {
            Some(at) => Some(strategies@[at].base_stream),
            None => None,
        }),
{
    let ghost wanted = |strategy: Strategy| strategy.id@ == binding.strategy@;
    let mut i: usize = 0;
    while i < strategies.len()
        invariant
            i <= strategies@.len(),
            wanted == (|strategy: Strategy| strategy.id@ == binding.strategy@),
            forall|j: int| 0 <= j < i ==> !wanted(#[trigger] strategies@[j]),
        decreases strategies@.len() - i,
    {
        if same_text(strategies[i].id.as_str(), binding.strategy.as_str()) {
            proof {
                first_where_found(strategies@, wanted, i as int);
            }
            return Some(strategies[i].base_stream);
        }
        i = i + 1;
    }
    proof {
        first_where_absent(strategies@, wanted);
    }
    None
}

/// Whether some row belongs to a stream, and is ready where that is asked.
pub open spec fn has_row(
    bound: Seq<StreamColumns>,
    rows: Seq<Row>,
    key: StreamKey,
    ready: bool,
) -> bool {
    exists|i: int|
        0 <= i < rows.len() && bound[(#[trigger] rows[i]).stream as int].stream == key && (ready
            ==> is_ready(bound[rows[i].stream as int].columns@, rows[i].values@))
}

/// Whether rows stand in bound streams, with a value for every column.
pub open spec fn rows_fit(bound: Seq<StreamColumns>, rows: Seq<Row>) -> bool {
    forall|i: int|
        0 <= i < rows.len() ==> (#[trigger] rows[i]).stream < bound.len() && rows[i].values@.len()
            == bound[rows[i].stream as int].columns@.len()
}

fn find_row(bound: &Vec<StreamColumns>, rows: &Vec<Row>, key: StreamKey, ready: bool) -> (found:
    bool)
    requires
        rows_fit(bound@, rows@),
    ensures
        found == has_row(bound@, rows@, key, ready),
{
    let mut i: usize = 0;
    while i < rows.len()
        invariant
            i <= rows@.len(),
            rows_fit(bound@, rows@),
            forall|j: int|
                0 <= j < i ==> !(bound@[(#[trigger] rows@[j]).stream as int].stream == key && (
                ready ==> is_ready(
                    bound@[rows@[j].stream as int].columns@,
                    rows@[j].values@,
                ))),
        decreases rows@.len() - i,
    {
        let stream: usize = rows[i].stream;
        if bound[stream].stream == key && (!ready || row_ready(&bound[stream], &rows[i].values)) {
            assert(bound@[rows@[i as int].stream as int].stream == key);
            return true;
        }
        i = i + 1;
    }
    false
}

/// Whether a binding of the instrument decides on one of the rows.
pub open spec fn decides(
    strategies: Seq<Strategy>,
    bound: Seq<StreamColumns>,
    rows: Seq<Row>,
    binding: Binding,
    instrument: Seq<char>,
    ready: bool,
) -> bool {
    binding.instrument@ == instrument && has_row(
        bound,
        rows,
        strategies[base_of(strategies, binding)->0].base_stream,
        ready,
    )
}

/// The bindings that decide on one of the rows, by their indices, among the first `count`.
pub open spec fn deciding(
    strategies: Seq<Strategy>,
    bound: Seq<StreamColumns>,
    rows: Seq<Row>,
    bindings: Seq<Binding>,
    instrument: Seq<char>,
    count: nat,
) -> Seq<int>
    decreases count,
{
    if count == 0 {
        Seq::empty()
    } else {
        let before = deciding(
            strategies,
            bound,
            rows,
            bindings,
            instrument,
            (count - 1) as nat,
        );
        if decides(strategies, bound, rows, bindings[count - 1], instrument, false) {
            before.push(count - 1)
        } else {
            before
        }
    }
}

/// Indices as integers.
pub open spec fn indices(list: Seq<usize>) -> Seq<int> {
    list.map_values(|at: usize| at as int)
}

/// The bindings for which a proposal is to be requested, by their indices.
pub fn requests(
    strategies: &Vec<Strategy>,
    bound: &Vec<StreamColumns>,
    rows: &Vec<Row>,
    bindings: &Vec<Binding>,
    instrument: &str,
) -> (list: Vec<usize>)
    requires
        rows_fit(bound@, rows@),
        strategies_bound(strategies@, bindings@),
    ensures
        indices(list@) == deciding(
            strategies@,
            bound@,
            rows@,
            bindings@,
            instrument@,
            bindings@.len(),
        ),
{
    let mut list: Vec<usize> = Vec::new();
    let mut i: usize = 0;
    assert(indices(list@) =~= deciding(
        strategies@,
        bound@,
        rows@,
        bindings@,
        instrument@,
        0,
    ));
    while i < bindings.len()
        invariant
            i <= bindings@.len(),
            rows_fit(bound@, rows@),
            strategies_bound(strategies@, bindings@),
            indices(list@) == deciding(
                strategies@,
                bound@,
                rows@,
                bindings@,
                instrument@,
                i as nat,
            ),
        decreases bindings@.len() - i,
    {
        let ghost before = indices(list@);
        let binding = &bindings[i];
        assert(base_of(strategies@, bindings@[i as int]) is Some);
        if same_text(binding.instrument.as_str(), instrument) {
            if let Some(key) = find_base(strategies, binding) {
                if find_row(bound, rows, key, false) {
                    list.push(i);
                    assert(indices(list@) =~= before.push(i as int));
                }
            }
        }
        i = i + 1;
    }
    list
}

/// Whether every binding of the instrument has a ready row of its base stream.
pub open spec fn instrument_ready(
    strategies: Seq<Strategy>,
    bound: Seq<StreamColumns>,
    rows: Seq<Row>,
    bindings: Seq<Binding>,
    instrument: Seq<char>,
) -> bool {
    forall|i: int|
        0 <= i < bindings.len() && (#[trigger] bindings[i]).instrument@ == instrument ==> decides(
            strategies,
            bound,
            rows,
            bindings[i],
            instrument,
            true,
        )
}

/// Whether every binding of the instrument has a ready row of its base stream.
pub fn base_rows_ready(
    strategies: &Vec<Strategy>,
    bound: &Vec<StreamColumns>,
    rows: &Vec<Row>,
    bindings: &Vec<Binding>,
    instrument: &str,
) -> (ready: bool)
    requires
        rows_fit(bound@, rows@),
        strategies_bound(strategies@, bindings@),
    ensures
        ready == instrument_ready(strategies@, bound@, rows@, bindings@, instrument@),
{
    let mut i: usize = 0;
    while i < bindings.len()
        invariant
            i <= bindings@.len(),
            rows_fit(bound@, rows@),
            strategies_bound(strategies@, bindings@),
            forall|j: int|
                0 <= j < i && (#[trigger] bindings@[j]).instrument@ == instrument@ ==> decides(
                    strategies@,
                    bound@,
                    rows@,
                    bindings@[j],
                    instrument@,
                    true,
                ),
        decreases bindings@.len() - i,
    {
        let binding = &bindings[i];
        assert(base_of(strategies@, bindings@[i as int]) is Some);
        if same_text(binding.instrument.as_str(), instrument) {
            let found: bool = match find_base(strategies, binding) {
                Some(key) => find_row(bound, rows, key, true),
                None => false,
            };
            if !found {
                assert(!decides(
                    strategies@,
                    bound@,
                    rows@,
                    bindings@[i as int],
                    instrument@,
                    true,
                ));
                return false;
            }
        }
        i = i + 1;
    }
    true
}

/// The whole seconds of a duration, where they can be requested.
pub open spec fn seconds_of(duration_micros: i64) -> Option<u32> {
    if duration_micros >= 0 && duration_micros as int / 1_000_000 <= u32::MAX {
        Some((duration_micros as int / 1_000_000) as u32)
    } else if -1_000_000 < duration_micros < 0 {
        Some(0)
    } else {
        None
    }
}

/// The whole seconds of a duration, where they fit.
pub fn whole_seconds(duration_micros: i64) -> (seconds: Option<u32>)
    ensures
        seconds == seconds_of(duration_micros),
{
    if duration_micros >= 0 {
        let seconds: i64 = duration_micros / 1_000_000;
        if seconds <= 4_294_967_295 {
            return Some(seconds as u32);
        }
    } else if duration_micros > -1_000_000 {
        return Some(0);
    }
    None
}

/// Which instruments are warm.
#[derive(Debug)]
pub struct Warmth {
    pub warm: Vec<bool>,
}

/// Whether every instrument is warm.
pub open spec fn all_warm(warm: Seq<bool>) -> bool {
    forall|i: int| 0 <= i < warm.len() ==> #[trigger] warm[i]
}

impl Warmth {
    /// No instrument is warm yet.
    pub fn cold(instruments: usize) -> (warmth: Warmth)
        ensures
            warmth.warm@ == Seq::new(instruments as nat, |i: int| false),
    {
        let mut warm: Vec<bool> = Vec::new();
        while warm.len() < instruments
            invariant
                warm@.len() <= instruments,
                forall|i: int| 0 <= i < warm@.len() ==> !(#[trigger] warm@[i]),
            decreases instruments - warm@.len(),
        {
            warm.push(false);
        }
        assert(warm@ =~= Seq::new(instruments as nat, |i: int| false));
        Warmth { warm }
    }

    /// Whether every instrument is warm.
    pub fn complete(&self) -> (complete: bool)
        ensures
            complete == all_warm(self.warm@),
    {
        let mut i: usize = 0;
        while i < self.warm.len()
            invariant
                i <= self.warm@.len(),
                forall|j: int| 0 <= j < i ==> #[trigger] self.warm@[j],
            decreases self.warm@.len() - i,
        {
            if !self.warm[i] {
                assert(!self.warm@[i as int]);
                return false;
            }
            i = i + 1;
        }
        true
    }

    /// The stream of observations broke: every instrument is cold again.
    pub fn broken(&mut self, vetoes: &mut Vetoes)
        ensures
            final(self).warm@ == Seq::new(old(self).warm@.len(), |i: int| false),
            final(vetoes)@ == after_veto(
                after_veto(old(vetoes)@, CONTINUITY@, true),
                WARMUP@,
                true,
            ),
    {
        vetoes.set(CONTINUITY, true);
        let cold = Warmth::cold(self.warm.len());
        self.warm = cold.warm;
        vetoes.set(WARMUP, true);
    }

    /// An instrument was observed; with ready base rows it is warm. Only when all are does
    /// continuity hold again.
    pub fn observed(&mut self, vetoes: &mut Vetoes, instrument: usize, ready: bool)
        requires
            instrument < old(self).warm@.len(),
        ensures
            final(self).warm@ == (if ready {
                old(self).warm@.update(instrument as int, true)
            } else {
                old(self).warm@
            }),
            final(vetoes)@ == ({
                let warmed = after_veto(old(vetoes)@, WARMUP@, !all_warm(final(self).warm@));
                if all_warm(final(self).warm@) {
                    after_veto(warmed, CONTINUITY@, false)
                } else {
                    warmed
                }
            }),
    {
        if ready {
            self.warm.set(instrument, true);
        }
        let complete: bool = self.complete();
        vetoes.set(WARMUP, !complete);
        if complete {
            vetoes.set(CONTINUITY, false);
        }
    }
}

/// After a break no entry is made until every bound instrument has shown a ready base row: as
/// long as one has not, observations of the others leave the veto in force.
pub proof fn a_break_needs_every_instrument_warm_again(
    before: Seq<bool>,
    vetoes: Set<Seq<char>>,
    instrument: int,
    cold: int,
    ready: bool,
)
    requires
        0 <= instrument < before.len(),
        0 <= cold < before.len(),
        cold != instrument || !ready,
        !before[cold],
    ensures
        ({
            let after = if ready {
                before.update(instrument, true)
            } else {
                before
            };
            &&& !after[cold]
            &&& after_veto(vetoes, WARMUP@, !all_warm(after)).contains(WARMUP@)
        }),
{
    let after = if ready {
        before.update(instrument, true)
    } else {
        before
    };
    assert(!after[cold]);
}

/// What is handed to the execution engine.
#[derive(Debug)]
pub enum Observation {
    Proposal { binding: String, proposal: Proposal },
    Row { instrument: usize, row: Row },
}

/// Rows that wait for the proposals of their bindings.
#[derive(Debug)]
pub struct PendingRows {
    pub instrument: usize,
    pub close_micros: i64,
    pub bindings: Table<()>,
    pub observations: Vec<Observation>,
    pub receipt_micros: i64,
}

/// The latest close of some rows.
pub open spec fn latest_close(rows: Seq<Row>) -> i64
    recommends
        rows.len() > 0,
    decreases rows.len(),
{
    if rows.len() <= 1 {
        rows[0].close_time_micros
    } else {
        let before = latest_close(rows.drop_last());
        if rows.last().close_time_micros >= before {
            rows.last().close_time_micros
        } else {
            before
        }
    }
}

fn last_close(rows: &Vec<Row>) -> (close: i64)
    requires
        rows@.len() > 0,
    ensures
        close == latest_close(rows@),
{
    let mut close: i64 = rows[0].close_time_micros;
    let mut i: usize = 1;
    assert(latest_close(rows@.take(1)) == close);
    while i < rows.len()
        invariant
            1 <= i <= rows@.len(),
            close == latest_close(rows@.take(i as int)),
        decreases rows@.len() - i,
    {
        assert(rows@.take(i + 1).drop_last() =~= rows@.take(i as int));
        if rows[i].close_time_micros >= close {
            close = rows[i].close_time_micros;
        }
        i = i + 1;
    }
    assert(rows@.take(i as int) =~= rows@);
    close
}

/// The names of bindings at some indices.
pub open spec fn binding_names(bindings: Seq<Binding>, list: Seq<usize>) -> Set<Seq<char>> {
    Set::new(
        |name: Seq<char>|
            exists|i: int| 0 <= i < list.len() && bindings[#[trigger] list[i] as int].id@ == name,
    )
}

/// The rows of an observation as they wait for proposals; a run that drains waits for none.
pub fn pending(
    instrument: usize,
    rows: Vec<Row>,
    bindings: &Vec<Binding>,
    list: &Vec<usize>,
    draining: bool,
    receipt_micros: i64,
) -> (pending: PendingRows)
    requires
        rows@.len() > 0,
        forall|i: int| 0 <= i < list@.len() ==> #[trigger] list@[i] < bindings@.len(),
    ensures
        pending.instrument == instrument,
        pending.close_micros == latest_close(rows@),
        pending.receipt_micros == receipt_micros,
        pending.bindings@.dom() == (if draining {
            Set::empty()
        } else {
            binding_names(bindings@, list@)
        }),
        pending.observations@.len() == rows@.len(),
        forall|i: int|
            0 <= i < rows@.len() ==> #[trigger] pending.observations@[i] == (Observation::Row {
                instrument,
                row: rows@[i],
            }),
{
    let close_micros: i64 = last_close(&rows);
    let mut waiting: Table<()> = Table::new();
    assert(waiting@.dom() =~= Set::empty());
    if !draining {
        let mut i: usize = 0;
        assert(waiting@.dom() =~= binding_names(bindings@, list@.take(0)));
        while i < list.len()
            invariant
                i <= list@.len(),
                forall|j: int| 0 <= j < list@.len() ==> #[trigger] list@[j] < bindings@.len(),
                waiting@.dom() == binding_names(bindings@, list@.take(i as int)),
            decreases list@.len() - i,
        {
            let ghost before = list@.take(i as int);
            let ghost after = list@.take(i + 1);
            let id = bindings[list[i]].id.clone();
            waiting.insert(id, ());
            assert forall|name: Seq<char>|
                binding_names(bindings@, after).contains(name) == waiting@.dom().contains(
                    name,
                ) by {
                if binding_names(bindings@, before).contains(name) {
                    let j = choose|j: int|
                        0 <= j < before.len() && bindings@[#[trigger] before[j] as int].id@
                            == name;
                    assert(bindings@[after[j] as int].id@ == name);
                }
                if binding_names(bindings@, after).contains(name) {
                    let j = choose|j: int|
                        0 <= j < after.len() && bindings@[#[trigger] after[j] as int].id@ == name;
                    if j < i {
                        assert(bindings@[before[j] as int].id@ == name);
                    }
                }
                assert(bindings@[after[i as int] as int].id@ == id@);
            }
            i = i + 1;
            assert(waiting@.dom() =~= binding_names(bindings@, list@.take(i as int)));
        }
        assert(list@.take(i as int) =~= list@);
    }
    let ghost all = rows@;
    let mut observations: Vec<Observation> = Vec::new();
    let mut rest = rows;
    while rest.len() > 0
        invariant
            observations@.len() + rest@.len() == all.len(),
            rest@ == all.skip(observations@.len() as int),
            forall|i: int|
                0 <= i < observations@.len() ==> #[trigger] observations@[i] == (Observation::Row {
                    instrument,
                    row: all[i],
                }),
        decreases rest@.len(),
    {
        let row = rest.remove(0);
        assert(row == all[observations@.len() as int]);
        observations.push(Observation::Row { instrument, row });
        assert(rest@ =~= all.skip(observations@.len() as int));
    }
    PendingRows { instrument, close_micros, bindings: waiting, observations, receipt_micros }
}

/// The largest feature age that a binding of the instrument allows, among the first `count`.
pub open spec fn age_limit(
    bindings: Seq<Binding>,
    risks: Seq<RiskPolicy>,
    instrument: Seq<char>,
    count: nat,
) -> Option<i64>
    decreases count,
{
    if count == 0 {
        None
    } else {
        let before = age_limit(bindings, risks, instrument, (count - 1) as nat);
        let binding = bindings[count - 1];
        let risk = risk_at(risks, binding.risk_policy@);
        if binding.instrument@ != instrument || risk is None {
            before
        } else {
            let age = risks[risk->0].max_feature_age_micros;
            match before {
                Some(largest) => Some(if age >= largest {
                    age
                } else {
                    largest
                }),
                None => Some(age),
            }
        }
    }
}

/// The risk policy of a name.
pub open spec fn risk_at(risks: Seq<RiskPolicy>, id: Seq<char>) -> Option<int> {
    first_where(risks, |risk: RiskPolicy| risk.id@ == id)
}

/// The risk policy of a name.
pub fn find_risk(risks: &Vec<RiskPolicy>, id: &str) -> (found: Option<usize>)
    ensures
        found matches Some(at) ==> at < risks@.len() && risk_at(risks@, id@) == Some(at as int),
        found is None ==> risk_at(risks@, id@) is None,
{
    let ghost wanted = |risk: RiskPolicy| risk.id@ == id@;
    let mut i: usize = 0;
    while i < risks.len()
        invariant
            i <= risks@.len(),
            wanted == (|risk: RiskPolicy| risk.id@ == id@),
            forall|j: int| 0 <= j < i ==> !wanted(#[trigger] risks@[j]),
        decreases risks@.len() - i,
    {
        if same_text(risks[i].id.as_str(), id) {
            proof {
                first_where_found(risks@, wanted, i as int);
            }
            return Some(i);
        }
        i = i + 1;
    }
    proof {
        first_where_absent(risks@, wanted);
    }
    None
}

/// How old a row of an instrument may become: zero where no binding says.
pub open spec fn max_age(
    bindings: Seq<Binding>,
    risks: Seq<RiskPolicy>,
    instrument: Seq<char>,
) -> i64 {
    match age_limit(bindings, risks, instrument, bindings.len()) {
        Some(age) => age,
        None => 0,
    }
}

/// How old a row of an instrument may become.
pub fn row_age_limit(bindings: &Vec<Binding>, risks: &Vec<RiskPolicy>, instrument: &str) -> (age:
    i64)
    ensures
        age == max_age(bindings@, risks@, instrument@),
{
    let mut largest: Option<i64> = None;
    let mut i: usize = 0;
    while i < bindings.len()
        invariant
            i <= bindings@.len(),
            largest == age_limit(bindings@, risks@, instrument@, i as nat),
        decreases bindings@.len() - i,
    {
        if same_text(bindings[i].instrument.as_str(), instrument) {
            if let Some(at) = find_risk(risks, bindings[i].risk_policy.as_str()) {
                let age: i64 = risks[at].max_feature_age_micros;
                largest = match largest {
                    Some(before) => Some(if age >= before { age } else { before }),
                    None => Some(age),
                };
            }
        }
        i = i + 1;
    }
    match largest {
        Some(age) => age,
        None => 0,
    }
}

/// Whether rows are young enough to decide on.
pub open spec fn is_fresh(
    rows: PendingRows,
    instruments: Seq<String>,
    bindings: Seq<Binding>,
    risks: Seq<RiskPolicy>,
    now: i64,
) -> bool {
    clamped(now - rows.close_micros) <= max_age(
        bindings,
        risks,
        instruments[rows.instrument as int]@,
    )
}

/// Whether pending rows are those of bound instruments.
pub open spec fn of_instruments(pending: Seq<PendingRows>, instruments: Seq<String>) -> bool {
    forall|i: int| 0 <= i < pending.len() ==> (#[trigger] pending[i]).instrument < instruments.len()
}

/// Drops rows that are too old to decide on.
pub fn prune_rows(
    pending: &mut Vec<PendingRows>,
    instruments: &Vec<String>,
    bindings: &Vec<Binding>,
    risks: &Vec<RiskPolicy>,
    now: i64,
)
    requires
        of_instruments(old(pending)@, instruments@),
    ensures
        final(pending)@ == old(pending)@.filter(
            |rows: PendingRows| is_fresh(rows, instruments@, bindings@, risks@, now),
        ),
        of_instruments(final(pending)@, instruments@),
{
    let ghost all = pending@;
    let ghost fresh = |rows: PendingRows|
        is_fresh(rows, instruments@, bindings@, risks@, now);
    let mut kept: Vec<PendingRows> = Vec::new();
    let ghost mut done: int = 0;
    assert(all.take(0).filter(fresh) =~= Seq::empty()) by {
        reveal(Seq::filter);
    }
    while pending.len() > 0
        invariant
            0 <= done <= all.len(),
            pending@ == all.skip(done),
            fresh == (|rows: PendingRows|
                is_fresh(rows, instruments@, bindings@, risks@, now)),
            of_instruments(all, instruments@),
            of_instruments(kept@, instruments@),
            kept@ == all.take(done).filter(fresh),
        decreases pending@.len(),
    {
        let rows = pending.remove(0);
        assert(rows == all[done]);
        let limit: i64 = row_age_limit(bindings, risks, instruments[rows.instrument].as_str());
        proof {
            assert(all.take(done + 1) =~= all.take(done).push(rows));
            all.take(done).lemma_filter_push(rows, fresh);
            assert(pending@ =~= all.skip(done + 1));
        }
        if saturating_difference(now, rows.close_micros) <= limit {
            kept.push(rows);
        }
        proof {
            done = done + 1;
        }
    }
    assert(all.take(done) =~= all);
    *pending = kept;
}

/// Whether pending rows took the answer to a request of a binding: they wait for it no longer,
/// and a proposal that came stands before all else that is handed to the engine.
pub open spec fn took_answer(
    before: PendingRows,
    after: PendingRows,
    binding: Seq<char>,
    offered: Option<Proposal>,
) -> bool {
    &&& after.instrument == before.instrument
    &&& after.close_micros == before.close_micros
    &&& after.receipt_micros == before.receipt_micros
    &&& after.bindings@.dom() == before.bindings@.dom().remove(binding)
    &&& if before.bindings@.dom().contains(binding) && offered is Some {
        &&& after.observations@.len() == before.observations@.len() + 1
        &&& after.observations@[0] matches Observation::Proposal { binding: id, proposal }
        &&& id@ == binding
        &&& proposal == offered->0
        &&& after.observations@.skip(1) == before.observations@
    } else {
        after.observations@ == before.observations@
    }
}

fn take_answer(rows: PendingRows, binding: &str, offered: &Option<Proposal>) -> (after: PendingRows)
    ensures
        took_answer(rows, after, binding@, *offered),
{
    let ghost before = rows;
    let mut waiting = rows.bindings;
    let mut observations = rows.observations;
    let waited: bool = waiting.remove(binding).is_some();
    if waited {
        if let Some(proposal) = offered {
            observations.insert(
                0,
                Observation::Proposal { binding: binding.to_owned(), proposal: proposal.clone() },
            );
            assert(observations@.skip(1) =~= before.observations@);
        }
    }
    assert(waiting@.dom() =~= before.bindings@.dom().remove(binding@));
    PendingRows {
        instrument: rows.instrument,
        close_micros: rows.close_micros,
        bindings: waiting,
        observations,
        receipt_micros: rows.receipt_micros,
    }
}

/// Hands the answer to a request of a binding to every row that waits for it.
pub fn proposal_ready(pending: &mut Vec<PendingRows>, binding: &str, offered: &Option<Proposal>)
    ensures
        final(pending)@.len() == old(pending)@.len(),
        forall|i: int|
            0 <= i < old(pending)@.len() ==> took_answer(
                #[trigger] old(pending)@[i],
                final(pending)@[i],
                binding@,
                *offered,
            ),
{
    let ghost all = pending@;
    let mut answered: Vec<PendingRows> = Vec::new();
    while pending.len() > 0
        invariant
            answered@.len() + pending@.len() == all.len(),
            pending@ == all.skip(answered@.len() as int),
            forall|i: int|
                0 <= i < answered@.len() ==> took_answer(
                    #[trigger] all[i],
                    answered@[i],
                    binding@,
                    *offered,
                ),
        decreases pending@.len(),
    {
        let rows = pending.remove(0);
        assert(rows == all[answered@.len() as int]);
        answered.push(take_answer(rows, binding, offered));
        assert(pending@ =~= all.skip(answered@.len() as int));
    }
    *pending = answered;
}

/// Takes the next rows to decide on: the oldest, once they wait for nothing. While an
/// authorization is awaited nothing is decided, unless the run drains.
pub fn next_ready(
    pending: &mut Vec<PendingRows>,
    authorization_pending: bool,
    draining: bool,
) -> (ready: Option<PendingRows>)
    ensures
        ({
            let open = (!authorization_pending || draining) && old(pending)@.len() > 0 && old(
                pending,
            )@[0].bindings@.dom() == Set::<Seq<char>>::empty();
            &&& ready == (if open {
                Some(old(pending)@[0])
            } else {
                None
            })
            &&& final(pending)@ == (if open {
                old(pending)@.skip(1)
            } else {
                old(pending)@
            })
        }),
{
    if authorization_pending && !draining {
        return None;
    }
    if pending.len() == 0 || !pending[0].bindings.is_empty() {
        return None;
    }
    let ghost all = pending@;
    let rows = pending.remove(0);
    assert(pending@ =~= all.skip(1));
    Some(rows)
}

/// Lets rows wait for nothing: a run that shuts down asks for no more proposals.
pub fn clear_waits(pending: &mut Vec<PendingRows>)
    ensures
        final(pending)@.len() == old(pending)@.len(),
        forall|i: int|
            0 <= i < final(pending)@.len() ==> {
                let after = #[trigger] final(pending)@[i];
                let before = old(pending)@[i];
                &&& after.instrument == before.instrument
                &&& after.close_micros == before.close_micros
                &&& after.receipt_micros == before.receipt_micros
                &&& after.observations == before.observations
                &&& after.bindings@.dom() == Set::<Seq<char>>::empty()
            },
{
    let ghost all = pending@;
    let mut cleared: Vec<PendingRows> = Vec::new();
    while pending.len() > 0
        invariant
            cleared@.len() + pending@.len() == all.len(),
            pending@ == all.skip(cleared@.len() as int),
            forall|i: int|
                0 <= i < cleared@.len() ==> {
                    let after = #[trigger] cleared@[i];
                    let before = all[i];
                    &&& after.instrument == before.instrument
                    &&& after.close_micros == before.close_micros
                    &&& after.receipt_micros == before.receipt_micros
                    &&& after.observations == before.observations
                    &&& after.bindings@.dom() == Set::<Seq<char>>::empty()
                },
        decreases pending@.len(),
    {
        let rows = pending.remove(0);
        let bindings: Table<()> = Table::new();
        assert(bindings@.dom() =~= Set::<Seq<char>>::empty());
        cleared.push(
            PendingRows {
                instrument: rows.instrument,
                close_micros: rows.close_micros,
                bindings,
                observations: rows.observations,
                receipt_micros: rows.receipt_micros,
            },
        );
        assert(pending@ =~= all.skip(cleared@.len() as int));
    }
    *pending = cleared;
}

} // verus!
