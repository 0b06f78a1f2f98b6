//! The tables of a feature generation: their fixed columns, the values of events, and the
//! metadata of every table.

use crate::text::{decimal, decimal_text};
use vstd::prelude::*;
use vstd::string::*;

verus! {

pub const ROWS_MESSAGE: &'static str = "binary_alpha_feature_rows";

pub const STRUCTURE_MESSAGE: &'static str = "binary_alpha_structure_events";

pub const SEQUENCE_MESSAGE: &'static str = "binary_alpha_sequence_events";

pub const ENCODED_MESSAGE: &'static str = "binary_alpha_encoded_rows";

/// What a column holds.
#[derive(Debug, Clone, Copy, PartialEq, Eq, Structural)]
pub enum ColumnType {
    Int16,
    Int64,
    Text,
    Time,
}

/// One column of a table.
#[derive(Debug)]
pub struct TableColumn {
    pub name: String,
    pub ty: ColumnType,
}

impl TableColumn {
    /// A column of a name.
    pub fn new(name: &str, ty: ColumnType) -> (column: TableColumn)
        ensures
            column.name@ == name@,
            column.ty == ty,
    {
        TableColumn { name: name.to_owned(), ty }
    }
}

/// The names and types of columns.
pub open spec fn column_views(columns: Seq<TableColumn>) -> Seq<(Seq<char>, ColumnType)> {
    columns.map_values(|column: TableColumn| (column.name@, column.ty))
}

/// The fixed columns of the table of structure events.
pub open spec fn structure_layout() -> Seq<(Seq<char>, ColumnType)> {
    seq![
        ("event_id"@, ColumnType::Int64),
        ("event_type"@, ColumnType::Text),
        ("event_direction"@, ColumnType::Text),
        ("event_close_micros"@, ColumnType::Time),
        ("confirm_close_micros"@, ColumnType::Time),
        ("known_at_micros"@, ColumnType::Time),
        ("event_row"@, ColumnType::Int64),
        ("confirm_row"@, ColumnType::Int64),
        ("event_candle_ordinal"@, ColumnType::Int64),
        ("confirm_candle_ordinal"@, ColumnType::Int64),
        ("price_units"@, ColumnType::Int64),
        ("level_units"@, ColumnType::Int64),
        ("reference"@, ColumnType::Text),
        ("reference_close_micros"@, ColumnType::Time),
    ]
}

/// The fixed columns of the table of structure events.
pub fn structure_columns() -> (columns: Vec<TableColumn>)
    ensures
        column_views(columns@) == structure_layout(),
{
    let mut columns: Vec<TableColumn> = Vec::new();
    columns.push(TableColumn::new("event_id", ColumnType::Int64));
    columns.push(TableColumn::new("event_type", ColumnType::Text));
    columns.push(TableColumn::new("event_direction", ColumnType::Text));
    columns.push(TableColumn::new("event_close_micros", ColumnType::Time));
    columns.push(TableColumn::new("confirm_close_micros", ColumnType::Time));
    columns.push(TableColumn::new("known_at_micros", ColumnType::Time));
    columns.push(TableColumn::new("event_row", ColumnType::Int64));
    columns.push(TableColumn::new("confirm_row", ColumnType::Int64));
    columns.push(TableColumn::new("event_candle_ordinal", ColumnType::Int64));
    columns.push(TableColumn::new("confirm_candle_ordinal", ColumnType::Int64));
    columns.push(TableColumn::new("price_units", ColumnType::Int64));
    columns.push(TableColumn::new("level_units", ColumnType::Int64));
    columns.push(TableColumn::new("reference", ColumnType::Text));
    columns.push(TableColumn::new("reference_close_micros", ColumnType::Time));
    assert(column_views(columns@) =~= structure_layout());
    columns
}

/// The fixed columns of the table of sequence events.
pub open spec fn sequence_layout() -> Seq<(Seq<char>, ColumnType)> {
    seq![
        ("event_id"@, ColumnType::Int64),
        ("row"@, ColumnType::Int64),
        ("candle_ordinal"@, ColumnType::Int64),
        ("decision_close_micros"@, ColumnType::Time),
        ("known_at_micros"@, ColumnType::Time),
        ("swing_event_type"@, ColumnType::Text),
        ("swing_type"@, ColumnType::Text),
        ("swing_price_units"@, ColumnType::Int64),
        ("swing_event_close_micros"@, ColumnType::Time),
        ("swing_confirm_close_micros"@, ColumnType::Time),
        ("previous_price_units"@, ColumnType::Int64),
        ("previous_event_close_micros"@, ColumnType::Time),
        ("previous_confirm_close_micros"@, ColumnType::Time),
        ("sequence_after"@, ColumnType::Text),
        ("bias_after"@, ColumnType::Text),
    ]
}

/// The fixed columns of the table of sequence events.
pub fn sequence_columns() -> (columns: Vec<TableColumn>)
    ensures
        column_views(columns@) == sequence_layout(),
{
    let mut columns: Vec<TableColumn> = Vec::new();
    columns.push(TableColumn::new("event_id", ColumnType::Int64));
    columns.push(TableColumn::new("row", ColumnType::Int64));
    columns.push(TableColumn::new("candle_ordinal", ColumnType::Int64));
    columns.push(TableColumn::new("decision_close_micros", ColumnType::Time));
    columns.push(TableColumn::new("known_at_micros", ColumnType::Time));
    columns.push(TableColumn::new("swing_event_type", ColumnType::Text));
    columns.push(TableColumn::new("swing_type", ColumnType::Text));
    columns.push(TableColumn::new("swing_price_units", ColumnType::Int64));
    columns.push(TableColumn::new("swing_event_close_micros", ColumnType::Time));
    columns.push(TableColumn::new("swing_confirm_close_micros", ColumnType::Time));
    columns.push(TableColumn::new("previous_price_units", ColumnType::Int64));
    columns.push(TableColumn::new("previous_event_close_micros", ColumnType::Time));
    columns.push(TableColumn::new("previous_confirm_close_micros", ColumnType::Time));
    columns.push(TableColumn::new("sequence_after", ColumnType::Text));
    columns.push(TableColumn::new("bias_after", ColumnType::Text));
    assert(column_views(columns@) =~= sequence_layout());
    columns
}

/// A value of an event's row.
#[derive(Debug)]
pub enum Cell {
    Int(i64),
    Text(String),
    Time(i64),
}

/// What a cell holds.
pub enum CellView {
    Int(i64),
    Text(Seq<char>),
    Time(i64),
}

/// What an optional cell holds.
pub open spec fn cell_view(cell: Option<Cell>) -> Option<CellView> {
    match cell {
        Some(Cell::Int(value)) => Some(CellView::Int(value)),
        Some(Cell::Text(text)) => Some(CellView::Text(text@)),
        Some(Cell::Time(micros)) => Some(CellView::Time(micros)),
        None => None,
    }
}

/// What cells hold.
pub open spec fn cell_views(cells: Seq<Option<Cell>>) -> Seq<Option<CellView>> {
    cells.map_values(|cell: Option<Cell>| cell_view(cell))
}

/// A structure event.
#[derive(Debug)]
pub struct StructureEvent {
    pub event_id: u64,
    pub event_type: &'static str,
    pub direction: &'static str,
    pub event_close_micros: i64,
    pub confirm_close_micros: i64,
    pub known_at_micros: i64,
    pub event_row: u64,
    pub confirm_row: u64,
    pub event_candle_ordinal: u64,
    pub confirm_candle_ordinal: u64,
    pub price_units: i64,
    pub level_units: i64,
    pub reference: &'static str,
    pub reference_close_micros: Option<i64>,
}

/// A sequence event.
#[derive(Debug)]
pub struct SequenceEvent {
    pub event_id: u64,
    pub row: u64,
    pub candle_ordinal: u64,
    pub decision_close_micros: i64,
    pub known_at_micros: i64,
    pub swing_event_type: &'static str,
    pub swing_type: &'static str,
    pub swing_price_units: i64,
    pub swing_event_close_micros: i64,
    pub swing_confirm_close_micros: i64,
    pub previous_price_units: Option<i64>,
    pub previous_event_close_micros: Option<i64>,
    pub previous_confirm_close_micros: Option<i64>,
    pub sequence_after: &'static str,
    pub bias_after: &'static str,
}

/// An optional time as a cell.
pub open spec fn time_view(micros: Option<i64>) -> Option<CellView> {
    match micros {
        Some(micros) => Some(CellView::Time(micros)),
        None => None,
    }
}

/// An optional number as a cell.
pub open spec fn int_view(value: Option<i64>) -> Option<CellView> {
    match value {
        Some(value) => Some(CellView::Int(value)),
        None => None,
    }
}

fn time_cell(micros: Option<i64>) -> (cell: Option<Cell>)
    ensures
        cell_view(cell) == time_view(micros),
{
    match micros {
        Some(micros) => Some(Cell::Time(micros)),
        None => None,
    }
}

fn int_cell(value: Option<i64>) -> (cell: Option<Cell>)
    ensures
        cell_view(cell) == int_view(value),
{
    match value {
        Some(value) => Some(Cell::Int(value)),
        None => None,
    }
}

fn text_cell(text: &'static str) -> (cell: Option<Cell>)
    ensures
        cell_view(cell) == Some(CellView::Text(text@)),
{
    Some(Cell::Text(text.to_owned()))
}

fn count_cell(value: u64) -> (cell: Option<Cell>)
    ensures
        cell_view(cell) == Some(CellView::Int(value as i64)),
{
    Some(Cell::Int(value as i64))
}

/// The row of a structure event.
pub open spec fn structure_row(event: StructureEvent) -> Seq<Option<CellView>> {
    seq![
        Some(CellView::Int(event.event_id as i64)),
        Some(CellView::Text(event.event_type@)),
        Some(CellView::Text(event.direction@)),
        Some(CellView::Time(event.event_close_micros)),
        Some(CellView::Time(event.confirm_close_micros)),
        Some(CellView::Time(event.known_at_micros)),
        Some(CellView::Int(event.event_row as i64)),
        Some(CellView::Int(event.confirm_row as i64)),
        Some(CellView::Int(event.event_candle_ordinal as i64)),
        Some(CellView::Int(event.confirm_candle_ordinal as i64)),
        Some(CellView::Int(event.price_units)),
        Some(CellView::Int(event.level_units)),
        Some(CellView::Text(event.reference@)),
        time_view(event.reference_close_micros),
    ]
}

/// The row of a structure event.
pub fn structure_values(event: &StructureEvent) -> (row: Vec<Option<Cell>>)
    ensures
        cell_views(row@) == structure_row(*event),
{
    let mut row: Vec<Option<Cell>> = Vec::new();
    row.push(count_cell(event.event_id));
    row.push(text_cell(event.event_type));
    row.push(text_cell(event.direction));
    row.push(Some(Cell::Time(event.event_close_micros)));
    row.push(Some(Cell::Time(event.confirm_close_micros)));
    row.push(Some(Cell::Time(event.known_at_micros)));
    row.push(count_cell(event.event_row));
    row.push(count_cell(event.confirm_row));
    row.push(count_cell(event.event_candle_ordinal));
    row.push(count_cell(event.confirm_candle_ordinal));
    row.push(Some(Cell::Int(event.price_units)));
    row.push(Some(Cell::Int(event.level_units)));
    row.push(text_cell(event.reference));
    row.push(time_cell(event.reference_close_micros));
    assert(cell_views(row@) =~= structure_row(*event));
    row
}

/// The row of a sequence event.
pub open spec fn sequence_row(event: SequenceEvent) -> Seq<Option<CellView>> {
    seq![
        Some(CellView::Int(event.event_id as i64)),
        Some(CellView::Int(event.row as i64)),
        Some(CellView::Int(event.candle_ordinal as i64)),
        Some(CellView::Time(event.decision_close_micros)),
        Some(CellView::Time(event.known_at_micros)),
        Some(CellView::Text(event.swing_event_type@)),
        Some(CellView::Text(event.swing_type@)),
        Some(CellView::Int(event.swing_price_units)),
        Some(CellView::Time(event.swing_event_close_micros)),
        Some(CellView::Time(event.swing_confirm_close_micros)),
        int_view(event.previous_price_units),
        time_view(event.previous_event_close_micros),
        time_view(event.previous_confirm_close_micros),
        Some(CellView::Text(event.sequence_after@)),
        Some(CellView::Text(event.bias_after@)),
    ]
}

/// The row of a sequence event.
pub fn sequence_values(event: &SequenceEvent) -> (row: Vec<Option<Cell>>)
    ensures
        cell_views(row@) == sequence_row(*event),
{
    let mut row: Vec<Option<Cell>> = Vec::new();
    row.push(count_cell(event.event_id));
    row.push(count_cell(event.row));
    row.push(count_cell(event.candle_ordinal));
    row.push(Some(Cell::Time(event.decision_close_micros)));
    row.push(Some(Cell::Time(event.known_at_micros)));
    row.push(text_cell(event.swing_event_type));
    row.push(text_cell(event.swing_type));
    row.push(Some(Cell::Int(event.swing_price_units)));
    row.push(Some(Cell::Time(event.swing_event_close_micros)));
    row.push(Some(Cell::Time(event.swing_confirm_close_micros)));
    row.push(int_cell(event.previous_price_units));
    row.push(time_cell(event.previous_event_close_micros));
    row.push(time_cell(event.previous_confirm_close_micros));
    row.push(text_cell(event.sequence_after));
    row.push(text_cell(event.bias_after));
    assert(cell_views(row@) =~= sequence_row(*event));
    row
}

/// Whether a cell may stand in a column.
pub open spec fn fits_column(cell: Option<CellView>, ty: ColumnType) -> bool {
    match cell {
        None => true,
        Some(CellView::Int(_)) => ty is Int64 || ty is Int16,
        Some(CellView::Text(_)) => ty is Text,
        Some(CellView::Time(_)) => ty is Time,
    }
}

/// Whether a row fits the columns of a table, one value per column.
pub open spec fn fits_layout(
    row: Seq<Option<CellView>>,
    layout: Seq<(Seq<char>, ColumnType)>,
) -> bool {
    row.len() == layout.len() && forall|i: int|
        0 <= i < row.len() ==> fits_column(#[trigger] row[i], layout[i].1)
}

/// The rows of events fit the columns of their tables.
pub proof fn event_rows_fit_their_tables(structure: StructureEvent, sequence: SequenceEvent)
    ensures
        fits_layout(structure_row(structure), structure_layout()),
        fits_layout(sequence_row(sequence), sequence_layout()),
{
}

/// What the metadata of a stream's tables says besides an identity.
#[derive(Debug)]
pub struct TableSubject {
    pub broker: String,
    pub provider_symbol: String,
    pub price_digits: u32,
    pub duration_seconds: u32,
    pub offset_seconds: u32,
    pub feature_schema_version: u32,
}

/// The names and values of metadata.
pub open spec fn metadata_views(list: Seq<(String, String)>) -> Seq<(Seq<char>, Seq<char>)> {
    list.map_values(|one: (String, String)| (one.0@, one.1@))
}

/// The metadata of every table of a stream.
pub open spec fn metadata_of(
    subject: TableSubject,
    identity_name: Seq<char>,
    identity: Seq<char>,
) -> Seq<(Seq<char>, Seq<char>)> {
    seq![
        ("broker"@, subject.broker@),
        ("provider_symbol"@, subject.provider_symbol@),
        ("price_scale"@, decimal(subject.price_digits as nat)),
        ("duration_seconds"@, decimal(subject.duration_seconds as nat)),
        ("offset_seconds"@, decimal(subject.offset_seconds as nat)),
        (identity_name, identity),
        ("feature_schema_version"@, decimal(subject.feature_schema_version as nat)),
    ]
}

/// The metadata of every table of a stream.
pub fn table_metadata(subject: &TableSubject, identity_name: &str, identity: &str) -> (list: Vec<
    (String, String),
>)
    ensures
        metadata_views(list@) == metadata_of(*subject, identity_name@, identity@),
{
    let mut list: Vec<(String, String)> = Vec::new();
    list.push(("broker".to_owned(), subject.broker.clone()));
    list.push(("provider_symbol".to_owned(), subject.provider_symbol.clone()));
    list.push(("price_scale".to_owned(), decimal_text(subject.price_digits as u64)));
    list.push(("duration_seconds".to_owned(), decimal_text(subject.duration_seconds as u64)));
    list.push(("offset_seconds".to_owned(), decimal_text(subject.offset_seconds as u64)));
    list.push((identity_name.to_owned(), identity.to_owned()));
    list.push(
        (
            "feature_schema_version".to_owned(),
            decimal_text(subject.feature_schema_version as u64),
        ),
    );
    assert(metadata_views(list@) =~= metadata_of(*subject, identity_name@, identity@));
    list
}

} // verus!
