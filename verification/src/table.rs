//! Terminal tables: two styles (compact and record), both with rounded
//! borders and sized to the terminal, drawn by `tabled`.
//!
//! A `tabled::Table` is opaque here. What a table is, is named by how it was
//! made: [`new_table`] of its records, then [`table_with`] for each setting
//! applied, in order; its text is [`drawn`] of it. The functions below decide
//! which settings are applied, with which numbers, in which order; the
//! drawing itself is `tabled`'s.

use vstd::prelude::*;
use tabled::settings::{
    Modify, Panel,
    object::{Cell, Column, Rows},
    peaker::PriorityMax,
    span::ColumnSpan,
    style::{LineText, Style},
    themes::BorderCorrection,
    width::Width,
};

verus! {

#[verifier::external_type_specification]
#[verifier::external_body]
pub struct ExTable(tabled::Table);

/// A setting applied to a table with `Table::with`.
pub enum TableSetting {
    /// `Style::rounded()`.
    Rounded,
    /// `Style::rounded().remove_horizontals()`.
    RoundedOpen,
    /// `Style::modern()`.
    Modern,
    /// `Width::increase(width)`.
    Increase(nat),
    /// `Width::wrap(width).priority(PriorityMax::left())`.
    Wrap(nat),
    /// `Modify::new(Column::from(col)).with(Width::wrap(width))`.
    ColumnWrap(nat, nat),
    /// `Modify::new(Column::from(col)).with(Width::increase(width))`.
    ColumnIncrease(nat, nat),
    /// `Modify::new(Cell::new(row, col)).with(ColumnSpan::new(span))`.
    CellSpan(nat, nat, int),
    /// `BorderCorrection {}`.
    BorderCorrection,
    /// `Panel::horizontal(row, text)`.
    Panel(nat, Seq<char>),
    /// `LineText::new(text, Rows::first()).offset(offset)`.
    TopLineText(Seq<char>, nat),
}

/// The table `tabled::Table::from_iter` makes of these records.
pub uninterp spec fn new_table(records: Seq<Seq<Seq<char>>>) -> tabled::Table;

/// The table `Table::with` makes of `t` and one setting.
pub uninterp spec fn table_with(t: tabled::Table, s: TableSetting) -> tabled::Table;

/// The text `tabled::Table`'s `Display` draws for a table.
pub uninterp spec fn drawn(t: tabled::Table) -> Seq<char>;

/// `t` with the settings `ss` applied in order.
pub open spec fn built(t: tabled::Table, ss: Seq<TableSetting>) -> tabled::Table
    decreases ss.len(),
{
    if ss.len() == 0 {
        t
    } else {
        table_with(built(t, ss.drop_last()), ss.last())
    }
}

/// Applying one more setting extends the settings applied.
pub proof fn lemma_built_push(t: tabled::Table, ss: Seq<TableSetting>, s: TableSetting)
    ensures
        table_with(built(t, ss), s) == built(t, ss.push(s)),
{
    assert(ss.push(s).drop_last() =~= ss);
}

/// Settings applied in two runs are the settings of both, in order.
pub proof fn lemma_built_append(t: tabled::Table, a: Seq<TableSetting>, b: Seq<TableSetting>)
    ensures
        built(built(t, a), b) == built(t, a + b),
    decreases b.len(),
{
    if b.len() > 0 {
        lemma_built_append(t, a, b.drop_last());
        assert((a + b).drop_last() =~= a + b.drop_last());
        assert((a + b).last() == b.last());
    }
}

/// `terminal_size::terminal_size`, reduced to the width in columns.
/// Nothing is claimed of the result: it depends on the terminal the process
/// is attached to.
#[verifier::external_body]
fn terminal_columns() -> (r: Option<u16>) {
    terminal_size::terminal_size().map(|(terminal_size::Width(w), _)| w)
}

/// `tabled::Table::from_iter`: the table of `records`, row by row.
#[verifier::external_body]
pub(crate) fn table_from_records(records: Vec<Vec<String>>) -> (t: tabled::Table)
    ensures
        t == new_table(crate::block::rows_view(records@)),
{
    tabled::Table::from_iter(records)
}

/// `Table::with(Style::rounded())`: rounded borders.
#[verifier::external_body]
pub(crate) fn apply_rounded(table: &mut tabled::Table)
    ensures
        *final(table) == table_with(*old(table), TableSetting::Rounded),
{
    table.with(Style::rounded());
}

/// `Table::with(Style::rounded().remove_horizontals())`: rounded borders
/// without lines between rows.
#[verifier::external_body]
pub(crate) fn apply_rounded_open(table: &mut tabled::Table)
    ensures
        *final(table) == table_with(*old(table), TableSetting::RoundedOpen),
{
    table.with(Style::rounded().remove_horizontals());
}

/// `Table::with(Style::modern())`: lines between all rows.
#[verifier::external_body]
pub(crate) fn apply_modern(table: &mut tabled::Table)
    ensures
        *final(table) == table_with(*old(table), TableSetting::Modern),
{
    table.with(Style::modern());
}

/// `Table::with(Width::increase(width))`: widen the table to `width`.
#[verifier::external_body]
pub(crate) fn apply_increase(table: &mut tabled::Table, width: usize)
    ensures
        *final(table) == table_with(*old(table), TableSetting::Increase(width as nat)),
{
    table.with(Width::increase(width));
}

/// `Table::with(Width::wrap(width).priority(PriorityMax::left()))`: wrap the
/// table to `width`, shrinking the widest columns first.
#[verifier::external_body]
pub(crate) fn apply_wrap(table: &mut tabled::Table, width: usize)
    ensures
        *final(table) == table_with(*old(table), TableSetting::Wrap(width as nat)),
{
    table.with(Width::wrap(width).priority(PriorityMax::left()));
}

/// `Modify::new(Column::from(col)).with(Width::wrap(width))`: wrap one column.
#[verifier::external_body]
pub(crate) fn apply_column_wrap(table: &mut tabled::Table, col: usize, width: usize)
    ensures
        *final(table) == table_with(*old(table), TableSetting::ColumnWrap(col as nat, width as nat)),
{
    table.with(Modify::new(Column::from(col)).with(Width::wrap(width)));
}

/// `Modify::new(Column::from(col)).with(Width::increase(width))`: widen one
/// column.
#[verifier::external_body]
pub(crate) fn apply_column_increase(table: &mut tabled::Table, col: usize, width: usize)
    ensures
        *final(table) == table_with(*old(table), TableSetting::ColumnIncrease(col as nat, width as nat)),
{
    table.with(Modify::new(Column::from(col)).with(Width::increase(width)));
}

/// `Modify::new(Cell::new(row, col)).with(ColumnSpan::new(span))`: let one
/// cell span `span` columns.
#[verifier::external_body]
pub(crate) fn apply_cell_span(table: &mut tabled::Table, row: usize, col: usize, span: isize)
    ensures
        *final(table) == table_with(*old(table), TableSetting::CellSpan(row as nat, col as nat, span as int)),
{
    table.with(Modify::new(Cell::new(row, col)).with(ColumnSpan::new(span)));
}

/// `Table::with(BorderCorrection {})`: redraw borders around spanned cells.
#[verifier::external_body]
pub(crate) fn apply_border_correction(table: &mut tabled::Table)
    ensures
        *final(table) == table_with(*old(table), TableSetting::BorderCorrection),
{
    table.with(BorderCorrection {});
}

/// Whether some record has a cell, so that the table has a column.
pub open spec fn has_columns(records: Seq<Seq<Seq<char>>>) -> bool {
    exists|i: int| 0 <= i < records.len() && #[trigger] records[i].len() > 0
}

/// `Table::with(Panel::horizontal(row, text))`: a full-width row holding
/// `text`, inserted at `row`. `tabled` writes the text into the first cell
/// of the new row, so the table must have a column (it panics otherwise):
/// the table has to be made of records one of which has a cell.
#[verifier::external_body]
pub(crate) fn apply_panel(table: &mut tabled::Table, row: usize, text: &str)
    requires
        exists|recs: Seq<Seq<Seq<char>>>, ss: Seq<TableSetting>|
            #[trigger] built(new_table(recs), ss) == *old(table) && has_columns(recs),
    ensures
        *final(table) == table_with(*old(table), TableSetting::Panel(row as nat, text@)),
{
    table.with(Panel::horizontal(row, text));
}

/// `Table::with(LineText::new(text, Rows::first()).offset(offset))`: `text`
/// drawn on the top border, `offset` characters in.
#[verifier::external_body]
pub(crate) fn apply_top_line_text(table: &mut tabled::Table, text: &str, offset: usize)
    ensures
        *final(table) == table_with(*old(table), TableSetting::TopLineText(text@, offset as nat)),
{
    table.with(LineText::new(text.to_string(), Rows::first()).offset(offset));
}

/// `tabled::Table`'s `Display`: the drawn table.
#[verifier::external_body]
pub(crate) fn table_text(table: &tabled::Table) -> (r: String)
    ensures
        r@ == drawn(*table),
{
    table.to_string()
}

/// The width used when the terminal reports none.
pub const DEFAULT_WIDTH: usize = 80;

/// The terminal width to use: the reported one, or [`DEFAULT_WIDTH`].
pub fn width_or_default(reported: Option<u16>) -> (r: usize)
    ensures
        r == (match reported {
            Some(w) => w as usize,
            None => DEFAULT_WIDTH,
        }),
{
    match reported {
        Some(w) => w as usize,
        None => DEFAULT_WIDTH,
    }
}

/// Detect the terminal width, falling back to 80 columns.
pub fn term_width() -> (r: usize)
    ensures
        r <= u16::MAX,
{
    width_or_default(terminal_columns())
}

/// The settings of the compact style at terminal width `w`.
pub open spec fn compact_settings(w: nat) -> Seq<TableSetting> {
    seq![TableSetting::RoundedOpen, TableSetting::Increase(w), TableSetting::Wrap(w)]
}

/// The settings of the record style at terminal width `w`.
pub open spec fn record_settings(cols: int, w: nat) -> Seq<TableSetting> {
    seq![
        TableSetting::Rounded,
        TableSetting::CellSpan(1, 0, cols),
        TableSetting::BorderCorrection,
        TableSetting::Increase(w),
        TableSetting::Wrap(w),
    ]
}

/// Compact style at width `w`: rounded borders, no lines between rows,
/// stretched to `w` and wrapped to it (widest columns shrink first).
pub fn style_compact_at(table: &mut tabled::Table, w: usize)
    ensures
        *final(table) == built(*old(table), compact_settings(w as nat)),
{
    let ghost t0 = *table;
    apply_rounded_open(table);
    apply_increase(table, w);
    apply_wrap(table, w);
    proof {
        let ss = compact_settings(w as nat);
        let e = Seq::<TableSetting>::empty();
        lemma_built_push(t0, e, ss[0]);
        lemma_built_push(t0, e.push(ss[0]), ss[1]);
        lemma_built_push(t0, e.push(ss[0]).push(ss[1]), ss[2]);
        assert(e.push(ss[0]).push(ss[1]).push(ss[2]) =~= ss);
        assert(*table == built(t0, ss));
    }
}

/// Compact style: rounded borders, no lines between rows, stretched to the
/// terminal width and wrapped to it (widest columns shrink first).
pub fn style_compact(table: &mut tabled::Table)
    ensures
        exists|w: nat| w <= u16::MAX && *final(table) == built(*old(table), #[trigger] compact_settings(w)),
{
    let w = term_width();
    style_compact_at(table, w);
}

/// Record style at width `w`: rounded borders, the second row spans `cols`
/// columns (for multi-line detail text), stretched to `w` and wrapped to it.
pub fn style_record_at(table: &mut tabled::Table, cols: isize, w: usize)
    ensures
        *final(table) == built(*old(table), record_settings(cols as int, w as nat)),
{
    let ghost t0 = *table;
    apply_rounded(table);
    apply_cell_span(table, 1, 0, cols);
    apply_border_correction(table);
    apply_increase(table, w);
    apply_wrap(table, w);
    proof {
        let ss = record_settings(cols as int, w as nat);
        let e = Seq::<TableSetting>::empty();
        lemma_built_push(t0, e, ss[0]);
        lemma_built_push(t0, e.push(ss[0]), ss[1]);
        lemma_built_push(t0, e.push(ss[0]).push(ss[1]), ss[2]);
        lemma_built_push(t0, e.push(ss[0]).push(ss[1]).push(ss[2]), ss[3]);
        lemma_built_push(t0, e.push(ss[0]).push(ss[1]).push(ss[2]).push(ss[3]), ss[4]);
        assert(e.push(ss[0]).push(ss[1]).push(ss[2]).push(ss[3]).push(ss[4]) =~= ss);
        assert(*table == built(t0, ss));
    }
}

/// Record style: rounded borders, the second row spans `cols` columns (for
/// multi-line detail text), stretched to the terminal width and wrapped to it.
pub fn style_record(table: &mut tabled::Table, cols: isize)
    ensures
        exists|w: nat| w <= u16::MAX && *final(table) == built(*old(table), #[trigger] record_settings(cols as int, w)),
{
    let w = term_width();
    style_record_at(table, cols, w);
}

} // verus!
