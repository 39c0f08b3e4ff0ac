//! Formatters that turn blocks into text: `format_pretty` for terminals
//! (box-drawing tables drawn by `tabled`) and `format_markdown` (GFM pipe
//! tables, `##` section headers).

use vstd::prelude::*;
use crate::block::{Block, BlockV, StyleV, TableStyle, block_view, blocks_view, lemma_blocks_view, lemma_blocks_view_skip, lemma_rows_view_push, rows_view};
use crate::table::{TableSetting, apply_border_correction, apply_column_increase, apply_column_wrap, apply_modern, apply_panel, apply_rounded, apply_top_line_text, built, compact_settings, drawn, has_columns, lemma_built_append, lemma_built_push, new_table, style_compact_at, table_from_records, table_text, term_width};
use crate::text::{chars_of, join, join_strings, lemma_views_push, owned, push_char, push_str, string_from_range, views};

verus! {

// ---------------------------------------------------------------------------
// Markdown
// ---------------------------------------------------------------------------

/// How one character of a table cell is written: `\` and `|` are
/// backslash-escaped and a newline becomes `<br>`.
pub open spec fn escape_char(c: char) -> Seq<char> {
    if c == '\\' {
        seq!['\\', '\\']
    } else if c == '|' {
        seq!['\\', '|']
    } else if c == '\n' {
        "<br>"@
    } else {
        seq![c]
    }
}

/// A cell value escaped for a GFM pipe table.
pub open spec fn escape(s: Seq<char>) -> Seq<char>
    decreases s.len(),
{
    if s.len() == 0 {
        Seq::empty()
    } else {
        escape(s.drop_last()) + escape_char(s.last())
    }
}

/// One table row: `| a | b |` and a newline.
pub open spec fn md_row(cells: Seq<Seq<char>>) -> Seq<char> {
    "| "@ + join(Seq::new(cells.len(), |i: int| escape(cells[i])), " | "@) + " |\n"@
}

pub open spec fn md_rows(rows: Seq<Seq<Seq<char>>>) -> Seq<char>
    decreases rows.len(),
{
    if rows.len() == 0 {
        Seq::empty()
    } else {
        md_row(rows[0]) + md_rows(rows.drop_first())
    }
}

/// The separator row under a header of `n` columns: `| --- | --- |`.
pub open spec fn md_dashes(n: nat) -> Seq<char> {
    "| "@ + join(Seq::new(n, |i: int| "---"@), " | "@) + " |\n"@
}

/// **Separator cells.** The separator under one header column is
/// `| --- |`, and each further column adds one `| ---` cell before the
/// closing `|`: the separator of an `n`-column header has exactly `n`
/// cells, each `---`.
pub proof fn lemma_md_dashes_cells(n: nat)
    requires
        n >= 1,
    ensures
        md_dashes(1) == "| --- |\n"@,
        md_dashes(n + 1) == md_dashes(n).take(md_dashes(n).len() - 2) + "| --- |\n"@,
        md_dashes(n).len() == 6 * n + 2,
    decreases n,
{
    reveal_strlit("| --- |\n");
    reveal_strlit("| ");
    reveal_strlit(" | ");
    reveal_strlit(" |\n");
    reveal_strlit(" ");
    reveal_strlit("---");
    let d = |i: int| "---"@;
    assert(Seq::new(1, d).len() == 1);
    assert(join(Seq::new(1, d), " | "@) == "---"@);
    assert(md_dashes(1) =~= "| --- |\n"@);
    let j = join(Seq::new(n, d), " | "@);
    assert(Seq::new(n + 1, d).drop_last() =~= Seq::new(n, d));
    assert(join(Seq::new(n + 1, d), " | "@) == j + " | "@ + "---"@);
    let m = md_dashes(n);
    assert(m == "| "@ + j + " |\n"@);
    assert(m.take(m.len() - 2) =~= "| "@ + j + " "@);
    assert(md_dashes(n + 1) =~= m.take(m.len() - 2) + "| --- |\n"@);
    if n > 1 {
        lemma_md_dashes_cells((n - 1) as nat);
    }
}

/// **Header cells.** A header row gains one ` | cell` before its closing
/// `|` for each further cell, the cell escaped: a row of `n` cells has
/// exactly `n` cells.
pub proof fn lemma_md_row_push(cells: Seq<Seq<char>>, c: Seq<char>)
    requires
        cells.len() >= 1,
    ensures
        md_row(cells.push(c)) == md_row(cells).take(md_row(cells).len() - 2) + "| "@ + escape(c) + " |\n"@,
        md_row(seq![c]) == "| "@ + escape(c) + " |\n"@,
{
    reveal_strlit("| ");
    reveal_strlit(" | ");
    reveal_strlit(" |\n");
    reveal_strlit(" ");
    let e = Seq::new(cells.len(), |i: int| escape(cells[i]));
    let e2 = Seq::new(cells.push(c).len(), |i: int| escape(cells.push(c)[i]));
    assert(e2.drop_last() =~= e);
    assert(e2.last() == escape(c));
    let j = join(e, " | "@);
    assert(join(e2, " | "@) == j + " | "@ + escape(c));
    let m = md_row(cells);
    assert(m == "| "@ + j + " |\n"@);
    assert(m.take(m.len() - 2) =~= "| "@ + j + " "@);
    assert(md_row(cells.push(c)) =~= m.take(m.len() - 2) + "| "@ + escape(c) + " |\n"@);
    let e1 = Seq::new(seq![c].len(), |i: int| escape(seq![c][i]));
    assert(e1.len() == 1 && e1[0] == escape(c));
    assert(md_row(seq![c]) =~= "| "@ + escape(c) + " |\n"@);
}

/// **A table's separator matches its header.** In the markdown of a
/// table with headers (any style but key-value), the header row is followed
/// directly by the separator of as many columns as there are headers, and
/// that separator is `6 * n + 2` characters long (`n` cells of `---`).
pub proof fn lemma_md_table_separator(h: Seq<Seq<char>>, rows: Seq<Seq<Seq<char>>>, style: StyleV)
    requires
        !(style is KeyValue),
        h.len() >= 1,
    ensures
        md_block(BlockV::Table(Some(h), rows, style)).subrange(
            md_row(h).len() as int,
            (md_row(h).len() + 6 * h.len() + 2) as int,
        ) == md_dashes(h.len()),
        md_block(BlockV::Table(Some(h), rows, style)).take(md_row(h).len() as int) == md_row(h),
{
    lemma_md_dashes_cells(h.len());
    let out = md_block(BlockV::Table(Some(h), rows, style));
    assert(out == md_row(h) + md_dashes(h.len()) + md_rows(rows) + "\n"@);
    assert(out.subrange(md_row(h).len() as int, (md_row(h).len() + 6 * h.len() + 2) as int) =~= md_dashes(h.len()));
    assert(out.take(md_row(h).len() as int) =~= md_row(h));
}

/// A block in markdown: a line as a paragraph line; a key-value table as an
/// optional `### title` plus a `Field | Value` table; other tables as pipe
/// tables with their headers if any; a section as a `##` heading followed by
/// its children.
pub open spec fn md_block(b: BlockV) -> Seq<char>
    decreases b,
{
    match b {
        BlockV::Line(s) => s + "\n"@,
        BlockV::Table(headers, rows, style) => match style {
            StyleV::KeyValue(title) => (if title.len() > 0 {
                "### "@ + title + "\n\n"@
            } else {
                Seq::empty()
            }) + "| Field | Value |\n| --- | --- |\n"@ + md_rows(rows) + "\n"@,
            _ => (match headers {
                Some(h) => md_row(h) + md_dashes(h.len()),
                None => Seq::empty(),
            }) + md_rows(rows) + "\n"@,
        },
        BlockV::Section(label, children) => "## "@ + label + "\n\n"@ + md_blocks(children),
    }
}

pub open spec fn md_blocks(bs: Seq<BlockV>) -> Seq<char>
    decreases bs,
{
    if bs.len() == 0 {
        Seq::empty()
    } else {
        md_block(bs[0]) + md_blocks(bs.drop_first())
    }
}

/// `s` without its trailing newlines.
pub open spec fn trim_newlines(s: Seq<char>) -> Seq<char>
    decreases s.len(),
{
    if s.len() > 0 && s.last() == '\n' {
        trim_newlines(s.drop_last())
    } else {
        s
    }
}

/// Escape a cell value for inclusion in a GFM pipe table.
pub fn escape_cell(s: &str) -> (r: String)
    ensures
        r@ == escape(s@),
{
    let v = chars_of(s);
    let mut out = String::new();
    let mut i: usize = 0;
    while i < v.len()
        invariant
            v@ == s@,
            i <= v@.len(),
            out@ == escape(v@.take(i as int)),
        decreases v@.len() - i,
    {
        let c = v[i];
        if c == '\\' {
            push_char(&mut out, '\\');
            push_char(&mut out, '\\');
        } else if c == '|' {
            push_char(&mut out, '\\');
            push_char(&mut out, '|');
        } else if c == '\n' {
            push_str(&mut out, "<br>");
        } else {
            push_char(&mut out, c);
        }
        proof {
            assert(v@.take(i + 1).drop_last() =~= v@.take(i as int));
            assert(v@.take(i + 1).last() == c);
        }
        i = i + 1;
        assert(out@ =~= escape(v@.take(i as int)));
    }
    assert(v@.take(v@.len() as int) =~= s@);
    out
}

fn append_row(cells: &Vec<String>, out: &mut String)
    ensures
        final(out)@ == old(out)@ + md_row(views(cells@)),
{
    let mut escaped: Vec<String> = Vec::new();
    let mut i: usize = 0;
    while i < cells.len()
        invariant
            i <= cells@.len(),
            escaped@.len() == i,
            forall|j: int| 0 <= j < i ==> #[trigger] escaped@[j]@ == escape(cells@[j]@),
        decreases cells@.len() - i,
    {
        let e = escape_cell(cells[i].as_str());
        escaped.push(e);
        i = i + 1;
    }
    let joined = join_strings(&escaped, " | ");
    proof {
        let c = views(cells@);
        assert(views(escaped@) =~= Seq::new(c.len(), |k: int| escape(c[k])));
    }
    push_str(out, "| ");
    push_str(out, joined.as_str());
    push_str(out, " |\n");
}

fn append_rows(rows: &Vec<Vec<String>>, out: &mut String)
    ensures
        final(out)@ == old(out)@ + md_rows(rows_view(rows@)),
{
    let ghost target = old(out)@ + md_rows(rows_view(rows@));
    let mut i: usize = 0;
    assert(rows_view(rows@).skip(0) =~= rows_view(rows@));
    while i < rows.len()
        invariant
            i <= rows@.len(),
            out@ + md_rows(rows_view(rows@).skip(i as int)) == target,
        decreases rows@.len() - i,
    {
        let ghost before = out@;
        append_row(&rows[i], out);
        proof {
            let rest = rows_view(rows@).skip(i as int);
            assert(rest[0] == views(rows@[i as int]@));
            assert(rest.drop_first() =~= rows_view(rows@).skip(i + 1));
            assert(out@ + md_rows(rows_view(rows@).skip(i + 1)) =~= before + md_rows(rest));
        }
        i = i + 1;
    }
    assert(rows_view(rows@).skip(rows@.len() as int) =~= Seq::<Seq<Seq<char>>>::empty());
    assert(out@ =~= out@ + md_rows(Seq::<Seq<Seq<char>>>::empty()));
}

fn append_dashes(n: usize, out: &mut String)
    ensures
        final(out)@ == old(out)@ + md_dashes(n as nat),
{
    let mut dashes: Vec<String> = Vec::new();
    let mut i: usize = 0;
    while i < n
        invariant
            i <= n,
            dashes@.len() == i,
            forall|j: int| 0 <= j < i ==> #[trigger] dashes@[j]@ == "---"@,
        decreases n - i,
    {
        dashes.push(owned("---"));
        i = i + 1;
    }
    let joined = join_strings(&dashes, " | ");
    assert(views(dashes@) =~= Seq::new(n as nat, |k: int| "---"@));
    push_str(out, "| ");
    push_str(out, joined.as_str());
    push_str(out, " |\n");
}

fn format_markdown_block(block: &Block, out: &mut String)
    ensures
        final(out)@ == old(out)@ + md_block(block@),
    decreases block, 0int,
{
    match block {
        Block::Line(s) => {
            push_str(out, s.as_str());
            push_str(out, "\n");
        },
        Block::Table { headers, rows, style } => {
            match style {
                TableStyle::KeyValue { title } => {
                    if title.as_str().unicode_len() > 0 {
                        push_str(out, "### ");
                        push_str(out, title.as_str());
                        push_str(out, "\n\n");
                    }
                    push_str(out, "| Field | Value |\n| --- | --- |\n");
                    append_rows(rows, out);
                    push_str(out, "\n");
                },
                _ => {
                    if let Some(hdrs) = headers {
                        append_row(hdrs, out);
                        append_dashes(hdrs.len(), out);
                    }
                    append_rows(rows, out);
                    push_str(out, "\n");
                },
            }
            assert(out@ =~= old(out)@ + md_block(block@));
        },
        Block::Section { label, children } => {
            push_str(out, "## ");
            push_str(out, label.as_str());
            push_str(out, "\n\n");
            assert(children@.skip(0) =~= children@);
            markdown_children(children, 0, out);
        },
    }
}

fn markdown_children(v: &Vec<Block>, i: usize, out: &mut String)
    requires
        i <= v@.len(),
    ensures
        final(out)@ == old(out)@ + md_blocks(blocks_view(v@.skip(i as int))),
    decreases v, v@.len() - i,
{
    if i >= v.len() {
        proof {
            lemma_blocks_view(v@.skip(i as int));
        }
        assert(out@ =~= out@ + Seq::<char>::empty());
        return;
    }
    proof {
        lemma_blocks_view_skip(v@, i as int);
    }
    format_markdown_block(&v[i], out);
    markdown_children(v, i + 1, out);
    assert(out@ =~= old(out)@ + md_blocks(blocks_view(v@.skip(i as int))));
}

/// Format blocks as markdown. The output does not end in a newline.
pub fn format_markdown(blocks: &[Block]) -> (r: String)
    ensures
        r@ == trim_newlines(md_blocks(blocks_view(blocks@))),
{
    let mut out = String::new();
    let ghost target = md_blocks(blocks_view(blocks@));
    let mut i: usize = 0;
    assert(blocks@.skip(0) =~= blocks@);
    while i < blocks.len()
        invariant
            i <= blocks@.len(),
            out@ + md_blocks(blocks_view(blocks@.skip(i as int))) == target,
        decreases blocks@.len() - i,
    {
        let ghost before = out@;
        proof {
            lemma_blocks_view_skip(blocks@, i as int);
        }
        format_markdown_block(&blocks[i], &mut out);
        assert(out@ + md_blocks(blocks_view(blocks@.skip(i + 1))) =~= before + md_blocks(
            blocks_view(blocks@.skip(i as int)),
        ));
        i = i + 1;
    }
    proof {
        lemma_blocks_view(blocks@.skip(i as int));
    }
    assert(out@ =~= target);
    let v = chars_of(out.as_str());
    let mut end = v.len();
    assert(v@.take(end as int) =~= v@);
    while end > 0 && v[end - 1] == '\n'
        invariant
            v@ == target,
            end <= v@.len(),
            trim_newlines(v@.take(end as int)) == trim_newlines(target),
        decreases end,
    {
        assert(v@.take(end as int).drop_last() =~= v@.take(end - 1));
        end = end - 1;
    }
    assert(v@.take(end as int) =~= v@.subrange(0, end as int));
    string_from_range(&v, 0, end)
}

// ---------------------------------------------------------------------------
// Pretty (terminal)
// ---------------------------------------------------------------------------

/// `n` spaces.
pub open spec fn spaces(n: nat) -> Seq<char> {
    Seq::new(n, |i: int| ' ')
}

/// A line as `str::lines` yields it: a `\r` right before the line's newline
/// is dropped.
pub open spec fn strip_cr(line: Seq<char>) -> Seq<char> {
    if line.len() > 0 && line.last() == '\r' {
        line.drop_last()
    } else {
        line
    }
}

/// The lines of `cur + s`, where `cur` is the part of the current line read
/// so far, each written as `prefix`, the line and a newline. A final line
/// ending is optional; an empty text has no lines.
pub open spec fn indent_lines(s: Seq<char>, prefix: Seq<char>, cur: Seq<char>) -> Seq<char>
    decreases s.len(),
{
    if s.len() == 0 {
        if cur.len() == 0 {
            Seq::empty()
        } else {
            prefix + cur + "\n"@
        }
    } else if s[0] == '\n' {
        prefix + strip_cr(cur) + "\n"@ + indent_lines(s.drop_first(), prefix, Seq::empty())
    } else {
        indent_lines(s.drop_first(), prefix, cur.push(s[0]))
    }
}

/// How many tables a block holds, nested ones included.
pub open spec fn table_count(b: BlockV) -> nat
    decreases b,
{
    match b {
        BlockV::Line(_) => 0,
        BlockV::Table(_, _, _) => 1,
        BlockV::Section(_, children) => tables_in(children),
    }
}

pub open spec fn tables_in(bs: Seq<BlockV>) -> nat
    decreases bs,
{
    if bs.len() == 0 {
        0
    } else {
        table_count(bs[0]) + tables_in(bs.drop_first())
    }
}

/// A drawn table as it lands in the output: indented line by line when
/// `indent > 0`, else verbatim plus a newline; a key-value table is followed
/// by an empty line.
pub open spec fn table_out(text: Seq<char>, indent: usize, key_value: bool) -> Seq<char> {
    (if indent > 0 {
        indent_lines(text, spaces(indent as nat), Seq::empty())
    } else {
        text + "\n"@
    }) + (if key_value {
        "\n"@
    } else {
        Seq::empty()
    })
}

/// A block in pretty form at `indent`, the drawn texts of its tables being
/// `ts`, in order: a line indented; a table as [`table_out`]; a section as
/// its indented label and a colon, then its children two spaces deeper.
pub open spec fn pretty_block(b: BlockV, indent: usize, ts: Seq<Seq<char>>) -> Seq<char>
    decreases b,
{
    match b {
        BlockV::Line(s) => spaces(indent as nat) + s + "\n"@,
        BlockV::Table(_, _, style) => table_out(ts[0], indent, style is KeyValue),
        BlockV::Section(label, children) => spaces(indent as nat) + label + ":\n"@ + pretty_blocks(
            children,
            indent.saturating_add(2),
            ts,
        ),
    }
}

/// Blocks in pretty form, one after the other, each taking its share of `ts`.
pub open spec fn pretty_blocks(bs: Seq<BlockV>, indent: usize, ts: Seq<Seq<char>>) -> Seq<char>
    decreases bs,
{
    if bs.len() == 0 {
        Seq::empty()
    } else {
        let n = table_count(bs[0]);
        pretty_block(bs[0], indent, ts.take(n as int)) + pretty_blocks(
            bs.drop_first(),
            indent,
            ts.skip(n as int),
        )
    }
}

/// The rows of a table with its optional header row first.
pub open spec fn with_header(headers: Option<Seq<Seq<char>>>, rows: Seq<Seq<Seq<char>>>) -> Seq<
    Seq<Seq<char>>,
> {
    match headers {
        Some(h) => seq![h] + rows,
        None => rows,
    }
}

/// How many of the row indices below `n` are not detail rows.
pub open spec fn kept_before(detail: Seq<usize>, n: nat) -> nat
    decreases n,
{
    if n == 0 {
        0
    } else {
        kept_before(detail, (n - 1) as nat) + (if detail.contains((n - 1) as usize) {
            0nat
        } else {
            1nat
        })
    }
}

/// The first `n` rows, detail rows left out.
pub open spec fn data_rows(rows: Seq<Seq<Seq<char>>>, detail: Seq<usize>, n: nat) -> Seq<
    Seq<Seq<char>>,
>
    decreases n,
{
    if n == 0 {
        Seq::empty()
    } else {
        data_rows(rows, detail, (n - 1) as nat) + (if detail.contains((n - 1) as usize) {
            Seq::empty()
        } else {
            seq![rows[n - 1]]
        })
    }
}

/// The text of a detail row: its first cell, when the row exists, has a
/// cell, and that cell is not empty.
pub open spec fn detail_text(rows: Seq<Seq<Seq<char>>>, idx: usize) -> Option<Seq<char>> {
    if idx < rows.len() && rows[idx as int].len() > 0 && rows[idx as int][0].len() > 0 {
        Some(rows[idx as int][0])
    } else {
        None
    }
}

/// The panels of a record table for the first `k` detail rows: each detail
/// row with a text becomes a full-width row, inserted after the data rows
/// before it, the header row and the panels already inserted.
pub open spec fn record_panels(
    rows: Seq<Seq<Seq<char>>>,
    detail: Seq<usize>,
    header_offset: usize,
    k: nat,
) -> Seq<(usize, Seq<char>)>
    decreases k,
{
    if k == 0 {
        Seq::empty()
    } else {
        let prev = record_panels(rows, detail, header_offset, (k - 1) as nat);
        let idx = detail[k - 1];
        match detail_text(rows, idx) {
            Some(t) => prev.push(
                (
                    ((kept_before(detail, idx as nat) + header_offset) as usize).saturating_add(
                        prev.len() as usize,
                    ),
                    t,
                ),
            ),
            None => prev,
        }
    }
}

/// The column count of a record table: the header's length, else the first
/// row's, else 1.
pub open spec fn record_column_count(
    headers: Option<Seq<Seq<char>>>,
    rows: Seq<Seq<Seq<char>>>,
) -> nat {
    match headers {
        Some(h) => h.len(),
        None => if rows.len() > 0 {
            rows[0].len()
        } else {
            1
        },
    }
}

/// Room left for the cells of a record table of `cols` columns in `width`
/// characters: borders take `cols + 1` characters and padding two per column.
pub open spec fn record_room(cols: nat, width: nat) -> nat {
    let overhead = 3 * cols + 1;
    if width > overhead {
        (width - overhead) as nat
    } else {
        0
    }
}

/// Column widths of a record table: 40% / 30% / the rest for three columns,
/// else an even share each.
pub open spec fn record_widths(cols: nat, width: nat) -> Seq<nat> {
    let room = record_room(cols, width);
    if cols == 3 {
        let c0 = room * 40 / 100;
        let c1 = room * 30 / 100;
        seq![c0, c1, (room - c0 - c1) as nat]
    } else {
        even_widths(cols, room)
    }
}

/// `cols` columns sharing `room` evenly (the remainder unused).
pub open spec fn even_widths(cols: nat, room: nat) -> Seq<nat> {
    let each: nat = if cols > 0 {
        room / cols
    } else {
        0
    };
    Seq::new(cols, |i: int| each)
}

/// Column widths of a key-value table: a third and the rest of the width
/// left after 3 borders and 4 padding characters.
pub open spec fn key_value_widths(width: nat) -> (nat, nat) {
    let room: nat = if width > 7 {
        (width - 7) as nat
    } else {
        0
    };
    (room / 3, (room - room / 3) as nat)
}

/// The header row of a table block as a model.
pub open spec fn headers_view(h: Option<Vec<String>>) -> Option<Seq<Seq<char>>> {
    match h {
        Some(h) => Some(views(h@)),
        None => None,
    }
}

/// The settings of a key-value table at terminal width `w`: modern lines,
/// the two columns sized to [`key_value_widths`], and the title, when there
/// is one, on the top border.
pub open spec fn key_value_settings(title: Seq<char>, w: nat) -> Seq<TableSetting> {
    let (c0, c1) = key_value_widths(w);
    seq![
        TableSetting::Modern,
        TableSetting::ColumnIncrease(0, c0),
        TableSetting::ColumnWrap(0, c0),
        TableSetting::ColumnIncrease(1, c1),
        TableSetting::ColumnWrap(1, c1),
    ] + (if title.len() > 0 {
        seq![TableSetting::TopLineText(" "@ + title + " "@, 1)]
    } else {
        Seq::empty()
    })
}

/// One full-width panel per detail text.
pub open spec fn panel_settings(panels: Seq<(usize, Seq<char>)>) -> Seq<TableSetting> {
    Seq::new(panels.len(), |i: int| TableSetting::Panel(panels[i].0 as nat, panels[i].1))
}

/// The first `n` columns wrapped, then widened, to their widths, column by
/// column.
pub open spec fn column_pairs(widths: Seq<nat>, n: nat) -> Seq<TableSetting>
    decreases n,
{
    if n == 0 {
        Seq::empty()
    } else {
        column_pairs(widths, (n - 1) as nat) + seq![
            TableSetting::ColumnWrap((n - 1) as nat, widths[n - 1]),
            TableSetting::ColumnIncrease((n - 1) as nat, widths[n - 1]),
        ]
    }
}

/// How the columns of a record table are sized: three columns all wrapped,
/// then all widened; otherwise each column wrapped and widened in turn.
pub open spec fn column_settings(cols: nat, widths: Seq<nat>) -> Seq<TableSetting> {
    if cols == 3 {
        seq![
            TableSetting::ColumnWrap(0, widths[0]),
            TableSetting::ColumnWrap(1, widths[1]),
            TableSetting::ColumnWrap(2, widths[2]),
            TableSetting::ColumnIncrease(0, widths[0]),
            TableSetting::ColumnIncrease(1, widths[1]),
            TableSetting::ColumnIncrease(2, widths[2]),
        ]
    } else {
        column_pairs(widths, widths.len())
    }
}

/// The column count a record table is sized for (bounded so that its
/// widths can be computed).
pub open spec fn capped_cols(headers: Option<Seq<Seq<char>>>, rows: Seq<Seq<Seq<char>>>) -> nat {
    let c = record_column_count(headers, rows);
    if c <= (usize::MAX - 1) / 3 {
        c
    } else {
        ((usize::MAX - 1) / 3) as nat
    }
}

/// The settings of a record table at terminal width `w`: rounded borders,
/// a panel per detail text (none when the table has no column to hold
/// one), border correction, then column widths.
pub open spec fn record_table_settings(
    headers: Option<Seq<Seq<char>>>,
    rows: Seq<Seq<Seq<char>>>,
    detail: Seq<usize>,
    w: nat,
) -> Seq<TableSetting> {
    let offset: usize = if headers is Some {
        1
    } else {
        0
    };
    let cols = capped_cols(headers, rows);
    let panels = if has_columns(with_header(headers, data_rows(rows, detail, rows.len()))) {
        record_panels(rows, detail, offset, detail.len())
    } else {
        Seq::empty()
    };
    seq![TableSetting::Rounded] + panel_settings(panels) + seq![TableSetting::BorderCorrection]
        + column_settings(cols, record_widths(cols, w))
}

/// The table a table block is drawn from at terminal width `w`.
pub open spec fn table_for(b: BlockV, w: nat) -> tabled::Table {
    match b {
        BlockV::Table(h, rows, style) => match style {
            StyleV::Compact => built(new_table(with_header(h, rows)), compact_settings(w)),
            StyleV::Record(detail) => built(
                new_table(with_header(h, data_rows(rows, detail, rows.len()))),
                record_table_settings(h, rows, detail, w),
            ),
            StyleV::KeyValue(title) => built(new_table(rows), key_value_settings(title, w)),
        },
        _ => new_table(Seq::empty()),
    }
}

/// The texts `tabled` draws for the tables of a block at width `w`, in order.
pub open spec fn block_texts(b: BlockV, w: nat) -> Seq<Seq<char>>
    decreases b,
{
    match b {
        BlockV::Line(_) => Seq::empty(),
        BlockV::Table(_, _, _) => seq![drawn(table_for(b, w))],
        BlockV::Section(_, children) => table_texts(children, w),
    }
}

/// The texts `tabled` draws for the tables of blocks at width `w`, in order.
pub open spec fn table_texts(bs: Seq<BlockV>, w: nat) -> Seq<Seq<char>>
    decreases bs,
{
    if bs.len() == 0 {
        Seq::empty()
    } else {
        block_texts(bs[0], w) + table_texts(bs.drop_first(), w)
    }
}

/// Blocks in pretty form with every table drawn at width `w`.
pub open spec fn pretty_at(bs: Seq<BlockV>, w: nat) -> Seq<char> {
    pretty_blocks(bs, 0, table_texts(bs, w))
}

/// A block has as many drawn texts as tables.
pub proof fn lemma_block_texts_len(b: BlockV, w: nat)
    ensures
        block_texts(b, w).len() == table_count(b),
    decreases b,
{
    if let BlockV::Section(_, children) = b {
        lemma_table_texts_len(children, w);
    }
}

/// Blocks have as many drawn texts as tables.
pub proof fn lemma_table_texts_len(bs: Seq<BlockV>, w: nat)
    ensures
        table_texts(bs, w).len() == tables_in(bs),
    decreases bs,
{
    if bs.len() > 0 {
        lemma_block_texts_len(bs[0], w);
        lemma_table_texts_len(bs.drop_first(), w);
    }
}

/// Each block takes its own texts from those of the blocks.
proof fn lemma_table_texts_split(bs: Seq<BlockV>, w: nat)
    requires
        bs.len() > 0,
    ensures
        table_texts(bs, w).take(table_count(bs[0]) as int) == block_texts(bs[0], w),
        table_texts(bs, w).skip(table_count(bs[0]) as int) == table_texts(bs.drop_first(), w),
{
    lemma_block_texts_len(bs[0], w);
    let n = table_count(bs[0]) as int;
    assert(table_texts(bs, w).take(n) =~= block_texts(bs[0], w));
    assert(table_texts(bs, w).skip(n) =~= table_texts(bs.drop_first(), w));
}

/// The texts of two runs of blocks are those of the first, then the second.
proof fn lemma_table_texts_append(a: Seq<BlockV>, b: Seq<BlockV>, w: nat)
    ensures
        table_texts(a + b, w) == table_texts(a, w) + table_texts(b, w),
    decreases a.len(),
{
    if a.len() == 0 {
        assert(a + b =~= b);
        assert(Seq::<Seq<char>>::empty() + table_texts(b, w) =~= table_texts(b, w));
    } else {
        assert((a + b)[0] == a[0]);
        assert((a + b).drop_first() =~= a.drop_first() + b);
        lemma_table_texts_append(a.drop_first(), b, w);
        assert(table_texts(a + b, w) =~= table_texts(a, w) + table_texts(b, w));
    }
}

/// Pretty form of two runs of blocks, each taking its share of the texts.
proof fn lemma_pretty_blocks_append(a: Seq<BlockV>, b: Seq<BlockV>, indent: usize, ta: Seq<Seq<char>>, tb: Seq<Seq<char>>)
    requires
        ta.len() == tables_in(a),
    ensures
        pretty_blocks(a + b, indent, ta + tb) == pretty_blocks(a, indent, ta) + pretty_blocks(b, indent, tb),
    decreases a.len(),
{
    if a.len() == 0 {
        assert(a + b =~= b);
        assert(ta + tb =~= tb);
        assert(Seq::<char>::empty() + pretty_blocks(b, indent, tb) =~= pretty_blocks(b, indent, tb));
    } else {
        let n = table_count(a[0]) as int;
        assert((a + b)[0] == a[0]);
        assert((a + b).drop_first() =~= a.drop_first() + b);
        assert((ta + tb).take(n) =~= ta.take(n));
        assert((ta + tb).skip(n) =~= ta.skip(n) + tb);
        lemma_pretty_blocks_append(a.drop_first(), b, indent, ta.skip(n), tb);
        assert(pretty_blocks(a + b, indent, ta + tb) =~= pretty_blocks(a, indent, ta) + pretty_blocks(b, indent, tb));
    }
}

/// At one terminal width, the pretty form of two runs of blocks is the
/// pretty form of the first followed by that of the second.
pub proof fn lemma_pretty_at_concat(a: Seq<BlockV>, b: Seq<BlockV>, w: nat)
    ensures
        pretty_at(a + b, w) == pretty_at(a, w) + pretty_at(b, w),
{
    lemma_table_texts_append(a, b, w);
    lemma_table_texts_len(a, w);
    lemma_pretty_blocks_append(a, b, 0, table_texts(a, w), table_texts(b, w));
}

fn spaces_string(n: usize) -> (r: String)
    ensures
        r@ == spaces(n as nat),
{
    let mut r = String::new();
    let mut i: usize = 0;
    while i < n
        invariant
            i <= n,
            r@ == spaces(i as nat),
        decreases n - i,
    {
        push_char(&mut r, ' ');
        i = i + 1;
        assert(r@ =~= spaces(i as nat));
    }
    r
}

/// Appends the lines of `text`, each after `prefix` and followed by a newline.
fn append_indented(text: &str, prefix: &str, out: &mut String)
    ensures
        final(out)@ == old(out)@ + indent_lines(text@, prefix@, Seq::empty()),
{
    let v = chars_of(text);
    let ghost target = old(out)@ + indent_lines(v@, prefix@, Seq::empty());
    let mut start: usize = 0;
    let mut i: usize = 0;
    assert(v@.skip(0) =~= v@);
    assert(v@.subrange(0, 0) =~= Seq::<char>::empty());
    while i < v.len()
        invariant
            v@ == text@,
            start <= i <= v@.len(),
            out@ + indent_lines(v@.skip(i as int), prefix@, v@.subrange(start as int, i as int))
                == target,
        decreases v@.len() - i,
    {
        let ghost rest = v@.skip(i as int);
        let ghost cur = v@.subrange(start as int, i as int);
        assert(rest[0] == v@[i as int]);
        assert(rest.drop_first() =~= v@.skip(i + 1));
        if v[i] == '\n' {
            let mut end = i;
            if end > start && v[end - 1] == '\r' {
                end = end - 1;
            }
            assert(v@.subrange(start as int, end as int) =~= strip_cr(cur));
            let line = string_from_range(&v, start, end);
            let ghost before = out@;
            push_str(out, prefix);
            push_str(out, line.as_str());
            push_str(out, "\n");
            assert(indent_lines(rest, prefix@, cur) == prefix@ + strip_cr(cur) + "\n"@ + indent_lines(
                v@.skip(i + 1),
                prefix@,
                Seq::empty(),
            ));
            assert(out@ =~= before + (prefix@ + strip_cr(cur) + "\n"@));
            start = i + 1;
            assert(v@.subrange(start as int, i + 1) =~= Seq::<char>::empty());
        } else {
            assert(cur.push(v@[i as int]) =~= v@.subrange(start as int, i + 1));
            assert(indent_lines(rest, prefix@, cur) == indent_lines(
                v@.skip(i + 1),
                prefix@,
                v@.subrange(start as int, i + 1),
            ));
        }
        i = i + 1;
    }
    assert(v@.skip(i as int) =~= Seq::<char>::empty());
    let ghost cur = v@.subrange(start as int, i as int);
    if start < v.len() {
        let line = string_from_range(&v, start, v.len());
        let ghost before = out@;
        push_str(out, prefix);
        push_str(out, line.as_str());
        push_str(out, "\n");
        assert(out@ =~= before + (prefix@ + cur + "\n"@));
    } else {
        assert(cur.len() == 0);
    }
    assert(out@ =~= target);
}

fn clone_row(row: &Vec<String>) -> (r: Vec<String>)
    ensures
        views(r@) == views(row@),
{
    let mut r: Vec<String> = Vec::new();
    let mut i: usize = 0;
    while i < row.len()
        invariant
            i <= row@.len(),
            views(r@) == views(row@).take(i as int),
        decreases row@.len() - i,
    {
        let c = row[i].clone();
        proof {
            lemma_views_push(r@, c);
        }
        r.push(c);
        i = i + 1;
        assert(views(r@) =~= views(row@).take(i as int));
    }
    assert(views(row@).take(row@.len() as int) =~= views(row@));
    r
}

/// The records of a compact or key-value table: the header row, if any,
/// then every row.
fn all_records(headers: &Option<Vec<String>>, rows: &Vec<Vec<String>>) -> (r: Vec<Vec<String>>)
    ensures
        rows_view(r@) == with_header(
            match headers {
                Some(h) => Some(views(h@)),
                None => None,
            },
            rows_view(rows@),
        ),
{
    let mut r: Vec<Vec<String>> = Vec::new();
    let ghost head: Seq<Seq<Seq<char>>> = match headers {
        Some(h) => seq![views(h@)],
        None => Seq::empty(),
    };
    if let Some(h) = headers {
        r.push(clone_row(h));
    }
    assert(rows_view(r@) =~= head);
    let mut i: usize = 0;
    while i < rows.len()
        invariant
            i <= rows@.len(),
            rows_view(r@) == head + rows_view(rows@).take(i as int),
        decreases rows@.len() - i,
    {
        let c = clone_row(&rows[i]);
        proof {
            lemma_rows_view_push(r@, c);
        }
        r.push(c);
        i = i + 1;
        assert(rows_view(r@) =~= head + rows_view(rows@).take(i as int));
    }
    assert(rows_view(rows@).take(rows@.len() as int) =~= rows_view(rows@));
    assert(rows_view(r@) =~= with_header(
        match headers {
            Some(h) => Some(views(h@)),
            None => None,
        },
        rows_view(rows@),
    ));
    r
}

/// Whether `x` is among `v`.
pub fn contains_index(v: &Vec<usize>, x: usize) -> (b: bool)
    ensures
        b == v@.contains(x),
{
    let mut i: usize = 0;
    while i < v.len()
        invariant
            i <= v@.len(),
            forall|j: int| 0 <= j < i ==> v@[j] != x,
        decreases v@.len() - i,
    {
        if v[i] == x {
            return true;
        }
        i = i + 1;
    }
    false
}

/// How many of the row indices below `n` are not detail rows.
pub fn count_kept_before(detail_rows: &Vec<usize>, n: usize) -> (r: usize)
    ensures
        r == kept_before(detail_rows@, n as nat),
        r <= n,
{
    let mut count: usize = 0;
    let mut i: usize = 0;
    while i < n
        invariant
            i <= n,
            count == kept_before(detail_rows@, i as nat),
            count <= i,
        decreases n - i,
    {
        if !contains_index(detail_rows, i) {
            count = count + 1;
        }
        i = i + 1;
    }
    count
}

/// The records of a record table: the header row, if any, then the rows
/// that are not detail rows (so detail text does not widen the columns).
pub fn record_records(
    headers: &Option<Vec<String>>,
    rows: &Vec<Vec<String>>,
    detail_rows: &Vec<usize>,
) -> (r: Vec<Vec<String>>)
    ensures
        rows_view(r@) == with_header(
            match headers {
                Some(h) => Some(views(h@)),
                None => None,
            },
            data_rows(rows_view(rows@), detail_rows@, rows@.len()),
        ),
{
    let mut r: Vec<Vec<String>> = Vec::new();
    let ghost head: Seq<Seq<Seq<char>>> = match headers {
        Some(h) => seq![views(h@)],
        None => Seq::empty(),
    };
    if let Some(h) = headers {
        r.push(clone_row(h));
    }
    assert(rows_view(r@) =~= head);
    let mut i: usize = 0;
    while i < rows.len()
        invariant
            i <= rows@.len(),
            rows_view(r@) == head + data_rows(rows_view(rows@), detail_rows@, i as nat),
        decreases rows@.len() - i,
    {
        let ghost prev = r@;
        if !contains_index(detail_rows, i) {
            let c = clone_row(&rows[i]);
            proof {
                lemma_rows_view_push(r@, c);
            }
            r.push(c);
        } else {
            assert(r@ == prev);
        }
        i = i + 1;
        assert(rows_view(r@) =~= head + data_rows(rows_view(rows@), detail_rows@, i as nat));
    }
    r
}

/// The panels of a record table, in insertion order: position and text.
pub fn detail_panels(rows: &Vec<Vec<String>>, detail_rows: &Vec<usize>, header_offset: usize) -> (r:
    Vec<(usize, String)>)
    requires
        header_offset <= 1,
    ensures
        r@.len() == record_panels(rows_view(rows@), detail_rows@, header_offset, detail_rows@.len()).len(),
        forall|j: int|
            0 <= j < r@.len() ==> (#[trigger] r@[j]).0 == record_panels(
                rows_view(rows@),
                detail_rows@,
                header_offset,
                detail_rows@.len(),
            )[j].0 && r@[j].1@ == record_panels(
                rows_view(rows@),
                detail_rows@,
                header_offset,
                detail_rows@.len(),
            )[j].1,
{
    let ghost rv = rows_view(rows@);
    let mut r: Vec<(usize, String)> = Vec::new();
    let mut k: usize = 0;
    while k < detail_rows.len()
        invariant
            k <= detail_rows@.len(),
            header_offset <= 1,
            rv == rows_view(rows@),
            r@.len() == record_panels(rv, detail_rows@, header_offset, k as nat).len(),
            forall|j: int|
                0 <= j < r@.len() ==> (#[trigger] r@[j]).0 == record_panels(
                    rv,
                    detail_rows@,
                    header_offset,
                    k as nat,
                )[j].0 && r@[j].1@ == record_panels(rv, detail_rows@, header_offset, k as nat)[j].1,
        decreases detail_rows@.len() - k,
    {
        let idx = detail_rows[k];
        let ghost prev = record_panels(rv, detail_rows@, header_offset, k as nat);
        if idx < rows.len() && rows[idx].len() > 0 && rows[idx][0].as_str().unicode_len() > 0 {
            assert(rv[idx as int] == views(rows@[idx as int]@));
            let before = count_kept_before(detail_rows, idx);
            let pos = (before + header_offset).saturating_add(r.len());
            r.push((pos, rows[idx][0].clone()));
        }
        k = k + 1;
        proof {
            let now = record_panels(rv, detail_rows@, header_offset, k as nat);
            assert forall|j: int| 0 <= j < r@.len() implies (#[trigger] r@[j]).0 == now[j].0
                && r@[j].1@ == now[j].1 by {
                if j < prev.len() {
                    assert(now[j] == prev[j]);
                }
            }
        }
    }
    r
}

/// The column count of a record table: the header's length, else the first
/// row's, else 1.
pub fn column_count(headers: &Option<Vec<String>>, rows: &Vec<Vec<String>>) -> (r: usize)
    ensures
        r == record_column_count(
            match headers {
                Some(h) => Some(views(h@)),
                None => None,
            },
            rows_view(rows@),
        ),
{
    match headers {
        Some(h) => h.len(),
        None => if rows.len() > 0 {
            rows[0].len()
        } else {
            1
        },
    }
}

/// Column widths of a record table of `cols` columns in `width` characters.
pub fn record_column_widths(cols: usize, width: usize) -> (r: Vec<usize>)
    requires
        3 * cols + 1 <= usize::MAX,
    ensures
        r@.len() == record_widths(cols as nat, width as nat).len(),
        forall|j: int| 0 <= j < r@.len() ==> r@[j] == #[trigger] record_widths(cols as nat, width as nat)[j],
{
    let overhead = (cols + 1) + cols * 2;
    let room = width.saturating_sub(overhead);
    assert(room == record_room(cols as nat, width as nat));
    let mut r: Vec<usize> = Vec::new();
    if cols == 3 {
        let r40: u128 = (room as u128) * 40 / 100;
        let r30: u128 = (room as u128) * 30 / 100;
        proof {
            let a = room as int;
            assert(a * 40 / 100 <= a * 7 / 10) by (nonlinear_arith)
                requires
                    a >= 0,
            ;
            assert(a * 40 / 100 + a * 30 / 100 <= a) by (nonlinear_arith)
                requires
                    a >= 0,
            ;
        }
        let c0 = r40 as usize;
        let c1 = r30 as usize;
        let c2 = room - c0 - c1;
        r.push(c0);
        r.push(c1);
        r.push(c2);
        assert(r@ =~= seq![c0, c1, c2]);
        assert(record_widths(cols as nat, width as nat) == seq![
            (room as nat) * 40 / 100,
            (room as nat) * 30 / 100,
            ((room as nat) - (room as nat) * 40 / 100 - (room as nat) * 30 / 100) as nat,
        ]);
    } else {
        let each = room / (if cols > 0 { cols } else { 1 });
        let mut i: usize = 0;
        while i < cols
            invariant
                i <= cols,
                cols != 3,
                cols > 0 ==> each == room / cols,
                room == record_room(cols as nat, width as nat),
                r@.len() == i,
                forall|j: int| 0 <= j < i ==> r@[j] == each,
            decreases cols - i,
        {
            r.push(each);
            i = i + 1;
        }
        assert(even_widths(cols as nat, room as nat).len() == cols);
    }
    r
}

/// Column widths of a key-value table in `width` characters.
pub fn key_value_column_widths(width: usize) -> (r: (usize, usize))
    ensures
        r.0 == key_value_widths(width as nat).0,
        r.1 == key_value_widths(width as nat).1,
{
    let room = width.saturating_sub(7);
    let col0 = room / 3;
    (col0, room - col0)
}

/// `title` with a space on each side, as shown on a key-value table's top
/// border.
pub fn title_banner(title: &str) -> (r: String)
    ensures
        r@ == " "@ + title@ + " "@,
{
    let mut r = owned(" ");
    push_str(&mut r, title);
    push_char(&mut r, ' ');
    assert(r@ =~= " "@ + title@ + " "@) by {
        reveal_strlit(" ");
    }
    r
}

fn compact_table(headers: &Option<Vec<String>>, rows: &Vec<Vec<String>>, w: usize) -> (t: tabled::Table)
    ensures
        t == table_for(BlockV::Table(headers_view(*headers), rows_view(rows@), StyleV::Compact), w as nat),
{
    let mut table = table_from_records(all_records(headers, rows));
    style_compact_at(&mut table, w);
    table
}

/// Whether some record has a cell.
fn any_cells(records: &Vec<Vec<String>>) -> (b: bool)
    ensures
        b == has_columns(rows_view(records@)),
{
    let mut i: usize = 0;
    while i < records.len()
        invariant
            i <= records@.len(),
            forall|j: int| 0 <= j < i ==> records@[j]@.len() == 0,
        decreases records@.len() - i,
    {
        if records[i].len() > 0 {
            assert(rows_view(records@)[i as int].len() > 0);
            return true;
        }
        i = i + 1;
    }
    assert forall|j: int| 0 <= j < rows_view(records@).len() implies #[trigger] rows_view(records@)[j].len() == 0 by {
        assert(records@[j]@.len() == 0);
    }
    false
}

fn record_table(
    headers: &Option<Vec<String>>,
    rows: &Vec<Vec<String>>,
    detail_rows: &Vec<usize>,
    w: usize,
) -> (t: tabled::Table)
    ensures
        t == table_for(BlockV::Table(headers_view(*headers), rows_view(rows@), StyleV::Record(detail_rows@)), w as nat),
{
    let ghost hv = headers_view(*headers);
    let ghost rv = rows_view(rows@);
    let records = record_records(headers, rows, detail_rows);
    let ghost recs = rows_view(records@);
    let any = any_cells(&records);
    let mut table = table_from_records(records);
    let ghost t0 = table;
    let header_offset: usize = if headers.is_some() {
        1
    } else {
        0
    };
    let ghost pv = if any {
        record_panels(rv, detail_rows@, header_offset, detail_rows@.len())
    } else {
        Seq::empty()
    };
    apply_rounded(&mut table);
    proof {
        lemma_built_push(t0, Seq::empty(), TableSetting::Rounded);
        assert(Seq::<TableSetting>::empty().push(TableSetting::Rounded) =~= seq![TableSetting::Rounded]);
    }
    let panels = if any {
        detail_panels(rows, detail_rows, header_offset)
    } else {
        Vec::new()
    };
    let mut k: usize = 0;
    while k < panels.len()
        invariant
            t0 == new_table(recs),
            panels@.len() > 0 ==> has_columns(recs),
            k <= panels@.len(),
            panels@.len() == pv.len(),
            forall|j: int| 0 <= j < panels@.len() ==> (#[trigger] panels@[j]).0 == pv[j].0 && panels@[j].1@ == pv[j].1,
            table == built(t0, seq![TableSetting::Rounded] + panel_settings(pv.take(k as int))),
        decreases panels@.len() - k,
    {
        let ghost before = seq![TableSetting::Rounded] + panel_settings(pv.take(k as int));
        assert(built(new_table(recs), before) == table && has_columns(recs));
        apply_panel(&mut table, panels[k].0, panels[k].1.as_str());
        proof {
            lemma_built_push(t0, before, TableSetting::Panel(pv[k as int].0 as nat, pv[k as int].1));
            assert(before.push(TableSetting::Panel(pv[k as int].0 as nat, pv[k as int].1))
                =~= seq![TableSetting::Rounded] + panel_settings(pv.take(k + 1)));
        }
        k = k + 1;
    }
    let ghost with_panels = seq![TableSetting::Rounded] + panel_settings(pv) + seq![TableSetting::BorderCorrection];
    apply_border_correction(&mut table);
    proof {
        assert(pv.take(k as int) =~= pv);
        lemma_built_push(t0, seq![TableSetting::Rounded] + panel_settings(pv), TableSetting::BorderCorrection);
        assert((seq![TableSetting::Rounded] + panel_settings(pv)).push(TableSetting::BorderCorrection) =~= with_panels);
    }
    let cols = column_count(headers, rows);
    let cols = if cols <= (usize::MAX - 1) / 3 { cols } else { (usize::MAX - 1) / 3 };
    let widths = record_column_widths(cols, w);
    let ghost ws = record_widths(cols as nat, w as nat);
    if cols == 3 {
        let ghost t1 = table;
        apply_column_wrap(&mut table, 0, widths[0]);
        apply_column_wrap(&mut table, 1, widths[1]);
        apply_column_wrap(&mut table, 2, widths[2]);
        apply_column_increase(&mut table, 0, widths[0]);
        apply_column_increase(&mut table, 1, widths[1]);
        apply_column_increase(&mut table, 2, widths[2]);
        proof {
            let cs = column_settings(cols as nat, ws);
            let e = Seq::<TableSetting>::empty();
            assert(widths@[0] == ws[0] && widths@[1] == ws[1] && widths@[2] == ws[2]);
            lemma_built_push(t1, e, cs[0]);
            lemma_built_push(t1, e.push(cs[0]), cs[1]);
            lemma_built_push(t1, e.push(cs[0]).push(cs[1]), cs[2]);
            lemma_built_push(t1, e.push(cs[0]).push(cs[1]).push(cs[2]), cs[3]);
            lemma_built_push(t1, e.push(cs[0]).push(cs[1]).push(cs[2]).push(cs[3]), cs[4]);
            lemma_built_push(t1, e.push(cs[0]).push(cs[1]).push(cs[2]).push(cs[3]).push(cs[4]), cs[5]);
            assert(e.push(cs[0]).push(cs[1]).push(cs[2]).push(cs[3]).push(cs[4]).push(cs[5]) =~= cs);
            lemma_built_append(t0, with_panels, cs);
        }
    } else {
        let ghost t1 = table;
        let mut i: usize = 0;
        while i < widths.len()
            invariant
                cols != 3,
                i <= widths@.len(),
                widths@.len() == ws.len(),
                forall|j: int| 0 <= j < widths@.len() ==> widths@[j] == #[trigger] ws[j],
                table == built(t1, column_pairs(ws, i as nat)),
            decreases widths@.len() - i,
        {
            let ghost before = column_pairs(ws, i as nat);
            apply_column_wrap(&mut table, i, widths[i]);
            apply_column_increase(&mut table, i, widths[i]);
            proof {
                assert(widths@[i as int] == ws[i as int]);
                lemma_built_push(t1, before, TableSetting::ColumnWrap(i as nat, ws[i as int]));
                lemma_built_push(
                    t1,
                    before.push(TableSetting::ColumnWrap(i as nat, ws[i as int])),
                    TableSetting::ColumnIncrease(i as nat, ws[i as int]),
                );
                assert(before.push(TableSetting::ColumnWrap(i as nat, ws[i as int])).push(
                    TableSetting::ColumnIncrease(i as nat, ws[i as int]),
                ) =~= column_pairs(ws, (i + 1) as nat));
            }
            i = i + 1;
        }
        proof {
            lemma_built_append(t0, with_panels, column_pairs(ws, ws.len()));
        }
    }
    proof {
        let cap = capped_cols(hv, rv);
        assert(cap == cols as nat);
        assert(with_panels + column_settings(cols as nat, ws) =~= record_table_settings(hv, rv, detail_rows@, w as nat));
        assert(table == table_for(BlockV::Table(hv, rv, StyleV::Record(detail_rows@)), w as nat));
    }
    table
}

fn key_value_table(rows: &Vec<Vec<String>>, title: &String, w: usize) -> (t: tabled::Table)
    ensures
        t == table_for(BlockV::Table(None, rows_view(rows@), StyleV::KeyValue(title@)), w as nat),
{
    let mut table = table_from_records(all_records(&None, rows));
    let ghost t0 = table;
    let (col0, col1) = key_value_column_widths(w);
    let ghost ss = key_value_settings(title@, w as nat);
    let ghost e = Seq::<TableSetting>::empty();
    apply_modern(&mut table);
    apply_column_increase(&mut table, 0, col0);
    apply_column_wrap(&mut table, 0, col0);
    apply_column_increase(&mut table, 1, col1);
    apply_column_wrap(&mut table, 1, col1);
    proof {
        lemma_built_push(t0, e, ss[0]);
        lemma_built_push(t0, e.push(ss[0]), ss[1]);
        lemma_built_push(t0, e.push(ss[0]).push(ss[1]), ss[2]);
        lemma_built_push(t0, e.push(ss[0]).push(ss[1]).push(ss[2]), ss[3]);
        lemma_built_push(t0, e.push(ss[0]).push(ss[1]).push(ss[2]).push(ss[3]), ss[4]);
    }
    let ghost five = e.push(ss[0]).push(ss[1]).push(ss[2]).push(ss[3]).push(ss[4]);
    if title.as_str().unicode_len() > 0 {
        let banner = title_banner(title.as_str());
        apply_top_line_text(&mut table, banner.as_str(), 1);
        proof {
            lemma_built_push(t0, five, ss[5]);
            assert(five.push(ss[5]) =~= ss);
        }
    } else {
        assert(five =~= ss);
    }
    proof {
        assert(with_header(None, rows_view(rows@)) == rows_view(rows@));
        assert(table == table_for(BlockV::Table(None, rows_view(rows@), StyleV::KeyValue(title@)), w as nat));
    }
    table
}

fn format_pretty_block(block: &Block, out: &mut String, indent: usize, w: usize)
    ensures
        final(out)@ == old(out)@ + pretty_block(block@, indent, block_texts(block@, w as nat)),
    decreases block, 0int,
{
    let prefix = spaces_string(indent);
    match block {
        Block::Line(s) => {
            push_str(out, prefix.as_str());
            push_str(out, s.as_str());
            push_str(out, "\n");
        },
        Block::Table { headers, rows, style } => {
            let table = match style {
                TableStyle::Compact => {
                    assert(block@ == BlockV::Table(headers_view(*headers), rows_view(rows@), StyleV::Compact));
                    compact_table(headers, rows, w)
                },
                TableStyle::Record { detail_rows } => {
                    assert(block@ == BlockV::Table(headers_view(*headers), rows_view(rows@), StyleV::Record(detail_rows@)));
                    record_table(headers, rows, detail_rows, w)
                },
                TableStyle::KeyValue { title } => {
                    let t = key_value_table(rows, title, w);
                    assert(table_for(block@, w as nat) == table_for(
                        BlockV::Table(None, rows_view(rows@), StyleV::KeyValue(title@)),
                        w as nat,
                    ));
                    t
                },
            };
            let rendered = table_text(&table);
            let key_value = match style {
                TableStyle::KeyValue { .. } => true,
                _ => false,
            };
            if indent > 0 {
                append_indented(rendered.as_str(), prefix.as_str(), out);
            } else {
                push_str(out, rendered.as_str());
                push_str(out, "\n");
            }
            if key_value {
                push_str(out, "\n");
            }
            assert(block_texts(block@, w as nat) == seq![rendered@]);
            assert(out@ =~= old(out)@ + pretty_block(block@, indent, block_texts(block@, w as nat)));
        },
        Block::Section { label, children } => {
            push_str(out, prefix.as_str());
            push_str(out, label.as_str());
            push_str(out, ":\n");
            assert(children@.skip(0) =~= children@);
            pretty_children(children, 0, out, indent.saturating_add(2), w);
            assert(out@ =~= old(out)@ + pretty_block(block@, indent, block_texts(block@, w as nat)));
        },
    }
}

fn pretty_children(v: &Vec<Block>, i: usize, out: &mut String, indent: usize, w: usize)
    requires
        i <= v@.len(),
    ensures
        final(out)@ == old(out)@ + pretty_blocks(
            blocks_view(v@.skip(i as int)),
            indent,
            table_texts(blocks_view(v@.skip(i as int)), w as nat),
        ),
    decreases v, v@.len() - i,
{
    if i >= v.len() {
        proof {
            lemma_blocks_view(v@.skip(i as int));
        }
        assert(out@ =~= out@ + Seq::<char>::empty());
        return;
    }
    proof {
        lemma_blocks_view_skip(v@, i as int);
        lemma_table_texts_split(blocks_view(v@.skip(i as int)), w as nat);
    }
    format_pretty_block(&v[i], out, indent, w);
    pretty_children(v, i + 1, out, indent, w);
    assert(out@ =~= old(out)@ + pretty_blocks(
        blocks_view(v@.skip(i as int)),
        indent,
        table_texts(blocks_view(v@.skip(i as int)), w as nat),
    ));
}

fn pretty_top(blocks: &[Block], i: usize, out: &mut String, w: usize)
    requires
        i <= blocks@.len(),
    ensures
        final(out)@ == old(out)@ + pretty_at(blocks_view(blocks@.skip(i as int)), w as nat),
    decreases blocks@.len() - i,
{
    if i >= blocks.len() {
        proof {
            lemma_blocks_view(blocks@.skip(i as int));
        }
        assert(out@ =~= out@ + Seq::<char>::empty());
        return;
    }
    proof {
        lemma_blocks_view_skip(blocks@, i as int);
        lemma_table_texts_split(blocks_view(blocks@.skip(i as int)), w as nat);
    }
    format_pretty_block(&blocks[i], out, 0, w);
    pretty_top(blocks, i + 1, out, w);
    assert(out@ =~= old(out)@ + pretty_at(blocks_view(blocks@.skip(i as int)), w as nat));
}

/// Format blocks as terminal output with box-drawing tables, every table
/// drawn by `tabled` at width `width`: the output is [`pretty_at`].
pub fn format_pretty_at(blocks: &[Block], width: usize) -> (r: String)
    ensures
        r@ == pretty_at(blocks_view(blocks@), width as nat),
{
    let mut out = String::new();
    assert(blocks@.skip(0) =~= blocks@);
    pretty_top(blocks, 0, &mut out, width);
    assert(out@ =~= pretty_at(blocks_view(blocks@), width as nat));
    out
}

/// Format blocks as terminal output with box-drawing tables, drawn at the
/// terminal width ([`term_width`]).
pub fn format_pretty(blocks: &[Block]) -> (r: String)
    ensures
        exists|w: nat| w <= u16::MAX && r@ == #[trigger] pretty_at(blocks_view(blocks@), w),
{
    let w = term_width();
    format_pretty_at(blocks, w)
}

} // verus!
