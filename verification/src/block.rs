//! Rendering primitives: the output of every command is a list of blocks
//! that the formatters in [`crate::render`] turn into text.

use vstd::prelude::*;
use crate::text::views;

verus! {

/// How a table block is laid out.
#[derive(Debug, PartialEq)]
pub enum TableStyle {
    /// Rounded borders, no lines between rows.
    Compact,
    /// Rounded borders; the rows listed in `detail_rows` are shown as
    /// full-width panels below the row before them.
    Record {
        /// Indices into the table's rows of the detail rows.
        detail_rows: Vec<usize>,
    },
    /// Two columns (field, value) with a title on the top border.
    KeyValue {
        /// Title shown on the top border (none when empty).
        title: String,
    },
}

/// One unit of command output.
#[derive(Debug, PartialEq)]
pub enum Block {
    /// A single line of text.
    Line(String),
    /// A table.
    Table {
        /// Optional header row.
        headers: Option<Vec<String>>,
        /// Data rows.
        rows: Vec<Vec<String>>,
        /// Layout.
        style: TableStyle,
    },
    /// A labelled group of blocks.
    Section {
        /// Section label.
        label: String,
        /// Blocks inside the section.
        children: Vec<Block>,
    },
}

/// Model of a [`TableStyle`].
pub enum StyleV {
    Compact,
    Record(Seq<usize>),
    KeyValue(Seq<char>),
}

/// Model of a [`Block`].
pub enum BlockV {
    Line(Seq<char>),
    Table(Option<Seq<Seq<char>>>, Seq<Seq<Seq<char>>>, StyleV),
    Section(Seq<char>, Seq<BlockV>),
}

pub open spec fn style_view(s: TableStyle) -> StyleV {
    match s {
        TableStyle::Compact => StyleV::Compact,
        TableStyle::Record { detail_rows } => StyleV::Record(detail_rows@),
        TableStyle::KeyValue { title } => StyleV::KeyValue(title@),
    }
}

/// The views of a list of rows.
pub open spec fn rows_view(rows: Seq<Vec<String>>) -> Seq<Seq<Seq<char>>> {
    Seq::new(rows.len(), |i: int| views(rows[i]@))
}

pub proof fn lemma_rows_view_push(rows: Seq<Vec<String>>, x: Vec<String>)
    ensures
        rows_view(rows.push(x)) == rows_view(rows).push(views(x@)),
{
    assert(rows_view(rows.push(x)) =~= rows_view(rows).push(views(x@)));
}

pub open spec fn block_view(b: Block) -> BlockV
    decreases b,
{
    match b {
        Block::Line(s) => BlockV::Line(s@),
        Block::Table { headers, rows, style } => BlockV::Table(
            match headers {
                Some(h) => Some(views(h@)),
                None => None,
            },
            rows_view(rows@),
            style_view(style),
        ),
        Block::Section { label, children } => BlockV::Section(label@, blocks_view(children@)),
    }
}

pub open spec fn blocks_view(s: Seq<Block>) -> Seq<BlockV>
    decreases s,
{
    if s.len() == 0 {
        Seq::empty()
    } else {
        seq![block_view(s[0])] + blocks_view(s.drop_first())
    }
}

impl View for Block {
    type V = BlockV;

    open spec fn view(&self) -> BlockV {
        block_view(*self)
    }
}

pub proof fn lemma_blocks_view(s: Seq<Block>)
    ensures
        blocks_view(s).len() == s.len(),
        forall|j: int| 0 <= j < s.len() ==> #[trigger] blocks_view(s)[j] == block_view(s[j]),
    decreases s.len(),
{
    if s.len() > 0 {
        lemma_blocks_view(s.drop_first());
        assert forall|j: int| 0 <= j < s.len() implies #[trigger] blocks_view(s)[j] == block_view(
            s[j],
        ) by {
            if j > 0 {
                assert(s.drop_first()[j - 1] == s[j]);
            }
        }
    }
}

pub proof fn lemma_blocks_view_skip(s: Seq<Block>, i: int)
    requires
        0 <= i < s.len(),
    ensures
        blocks_view(s.skip(i)).len() > 0,
        blocks_view(s.skip(i))[0] == block_view(s[i]),
        blocks_view(s.skip(i)).drop_first() == blocks_view(s.skip(i + 1)),
{
    lemma_blocks_view(s.skip(i));
    lemma_blocks_view(s.skip(i + 1));
    assert(s.skip(i)[0] == s[i]);
    assert(blocks_view(s.skip(i)).drop_first() =~= blocks_view(s.skip(i + 1))) by {
        assert forall|j: int| 0 <= j < blocks_view(s.skip(i + 1)).len() implies blocks_view(
            s.skip(i),
        ).drop_first()[j] == blocks_view(s.skip(i + 1))[j] by {
            assert(s.skip(i)[j + 1] == s.skip(i + 1)[j]);
        }
    }
}

pub proof fn lemma_blocks_view_push(s: Seq<Block>, b: Block)
    ensures
        blocks_view(s.push(b)) == blocks_view(s).push(block_view(b)),
{
    lemma_blocks_view(s);
    lemma_blocks_view(s.push(b));
    assert(blocks_view(s.push(b)) =~= blocks_view(s).push(block_view(b)));
}

/// Things that describe themselves as output blocks.
pub trait Render {
    /// The blocks that show this value.
    fn render(&self) -> Vec<Block>;
}

} // verus!
