//! Block-level markdown tree.
//!
//! The types here describe markdown at block granularity: headings,
//! paragraphs, lists and so on. Inline content lives in
//! [`crate::markdown::inline`].
use crate::markdown::inline::{clone_inlines, inline_models, Inline, InlineView};
use vstd::prelude::*;

verus! {

/// A parsed markdown document: its top-level blocks in source order.
#[derive(Debug, PartialEq, Eq)]
pub struct MdDocument {
    /// Top-level blocks in source order.
    pub blocks: Vec<MdBlock>,
}

/// A single block-level markdown node.
#[derive(Debug, PartialEq, Eq)]
pub enum MdBlock {
    /// ATX or setext heading.
    Heading {
        /// Heading level, within `1..=6`.
        level: u8,
        /// Heading content.
        inlines: Vec<Inline>,
    },
    /// A paragraph composed of inline spans.
    Paragraph(Vec<Inline>),
    /// Indented or fenced code block.
    CodeBlock {
        /// Language tag of a fenced block, if any.
        lang: Option<String>,
        /// Verbatim code contents.
        text: String,
    },
    /// A blockquote containing nested blocks.
    BlockQuote(Vec<MdBlock>),
    /// An ordered or unordered list; each item is itself a list of blocks.
    List {
        /// Whether the list is ordered.
        ordered: bool,
        /// One entry per item.
        items: Vec<Vec<MdBlock>>,
    },
    /// A pipe table.
    Table {
        /// Cells of the header row.
        headers: Vec<Vec<Inline>>,
        /// Body rows; each row has the same number of cells as `headers`.
        rows: Vec<Vec<Vec<Inline>>>,
    },
    /// A raw HTML block.
    HtmlBlock(String),
    /// A horizontal rule.
    ThematicBreak,
}

/// The mathematical content of an [`MdBlock`].
#[verifier::ext_equal]
pub enum BlockView {
    Heading { level: u8, inlines: Seq<InlineView> },
    Paragraph(Seq<InlineView>),
    CodeBlock { lang: Option<Seq<char>>, text: Seq<char> },
    BlockQuote(Seq<BlockView>),
    List { ordered: bool, items: Seq<Seq<BlockView>> },
    Table { headers: Seq<Seq<InlineView>>, rows: Seq<Seq<Seq<InlineView>>> },
    HtmlBlock(Seq<char>),
    ThematicBreak,
}

/// The view of an optional string.
pub open spec fn option_text(s: Option<String>) -> Option<Seq<char>> {
    match s {
        Some(t) => Some(t@),
        None => None,
    }
}

/// The models of a row of table cells.
pub open spec fn cell_models(s: Seq<Vec<Inline>>) -> Seq<Seq<InlineView>> {
    Seq::new(s.len(), |i: int| inline_models(s[i]@))
}

/// The models of the rows of a table.
pub open spec fn row_models(s: Seq<Vec<Vec<Inline>>>) -> Seq<Seq<Seq<InlineView>>> {
    Seq::new(s.len(), |i: int| cell_models(s[i]@))
}

/// The models of a run of blocks, in order.
pub open spec fn block_models(s: Seq<MdBlock>) -> Seq<BlockView>
    decreases s,
{
    Seq::new(
        s.len(),
        |i: int| if 0 <= i < s.len() { s[i].model() } else { BlockView::ThematicBreak },
    )
}

/// The models of the items of a list.
pub open spec fn item_models(s: Seq<Vec<MdBlock>>) -> Seq<Seq<BlockView>>
    decreases s,
{
    Seq::new(
        s.len(),
        |i: int| if 0 <= i < s.len() { block_models(s[i]@) } else { Seq::empty() },
    )
}

impl MdBlock {
    /// The content of this block with every string and list taken by its view.
    pub open spec fn model(self) -> BlockView
        decreases self,
    {
        match self {
            MdBlock::Heading { level, inlines } => BlockView::Heading {
                level,
                inlines: inline_models(inlines@),
            },
            MdBlock::Paragraph(v) => BlockView::Paragraph(inline_models(v@)),
            MdBlock::CodeBlock { lang, text } => BlockView::CodeBlock {
                lang: option_text(lang),
                text: text@,
            },
            MdBlock::BlockQuote(v) => BlockView::BlockQuote(block_models(v@)),
            MdBlock::List { ordered, items } => BlockView::List {
                ordered,
                items: item_models(items@),
            },
            MdBlock::Table { headers, rows } => BlockView::Table {
                headers: cell_models(headers@),
                rows: row_models(rows@),
            },
            MdBlock::HtmlBlock(s) => BlockView::HtmlBlock(s@),
            MdBlock::ThematicBreak => BlockView::ThematicBreak,
        }
    }

    /// Whether the block is a terminator: at the tail of a streaming buffer
    /// it will not be reinterpreted by future bytes. Only a horizontal rule
    /// is one unconditionally.
    pub fn is_open_terminator(&self) -> (r: bool)
        ensures
            r == (self is ThematicBreak),
    {
        matches!(self, MdBlock::ThematicBreak)
    }
}

impl View for MdBlock {
    type V = BlockView;

    open spec fn view(&self) -> BlockView {
        self.model()
    }
}

impl View for MdDocument {
    type V = Seq<BlockView>;

    open spec fn view(&self) -> Seq<BlockView> {
        block_models(self.blocks@)
    }
}

/// Copies a row of table cells.
fn clone_cells(v: &Vec<Vec<Inline>>) -> (r: Vec<Vec<Inline>>)
    ensures
        cell_models(r@) == cell_models(v@),
{
    let mut out: Vec<Vec<Inline>> = Vec::new();
    let mut i: usize = 0;
    while i < v.len()
        invariant
            i <= v.len(),
            out.len() == i,
            forall|j: int|
                0 <= j < i ==> inline_models(#[trigger] out@[j]@) == inline_models(v@[j]@),
        decreases v.len() - i,
    {
        out.push(clone_inlines(&v[i]));
        i += 1;
    }
    out
}

/// Copies the rows of a table.
fn clone_rows(v: &Vec<Vec<Vec<Inline>>>) -> (r: Vec<Vec<Vec<Inline>>>)
    ensures
        row_models(r@) == row_models(v@),
{
    let mut out: Vec<Vec<Vec<Inline>>> = Vec::new();
    let mut i: usize = 0;
    while i < v.len()
        invariant
            i <= v.len(),
            out.len() == i,
            forall|j: int| 0 <= j < i ==> cell_models(#[trigger] out@[j]@) == cell_models(v@[j]@),
        decreases v.len() - i,
    {
        out.push(clone_cells(&v[i]));
        i += 1;
    }
    out
}

/// Copies a run of blocks.
pub fn clone_blocks(v: &Vec<MdBlock>) -> (r: Vec<MdBlock>)
    ensures
        block_models(r@) == block_models(v@),
    decreases v,
{
    let mut out: Vec<MdBlock> = Vec::new();
    let mut i: usize = 0;
    while i < v.len()
        invariant
            i <= v.len(),
            out.len() == i,
            forall|j: int| 0 <= j < i ==> (#[trigger] out@[j]).model() == v@[j].model(),
        decreases v.len() - i,
    {
        let c = v[i].clone();
        out.push(c);
        i += 1;
    }
    out
}

/// Copies the items of a list.
fn clone_items(v: &Vec<Vec<MdBlock>>) -> (r: Vec<Vec<MdBlock>>)
    ensures
        item_models(r@) == item_models(v@),
    decreases v,
{
    let mut out: Vec<Vec<MdBlock>> = Vec::new();
    let mut i: usize = 0;
    while i < v.len()
        invariant
            i <= v.len(),
            out.len() == i,
            forall|j: int|
                0 <= j < i ==> block_models(#[trigger] out@[j]@) == block_models(v@[j]@),
        decreases v.len() - i,
    {
        out.push(clone_blocks(&v[i]));
        i += 1;
    }
    out
}

impl Clone for MdBlock {
    fn clone(&self) -> (r: Self)
        ensures
            r.model() == self.model(),
        decreases self,
    {
        match self {
            MdBlock::Heading { level, inlines } => MdBlock::Heading {
                level: *level,
                inlines: clone_inlines(inlines),
            },
            MdBlock::Paragraph(v) => MdBlock::Paragraph(clone_inlines(v)),
            MdBlock::CodeBlock { lang, text } => {
                let lang_copy = match lang {
                    Some(s) => Some(s.clone()),
                    None => None,
                };
                MdBlock::CodeBlock { lang: lang_copy, text: text.clone() }
            },
            MdBlock::BlockQuote(v) => MdBlock::BlockQuote(clone_blocks(v)),
            MdBlock::List { ordered, items } => MdBlock::List {
                ordered: *ordered,
                items: clone_items(items),
            },
            MdBlock::Table { headers, rows } => MdBlock::Table {
                headers: clone_cells(headers),
                rows: clone_rows(rows),
            },
            MdBlock::HtmlBlock(s) => MdBlock::HtmlBlock(s.clone()),
            MdBlock::ThematicBreak => MdBlock::ThematicBreak,
        }
    }
}

impl Clone for MdDocument {
    fn clone(&self) -> (r: Self)
        ensures
            r@ == self@,
    {
        MdDocument { blocks: clone_blocks(&self.blocks) }
    }
}

/// Each block stands for the block of its own kind, with its own level,
/// language, text, items and cells, in order.
pub proof fn law_block_models(
    level: u8,
    ordered: bool,
    text: String,
    lang: Option<String>,
    inlines: Vec<Inline>,
    kids: Vec<MdBlock>,
    items: Vec<Vec<MdBlock>>,
    cells: Vec<Vec<Inline>>,
    rows: Vec<Vec<Vec<Inline>>>,
    i: int,
)
    ensures
        (MdBlock::Heading { level, inlines })@ == (BlockView::Heading {
            level,
            inlines: inline_models(inlines@),
        }),
        MdBlock::Paragraph(inlines)@ == BlockView::Paragraph(inline_models(inlines@)),
        (MdBlock::CodeBlock { lang, text })@ == (BlockView::CodeBlock {
            lang: match lang {
                Some(s) => Some(s@),
                None => None,
            },
            text: text@,
        }),
        MdBlock::BlockQuote(kids)@ == BlockView::BlockQuote(block_models(kids@)),
        (MdBlock::List { ordered, items })@ == (BlockView::List {
            ordered,
            items: item_models(items@),
        }),
        (MdBlock::Table { headers: cells, rows })@ == (BlockView::Table {
            headers: cell_models(cells@),
            rows: row_models(rows@),
        }),
        MdBlock::HtmlBlock(text)@ == BlockView::HtmlBlock(text@),
        MdBlock::ThematicBreak@ == BlockView::ThematicBreak,
        (MdDocument { blocks: kids })@ == block_models(kids@),
        block_models(kids@).len() == kids@.len(),
        0 <= i < kids@.len() ==> block_models(kids@)[i] == kids@[i]@,
        item_models(items@).len() == items@.len(),
        0 <= i < items@.len() ==> item_models(items@)[i] == block_models(items@[i]@),
        cell_models(cells@).len() == cells@.len(),
        0 <= i < cells@.len() ==> cell_models(cells@)[i] == inline_models(cells@[i]@),
        row_models(rows@).len() == rows@.len(),
        0 <= i < rows@.len() ==> row_models(rows@)[i] == cell_models(rows@[i]@),
{
}

} // verus!
