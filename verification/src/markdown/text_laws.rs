//! No text is lost or changed on the way from events to blocks.
use crate::markdown::ast::BlockView;
use crate::markdown::events::{
    cmark_events, markdown_stream, stream_events, EventView, MdTagEnd, TagView,
};
use crate::markdown::forest::{
    blocks_of, blocks_of_node, cells_of, code_of, fits_blocks, fits_items, fits_leaves,
    fits_rows, fits_text, forest_events, is_inline_tag, is_leaf, kids_of, law_walk_of_forest,
    leaf_text, node_events, rows_of, text_of, text_of_node, Node,
};
use crate::markdown::inline::InlineView;
use crate::markdown::parser::parsed;
use crate::markdown::unparse::wrapped;
use crate::markdown::walker::document_blocks;
use vstd::prelude::*;

verus! {

/// What a piece of what a reader sees is.
pub enum Style {
    Plain,
    Code,
    Html,
    SoftBreak,
    HardBreak,
    Rule,
}

/// A piece of what a reader sees: a character of text, of code or of HTML, a
/// line break, or a rule.
pub type Piece = (Style, char);

/// The characters of a text.
pub open spec fn plain(s: Seq<char>) -> Seq<Piece>
    decreases s.len(),
{
    if s.len() == 0 {
        Seq::empty()
    } else {
        plain(s.drop_last()).push((Style::Plain, s.last()))
    }
}

/// The characters of a code span.
pub open spec fn code(s: Seq<char>) -> Seq<Piece>
    decreases s.len(),
{
    if s.len() == 0 {
        Seq::empty()
    } else {
        code(s.drop_last()).push((Style::Code, s.last()))
    }
}

/// The characters of raw HTML.
pub open spec fn html(s: Seq<char>) -> Seq<Piece>
    decreases s.len(),
{
    if s.len() == 0 {
        Seq::empty()
    } else {
        html(s.drop_last()).push((Style::Html, s.last()))
    }
}

/// Each character of a text is one piece.
pub proof fn lemma_one_piece_each(s: Seq<char>)
    ensures
        plain(s).len() == s.len(),
        code(s).len() == s.len(),
        html(s).len() == s.len(),
        forall|i: int| 0 <= i < s.len() ==> #[trigger] plain(s)[i] == (Style::Plain, s[i]),
        forall|i: int| 0 <= i < s.len() ==> #[trigger] code(s)[i] == (Style::Code, s[i]),
        forall|i: int| 0 <= i < s.len() ==> #[trigger] html(s)[i] == (Style::Html, s[i]),
    decreases s.len(),
{
    if s.len() > 0 {
        lemma_one_piece_each(s.drop_last());
    }
}

/// The pieces of a leaf event.
pub open spec fn leaf_pieces(event: EventView) -> Seq<Piece> {
    match event {
        EventView::Text(s) => plain(s),
        EventView::Code(s) => code(s),
        EventView::Html(s) => html(s),
        EventView::InlineHtml(s) => html(s),
        EventView::SoftBreak => seq![(Style::SoftBreak, ' ')],
        EventView::HardBreak => seq![(Style::HardBreak, '\n')],
        EventView::Rule => seq![(Style::Rule, '\n')],
        _ => Seq::empty(),
    }
}

/// The pieces of a run of events in a run of text: those of its leaves, but
/// for elements that do not belong in text, and for rules.
pub open spec fn text_pieces(forest: Seq<Node>) -> Seq<Piece>
    decreases forest,
{
    if forest.len() == 0 {
        Seq::empty()
    } else {
        (match forest[0] {
            Node::Leaf(event) => if event is Rule {
                Seq::empty()
            } else {
                leaf_pieces(event)
            },
            Node::Element(tag, kids) => if is_inline_tag(tag) {
                text_pieces(kids)
            } else {
                Seq::empty()
            },
        }) + text_pieces(forest.drop_first())
    }
}

/// The pieces of a row of cells.
pub open spec fn row_pieces(forest: Seq<Node>) -> Seq<Piece>
    decreases forest.len(),
{
    if forest.len() == 0 {
        Seq::empty()
    } else {
        row_pieces(forest.drop_last()) + text_pieces(kids_of(forest.last()))
    }
}

/// The pieces of the rows of a table, each cut to `width` cells.
pub open spec fn body_pieces(forest: Seq<Node>, width: nat) -> Seq<Piece>
    decreases forest.len(),
{
    if forest.len() == 0 {
        Seq::empty()
    } else {
        let cells = kids_of(forest.last());
        body_pieces(forest.drop_last(), width) + row_pieces(
            if cells.len() > width {
                cells.take(width as int)
            } else {
                cells
            },
        )
    }
}

/// The pieces of a node in a run of blocks.
pub open spec fn node_pieces(node: Node) -> Seq<Piece>
    decreases node,
{
    match node {
        Node::Leaf(event) => leaf_pieces(event),
        Node::Element(tag, kids) => match tag {
            TagView::Heading { .. } | TagView::Paragraph => text_pieces(kids),
            TagView::CodeBlock { .. } => plain(code_of(kids)),
            TagView::Table => row_pieces(kids_of(kids[0])) + body_pieces(
                kids.drop_first(),
                kids_of(kids[0]).len(),
            ),
            _ => if is_inline_tag(tag) {
                text_pieces(kids)
            } else {
                stream_pieces(kids)
            },
        },
    }
}

/// The pieces of a run of events in a run of blocks: those of all its leaves,
/// in order, but for what does not belong where it stands.
pub open spec fn stream_pieces(forest: Seq<Node>) -> Seq<Piece>
    decreases forest,
{
    if forest.len() == 0 {
        Seq::empty()
    } else {
        node_pieces(forest[0]) + stream_pieces(forest.drop_first())
    }
}

/// The pieces of an inline node.
pub open spec fn inline_pieces(node: InlineView) -> Seq<Piece>
    decreases node,
{
    match node {
        InlineView::Text(s) => plain(s),
        InlineView::Code(s) => code(s),
        InlineView::Html(s) => html(s),
        InlineView::SoftBreak => seq![(Style::SoftBreak, ' ')],
        InlineView::HardBreak => seq![(Style::HardBreak, '\n')],
        InlineView::Emphasis(c) => run_pieces(c),
        InlineView::Strong(c) => run_pieces(c),
        InlineView::Strikethrough(c) => run_pieces(c),
        InlineView::Link { children, .. } => run_pieces(children),
        InlineView::Image { alt, .. } => run_pieces(alt),
    }
}

/// The pieces of a run of inline nodes.
pub open spec fn run_pieces(run: Seq<InlineView>) -> Seq<Piece>
    decreases run,
{
    if run.len() == 0 {
        Seq::empty()
    } else {
        run_pieces(run.drop_last()) + inline_pieces(run.last())
    }
}

/// The pieces of a row of table cells.
pub open spec fn cell_pieces(cells: Seq<Seq<InlineView>>) -> Seq<Piece>
    decreases cells.len(),
{
    if cells.len() == 0 {
        Seq::empty()
    } else {
        cell_pieces(cells.drop_last()) + run_pieces(cells.last())
    }
}

/// The pieces of the rows of a table.
pub open spec fn table_pieces(rows: Seq<Seq<Seq<InlineView>>>) -> Seq<Piece>
    decreases rows.len(),
{
    if rows.len() == 0 {
        Seq::empty()
    } else {
        table_pieces(rows.drop_last()) + cell_pieces(rows.last())
    }
}

/// The pieces of a block.
pub open spec fn block_pieces(block: BlockView) -> Seq<Piece>
    decreases block,
{
    match block {
        BlockView::Heading { inlines, .. } => run_pieces(inlines),
        BlockView::Paragraph(inlines) => run_pieces(inlines),
        BlockView::CodeBlock { text, .. } => plain(text),
        BlockView::BlockQuote(inner) => tree_pieces(inner),
        BlockView::List { items, .. } => item_pieces(items),
        BlockView::Table { headers, rows } => cell_pieces(headers) + table_pieces(rows),
        BlockView::HtmlBlock(s) => html(s),
        BlockView::ThematicBreak => seq![(Style::Rule, '\n')],
    }
}

/// The pieces of a run of blocks, in order.
pub open spec fn tree_pieces(blocks: Seq<BlockView>) -> Seq<Piece>
    decreases blocks,
{
    if blocks.len() == 0 {
        Seq::empty()
    } else {
        tree_pieces(blocks.drop_last()) + block_pieces(blocks.last())
    }
}

/// The pieces of the items of a list, in order.
pub open spec fn item_pieces(items: Seq<Seq<BlockView>>) -> Seq<Piece>
    decreases items,
{
    if items.len() == 0 {
        Seq::empty()
    } else {
        item_pieces(items.drop_last()) + tree_pieces(items.last())
    }
}

/// The pieces of two runs one behind the other.
pub proof fn lemma_run_pieces_concat(a: Seq<InlineView>, b: Seq<InlineView>)
    ensures
        run_pieces(a + b) == run_pieces(a) + run_pieces(b),
    decreases b.len(),
{
    if b.len() == 0 {
        assert(a + b =~= a);
        assert(run_pieces(a) + run_pieces(b) =~= run_pieces(a));
    } else {
        lemma_run_pieces_concat(a, b.drop_last());
        assert((a + b).drop_last() =~= a + b.drop_last());
        assert((a + b).last() == b.last());
        assert(run_pieces(a + b) =~= run_pieces(a) + run_pieces(b));
    }
}

proof fn lemma_one_inline(node: InlineView)
    ensures
        run_pieces(seq![node]) == inline_pieces(node),
{
    assert(seq![node].drop_last() =~= Seq::<InlineView>::empty());
    assert(run_pieces(Seq::<InlineView>::empty()) + inline_pieces(node) =~= inline_pieces(node));
}

proof fn lemma_tree_pieces_concat(a: Seq<BlockView>, b: Seq<BlockView>)
    ensures
        tree_pieces(a + b) == tree_pieces(a) + tree_pieces(b),
    decreases b.len(),
{
    if b.len() == 0 {
        assert(a + b =~= a);
        assert(tree_pieces(a) + tree_pieces(b) =~= tree_pieces(a));
    } else {
        lemma_tree_pieces_concat(a, b.drop_last());
        assert((a + b).drop_last() =~= a + b.drop_last());
        assert((a + b).last() == b.last());
        assert(tree_pieces(a + b) =~= tree_pieces(a) + tree_pieces(b));
    }
}

proof fn lemma_one_block(block: BlockView)
    ensures
        tree_pieces(seq![block]) == block_pieces(block),
{
    assert(seq![block].drop_last() =~= Seq::<BlockView>::empty());
    assert(tree_pieces(Seq::<BlockView>::empty()) + block_pieces(block) =~= block_pieces(block));
}

proof fn lemma_text_kept(forest: Seq<Node>)
    ensures
        run_pieces(text_of(forest)) == text_pieces(forest),
    decreases forest,
{
    if forest.len() > 0 {
        let node = forest[0];
        let rest = forest.drop_first();
        lemma_text_kept(rest);
        lemma_run_pieces_concat(text_of_node(node), text_of(rest));
        match node {
            Node::Leaf(event) => {
                if leaf_text(event).len() > 0 {
                    lemma_one_inline(leaf_text(event)[0]);
                    assert(leaf_text(event) =~= seq![leaf_text(event)[0]]);
                }
            },
            Node::Element(tag, kids) => {
                lemma_text_kept(kids);
                if is_inline_tag(tag) {
                    lemma_one_inline(text_of_node(node)[0]);
                    assert(text_of_node(node) =~= seq![text_of_node(node)[0]]);
                }
            },
        }
    }
}

proof fn lemma_row_kept(forest: Seq<Node>)
    ensures
        cell_pieces(cells_of(forest)) == row_pieces(forest),
    decreases forest.len(),
{
    if forest.len() > 0 {
        lemma_row_kept(forest.drop_last());
        lemma_text_kept(kids_of(forest.last()));
        assert(cells_of(forest).drop_last() =~= cells_of(forest.drop_last()));
    }
}

proof fn lemma_empty_cells(cells: Seq<Seq<InlineView>>, n: int)
    requires
        0 <= n <= cells.len(),
        forall|i: int| n <= i < cells.len() ==> (#[trigger] cells[i]).len() == 0,
    ensures
        cell_pieces(cells) == cell_pieces(cells.take(n)),
    decreases cells.len(),
{
    if n < cells.len() {
        let front = cells.drop_last();
        assert forall|i: int| n <= i < front.len() implies (#[trigger] front[i]).len() == 0 by {
            assert(front[i] == cells[i]);
        }
        lemma_empty_cells(front, n);
        assert(cells[cells.len() - 1].len() == 0);
        assert(front.take(n) =~= cells.take(n));
        assert(cell_pieces(front) + run_pieces(cells.last()) =~= cell_pieces(front));
    } else {
        assert(cells.take(n) =~= cells);
    }
}

proof fn lemma_fitted_row_kept(cells: Seq<Node>, row: Seq<Seq<InlineView>>, width: nat)
    requires
        row.len() == width,
        forall|j: int|
            0 <= j < width ==> #[trigger] row[j] == (if j < cells.len() {
                cells_of(cells)[j]
            } else {
                Seq::empty()
            }),
    ensures
        cell_pieces(row) == row_pieces(
            if cells.len() > width {
                cells.take(width as int)
            } else {
                cells
            },
        ),
{
    if cells.len() > width {
        let cut = cells.take(width as int);
        lemma_row_kept(cut);
        assert(row =~= cells_of(cut));
    } else {
        lemma_row_kept(cells);
        lemma_empty_cells(row, cells.len() as int);
        assert(row.take(cells.len() as int) =~= cells_of(cells));
    }
}

proof fn lemma_body_kept(forest: Seq<Node>, rows: Seq<Seq<Seq<InlineView>>>, width: nat)
    requires
        rows.len() == forest.len(),
        forall|i: int|
            0 <= i < rows.len() ==> (#[trigger] rows[i]).len() == width && forall|j: int|
                0 <= j < width ==> #[trigger] rows[i][j] == (if j < kids_of(forest[i]).len() {
                    cells_of(kids_of(forest[i]))[j]
                } else {
                    Seq::empty()
                }),
    ensures
        table_pieces(rows) == body_pieces(forest, width),
    decreases forest.len(),
{
    if forest.len() > 0 {
        let front = forest.drop_last();
        let fewer = rows.drop_last();
        assert forall|i: int| 0 <= i < fewer.len() implies (#[trigger] fewer[i]).len() == width
            && forall|j: int|
            0 <= j < width ==> #[trigger] fewer[i][j] == (if j < kids_of(front[i]).len() {
                cells_of(kids_of(front[i]))[j]
            } else {
                Seq::empty()
            }) by {
            assert(fewer[i] == rows[i]);
            assert(front[i] == forest[i]);
        }
        lemma_body_kept(front, fewer, width);
        assert(rows[rows.len() - 1] == rows.last());
        lemma_fitted_row_kept(kids_of(forest.last()), rows.last(), width);
    }
}

proof fn lemma_items_kept(forest: Seq<Node>, items: Seq<Seq<BlockView>>)
    requires
        fits_items(forest),
        items.len() == forest.len(),
        forall|i: int| 0 <= i < items.len() ==> #[trigger] items[i] == blocks_of(kids_of(forest[i])),
    ensures
        item_pieces(items) == stream_pieces(forest),
    decreases forest, 0nat,
{
    if forest.len() > 0 {
        let node = forest[0];
        let rest = forest.drop_first();
        let later = items.drop_first();
        assert forall|i: int| 0 <= i < rest.len() implies match #[trigger] rest[i] {
            Node::Leaf(_) => false,
            Node::Element(tag, kids) => tag is Item && fits_blocks(kids),
        } by {
            assert(rest[i] == forest[i + 1]);
        }
        assert forall|i: int| 0 <= i < later.len() implies #[trigger] later[i] == blocks_of(
            kids_of(rest[i]),
        ) by {
            assert(later[i] == items[i + 1]);
        }
        lemma_items_kept(rest, later);
        match node {
            Node::Element(_, kids) => {
                lemma_blocks_kept(kids);
                lemma_first_item(items);
                assert(items[0] == blocks_of(kids));
                assert(node_pieces(node) == stream_pieces(kids));
            },
            Node::Leaf(_) => {},
        }
    }
}

proof fn lemma_first_item(items: Seq<Seq<BlockView>>)
    requires
        items.len() > 0,
    ensures
        item_pieces(items) == tree_pieces(items[0]) + item_pieces(items.drop_first()),
    decreases items.len(),
{
    let front = items.drop_last();
    if front.len() == 0 {
        assert(items.drop_first() =~= Seq::<Seq<BlockView>>::empty());
        assert(item_pieces(front) =~= Seq::<Piece>::empty());
        assert(item_pieces(items) =~= tree_pieces(items[0]));
        assert(tree_pieces(items[0]) + item_pieces(items.drop_first()) =~= tree_pieces(items[0]));
    } else {
        lemma_first_item(front);
        assert(front.drop_first() =~= items.drop_first().drop_last());
        assert(items.drop_first().last() == items.last());
        assert(item_pieces(items) =~= tree_pieces(items[0]) + item_pieces(items.drop_first()));
    }
}

proof fn lemma_node_kept(node: Node)
    requires
        fits_blocks(seq![node]),
    ensures
        tree_pieces(blocks_of_node(node)) == node_pieces(node),
    decreases node, 0nat,
{
    let one = seq![node];
    assert(one[0] == node);
    let blocks = blocks_of_node(node);
    match node {
        Node::Leaf(event) => {
            lemma_one_block(blocks[0]);
            if leaf_text(event).len() > 0 {
                lemma_one_inline(leaf_text(event)[0]);
                assert(leaf_text(event) =~= seq![leaf_text(event)[0]]);
            }
            assert(blocks =~= seq![blocks[0]]);
            assert(node_pieces(node) =~= leaf_pieces(event));
        },
        Node::Element(tag, kids) => {
            match tag {
                TagView::Heading { .. } | TagView::Paragraph => {
                    lemma_text_kept(kids);
                    lemma_one_block(blocks[0]);
                    assert(node_pieces(node) =~= text_pieces(kids));
                },
                TagView::CodeBlock { .. } => {
                    lemma_one_block(blocks[0]);
                    assert(node_pieces(node) =~= plain(code_of(kids)));
                },
                TagView::BlockQuote => {
                    lemma_blocks_kept(kids);
                    lemma_one_block(blocks[0]);
                    assert(node_pieces(node) =~= stream_pieces(kids));
                },
                TagView::Item => {
                    lemma_blocks_kept(kids);
                    lemma_one_block(blocks[0]);
                    let items = seq![blocks_of(kids)];
                    lemma_first_item(items);
                    assert(items.drop_first() =~= Seq::<Seq<BlockView>>::empty());
                    assert(item_pieces(items) =~= tree_pieces(blocks_of(kids)));
                    assert(node_pieces(node) =~= stream_pieces(kids));
                },
                TagView::List { .. } => {
                    lemma_one_block(blocks[0]);
                    let items = blocks[0]->items;
                    assert forall|i: int| 0 <= i < items.len() implies #[trigger] items[i]
                        == blocks_of(kids_of(kids[i])) by {}
                    lemma_items_kept(kids, items);
                    assert(node_pieces(node) =~= stream_pieces(kids));
                },
                TagView::Table => {
                    lemma_one_block(blocks[0]);
                    let head = kids_of(kids[0]);
                    let body = kids.drop_first();
                    lemma_row_kept(head);
                    let rows = rows_of(kids);
                    assert forall|i: int| 0 <= i < rows.len() implies (#[trigger] rows[i]).len()
                        == head.len() && forall|j: int|
                        0 <= j < head.len() ==> #[trigger] rows[i][j] == (if j < kids_of(
                            body[i],
                        ).len() {
                            cells_of(kids_of(body[i]))[j]
                        } else {
                            Seq::empty()
                        }) by {
                        assert(body[i] == kids[i + 1]);
                    }
                    lemma_body_kept(body, rows, head.len());
                    assert(node_pieces(node) =~= row_pieces(head) + body_pieces(body, head.len()));
                },
                _ => if is_inline_tag(tag) {
                    lemma_text_kept(kids);
                    lemma_one_inline(text_of_node(node)[0]);
                    assert(text_of_node(node) =~= seq![text_of_node(node)[0]]);
                    lemma_one_block(blocks[0]);
                    assert(node_pieces(node) =~= text_pieces(kids));
                } else {
                    lemma_blocks_kept(kids);
                    assert(node_pieces(node) =~= stream_pieces(kids));
                },
            }
        },
    }
}

proof fn lemma_blocks_kept(forest: Seq<Node>)
    requires
        fits_blocks(forest),
    ensures
        tree_pieces(blocks_of(forest)) == stream_pieces(forest),
    decreases forest, 1nat,
{
    if forest.len() > 0 {
        let node = forest[0];
        let rest = forest.drop_first();
        lemma_fits_rest(forest);
        lemma_blocks_kept(rest);
        lemma_node_kept(node);
        lemma_tree_pieces_concat(blocks_of_node(node), blocks_of(rest));
    }
}

/// What fits as blocks fits without its first node, and so does the first by
/// itself.
pub(crate) proof fn lemma_fits_rest(forest: Seq<Node>)
    requires
        fits_blocks(forest),
        forest.len() > 0,
    ensures
        fits_blocks(forest.drop_first()),
        fits_blocks(seq![forest[0]]),
{
    let rest = forest.drop_first();
    assert forall|i: int| 0 <= i < rest.len() implies match #[trigger] rest[i] {
        Node::Leaf(event) => is_leaf(event),
        Node::Element(tag, kids) => match tag {
            TagView::Heading { .. } | TagView::Paragraph => fits_text(kids),
            TagView::CodeBlock { .. } => fits_leaves(kids),
            TagView::List { .. } => fits_items(kids),
            TagView::Table => fits_rows(kids),
            _ => if is_inline_tag(tag) {
                fits_text(kids)
            } else {
                fits_blocks(kids)
            },
        },
    } by {
        assert(rest[i] == forest[i + 1]);
    }
}

/// No text is lost, changed, doubled or moved in the walk: the text, code,
/// HTML, breaks and rules of the blocks are, in order, those of the events,
/// wherever they stand, bare or in a paragraph, at whatever depth.
pub proof fn law_no_text_is_lost(forest: Seq<Node>)
    requires
        fits_blocks(forest),
    ensures
        tree_pieces(document_blocks(forest_events(forest))) == stream_pieces(forest),
{
    law_walk_of_forest(forest);
    lemma_blocks_kept(forest);
}

proof fn lemma_forest_concat(a: Seq<Node>, b: Seq<Node>)
    requires
        fits_blocks(a),
        fits_blocks(b),
    ensures
        fits_blocks(a + b),
        forest_events(a + b) == forest_events(a) + forest_events(b),
        blocks_of(a + b) == blocks_of(a) + blocks_of(b),
    decreases a.len(),
{
    if a.len() == 0 {
        assert(a + b =~= b);
        assert(forest_events(a) + forest_events(b) =~= forest_events(b));
        assert(blocks_of(a) + blocks_of(b) =~= blocks_of(b));
    } else {
        let rest = a.drop_first();
        lemma_fits_rest(a);
        lemma_forest_concat(rest, b);
        assert((a + b).drop_first() =~= rest + b);
        assert((a + b)[0] == a[0]);
        assert(forest_events(a + b) =~= forest_events(a) + forest_events(b));
        assert(blocks_of(a + b) =~= blocks_of(a) + blocks_of(b));
        let whole = a + b;
        assert forall|i: int| 0 <= i < whole.len() implies match #[trigger] whole[i] {
            Node::Leaf(event) => is_leaf(event),
            Node::Element(tag, kids) => match tag {
                TagView::Heading { .. } | TagView::Paragraph => fits_text(kids),
                TagView::CodeBlock { .. } => fits_leaves(kids),
                TagView::List { .. } => fits_items(kids),
                TagView::Table => fits_rows(kids),
                _ => if is_inline_tag(tag) {
                    fits_text(kids)
                } else {
                    fits_blocks(kids)
                },
            },
        } by {
            if i < a.len() {
                assert(whole[i] == a[i]);
            } else {
                assert(whole[i] == b[i - a.len()]);
            }
        }
    }
}

proof fn lemma_one_node(node: Node)
    ensures
        forest_events(seq![node]) == node_events(node),
        blocks_of(seq![node]) == blocks_of_node(node),
{
    let one = seq![node];
    assert(one.drop_first() =~= Seq::<Node>::empty());
    assert(node_events(node) + forest_events(one.drop_first()) =~= node_events(node));
    assert(blocks_of_node(node) + blocks_of(one.drop_first()) =~= blocks_of_node(node));
}

/// What stands behind does not change what stands in front: the blocks of two
/// runs of events are those of the one and those of the other.
pub proof fn law_walk_concat(a: Seq<Node>, b: Seq<Node>)
    requires
        fits_blocks(a),
        fits_blocks(b),
    ensures
        document_blocks(forest_events(a) + forest_events(b)) == document_blocks(forest_events(a))
            + document_blocks(forest_events(b)),
{
    lemma_forest_concat(a, b);
    law_walk_of_forest(a);
    law_walk_of_forest(b);
    law_walk_of_forest(a + b);
}

/// A quote holds the blocks that its content has by itself.
pub proof fn law_walk_quote(inner: Seq<Node>)
    requires
        fits_blocks(inner),
    ensures
        document_blocks(
            wrapped(TagView::BlockQuote, forest_events(inner), MdTagEnd::BlockQuote),
        ) == seq![BlockView::BlockQuote(document_blocks(forest_events(inner)))],
{
    let node = Node::Element(TagView::BlockQuote, inner);
    assert(fits_blocks(seq![node]));
    lemma_one_node(node);
    law_walk_of_forest(inner);
    law_walk_of_forest(seq![node]);
}

/// The events of the items of a list.
pub open spec fn list_events(items: Seq<Seq<Node>>) -> Seq<EventView>
    decreases items.len(),
{
    if items.len() == 0 {
        Seq::empty()
    } else {
        wrapped(TagView::Item, forest_events(items[0]), MdTagEnd::Item) + list_events(
            items.drop_first(),
        )
    }
}

/// The items of a list as nodes.
spec fn item_nodes(items: Seq<Seq<Node>>) -> Seq<Node> {
    Seq::new(items.len(), |i: int| Node::Element(TagView::Item, items[i]))
}

proof fn lemma_list_events(items: Seq<Seq<Node>>)
    ensures
        forest_events(item_nodes(items)) == list_events(items),
    decreases items.len(),
{
    if items.len() > 0 {
        lemma_list_events(items.drop_first());
        assert(item_nodes(items).drop_first() =~= item_nodes(items.drop_first()));
        assert(node_events(item_nodes(items)[0]) == wrapped(
            TagView::Item,
            forest_events(items[0]),
            MdTagEnd::Item,
        ));
    }
}

/// A list holds its items in order, each with the blocks that its content has
/// by itself; it is ordered as its tag says.
pub proof fn law_walk_list(ordered: bool, items: Seq<Seq<Node>>)
    requires
        forall|i: int| 0 <= i < items.len() ==> fits_blocks(#[trigger] items[i]),
    ensures
        document_blocks(
            wrapped(TagView::List { ordered }, list_events(items), MdTagEnd::List { ordered }),
        ) == seq![
            BlockView::List {
                ordered,
                items: Seq::new(
                    items.len(),
                    |i: int| document_blocks(forest_events(items[i])),
                ),
            },
        ],
{
    let kids = item_nodes(items);
    let node = Node::Element(TagView::List { ordered }, kids);
    assert forall|i: int| 0 <= i < kids.len() implies match #[trigger] kids[i] {
        Node::Leaf(_) => false,
        Node::Element(tag, inner) => tag is Item && fits_blocks(inner),
    } by {
        assert(fits_blocks(items[i]));
    }
    assert(fits_items(kids));
    assert(fits_blocks(seq![node]));
    lemma_list_events(items);
    lemma_one_node(node);
    law_walk_of_forest(seq![node]);
    let walked = Seq::new(items.len(), |i: int| document_blocks(forest_events(items[i])));
    let held = blocks_of_node(node)[0]->items;
    assert forall|i: int| 0 <= i < items.len() implies #[trigger] walked[i] == held[i] by {
        assert(fits_blocks(items[i]));
        law_walk_of_forest(items[i]);
    }
    assert(walked =~= held);
}

/// A code block holds the text of all its text events, in order, and the
/// language that it was given, unless that is empty.
pub proof fn law_walk_code(info: Option<Seq<char>>, texts: Seq<Seq<char>>)
    ensures
        ({
            let events = Seq::new(texts.len(), |i: int| EventView::Text(texts[i]));
            let walked = document_blocks(
                wrapped(TagView::CodeBlock { info }, events, MdTagEnd::CodeBlock),
            );
            &&& walked.len() == 1
            &&& walked[0] matches BlockView::CodeBlock { lang, text }
            && text == texts.flatten() && (info is Some && info->Some_0.len() > 0 ==> lang == info)
                && (info is None || info->Some_0.len() == 0 ==> lang is None)
        }),
{
    let events = Seq::new(texts.len(), |i: int| EventView::Text(texts[i]));
    let kids = text_nodes(texts);
    lemma_text_nodes(texts);
    let node = Node::Element(TagView::CodeBlock { info }, kids);
    assert(fits_leaves(kids));
    assert(fits_blocks(seq![node]));
    lemma_one_node(node);
    law_walk_of_forest(seq![node]);
    assert(forest_events(kids) =~= events);
}

/// A run of texts as nodes.
spec fn text_nodes(texts: Seq<Seq<char>>) -> Seq<Node> {
    Seq::new(texts.len(), |i: int| Node::Leaf(EventView::Text(texts[i])))
}

proof fn lemma_text_nodes(texts: Seq<Seq<char>>)
    ensures
        forest_events(text_nodes(texts)) == Seq::new(
            texts.len(),
            |i: int| EventView::Text(texts[i]),
        ),
        code_of(text_nodes(texts)) == texts.flatten(),
    decreases texts.len(),
{
    let nodes = text_nodes(texts);
    let events = Seq::new(texts.len(), |i: int| EventView::Text(texts[i]));
    if texts.len() > 0 {
        let rest = texts.drop_first();
        lemma_text_nodes(rest);
        assert(nodes.drop_first() =~= text_nodes(rest));
        assert(node_events(nodes[0]) == seq![EventView::Text(texts[0])]);
        assert(forest_events(nodes) =~= events);
    } else {
        assert(forest_events(nodes) =~= events);
        assert(code_of(nodes) =~= texts.flatten());
    }
}

/// A heading holds the text that a paragraph of the same content holds, at the
/// level of its tag.
pub proof fn law_walk_heading(level: u8, content: Seq<Node>)
    requires
        fits_text(content),
    ensures
        ({
            let paragraph = document_blocks(
                wrapped(TagView::Paragraph, forest_events(content), MdTagEnd::Paragraph),
            );
            let heading = document_blocks(
                wrapped(
                    TagView::Heading { level },
                    forest_events(content),
                    MdTagEnd::Heading { level },
                ),
            );
            &&& paragraph.len() == 1
            &&& paragraph[0] matches BlockView::Paragraph(inlines)
            && heading == seq![BlockView::Heading { level, inlines }]
        }),
{
    let paragraph = Node::Element(TagView::Paragraph, content);
    let heading = Node::Element(TagView::Heading { level }, content);
    assert(fits_blocks(seq![paragraph]));
    assert(fits_blocks(seq![heading]));
    lemma_one_node(paragraph);
    lemma_one_node(heading);
    law_walk_of_forest(seq![paragraph]);
    law_walk_of_forest(seq![heading]);
}

/// Whether an inline node is what a leaf event says.
pub open spec fn says(event: EventView, node: InlineView) -> bool {
    match event {
        EventView::Text(s) => node == InlineView::Text(s),
        EventView::Code(s) => node == InlineView::Code(s),
        EventView::SoftBreak => node is SoftBreak,
        EventView::HardBreak => node is HardBreak,
        EventView::InlineHtml(s) => node == InlineView::Html(s),
        _ => false,
    }
}

/// Text that stands bare between blocks, in the document, a quote or an item,
/// is a paragraph of its own that holds it and nothing else; what stands
/// before and behind is as it would be without.
pub proof fn law_bare_text(
    before: Seq<Node>,
    event: EventView,
    node: InlineView,
    after: Seq<Node>,
    ordered: bool,
)
    requires
        fits_blocks(before),
        fits_blocks(after),
        says(event, node),
    ensures
        ({
            let events = forest_events(before) + seq![event] + forest_events(after);
            let blocks = document_blocks(forest_events(before)) + seq![
                BlockView::Paragraph(seq![node]),
            ] + document_blocks(forest_events(after));
            &&& document_blocks(events) == blocks
            &&& document_blocks(wrapped(TagView::BlockQuote, events, MdTagEnd::BlockQuote)) == seq![
                BlockView::BlockQuote(blocks),
            ]
            &&& document_blocks(
                wrapped(
                    TagView::List { ordered },
                    wrapped(TagView::Item, events, MdTagEnd::Item),
                    MdTagEnd::List { ordered },
                ),
            ) == seq![BlockView::List { ordered, items: seq![blocks] }]
        }),
{
    let leaf = seq![Node::Leaf(event)];
    assert(fits_blocks(leaf));
    lemma_one_node(Node::Leaf(event));
    lemma_forest_concat(before, leaf);
    lemma_forest_concat(before + leaf, after);
    let whole = before + leaf + after;
    law_walk_of_forest(before);
    law_walk_of_forest(after);
    law_walk_of_forest(whole);
    law_walk_quote(whole);
    let items = seq![whole];
    assert(items[0] == whole);
    law_walk_list(ordered, items);
    assert(items.drop_first() =~= Seq::<Seq<Node>>::empty());
    let item = wrapped(TagView::Item, forest_events(whole), MdTagEnd::Item);
    assert(item + list_events(items.drop_first()) =~= item);
    assert(leaf_text(event) =~= seq![node]);
    let blocks = document_blocks(forest_events(whole));
    assert(Seq::new(items.len(), |i: int| document_blocks(forest_events(items[i]))) =~= seq![blocks]);
}

/// A source is read with strikethrough, tables and task lists, and its blocks
/// are those of the whole stream of its events.
pub proof fn law_extensions(src: Seq<char>)
    ensures
        markdown_stream(src) == cmark_events(src, true, true, true),
        parsed(src) == document_blocks(stream_events(cmark_events(src, true, true, true))),
{
}

} // verus!
