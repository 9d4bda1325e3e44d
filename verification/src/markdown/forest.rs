//! Event streams as forests of elements, and what the walk makes of them.
//!
//! A balanced stream is a run of leaf events and elements, each element with
//! a run of its own. The laws here say what the walk gives for such a run in
//! terms of what it gives for its parts, and that no text is lost on the way.
use crate::markdown::ast::BlockView;
use crate::markdown::events::{EventView, MdTagEnd, TagView};
use crate::markdown::inline::InlineView;
use crate::markdown::unparse::{lemma_stands_split, lemma_stands_wrapped, stands, wrapped};
use crate::markdown::walker::{
    block_step, blocks_until, cells_until, code_text, document_blocks, element_blocks,
    element_inlines, fitted_row, fitted_rows, inlines_until, items_until, leaf_blocks,
    leaf_inlines, past, skip_element, table_parts,
};
use vstd::prelude::*;

verus! {

/// A leaf event, or an element with what it contains.
pub enum Node {
    Leaf(EventView),
    Element(TagView, Seq<Node>),
}

/// The end event of an element.
pub open spec fn end_tag(tag: TagView) -> MdTagEnd {
    match tag {
        TagView::Paragraph => MdTagEnd::Paragraph,
        TagView::Heading { level } => MdTagEnd::Heading { level },
        TagView::BlockQuote => MdTagEnd::BlockQuote,
        TagView::CodeBlock { .. } => MdTagEnd::CodeBlock,
        TagView::HtmlBlock => MdTagEnd::HtmlBlock,
        TagView::List { ordered } => MdTagEnd::List { ordered },
        TagView::Item => MdTagEnd::Item,
        TagView::FootnoteDefinition => MdTagEnd::FootnoteDefinition,
        TagView::Table => MdTagEnd::Table,
        TagView::TableHead => MdTagEnd::TableHead,
        TagView::TableRow => MdTagEnd::TableRow,
        TagView::TableCell => MdTagEnd::TableCell,
        TagView::Emphasis => MdTagEnd::Emphasis,
        TagView::Strong => MdTagEnd::Strong,
        TagView::Strikethrough => MdTagEnd::Strikethrough,
        TagView::Link { .. } => MdTagEnd::Link,
        TagView::Image { .. } => MdTagEnd::Image,
        TagView::MetadataBlock => MdTagEnd::MetadataBlock,
    }
}

/// The events of a node.
pub open spec fn node_events(node: Node) -> Seq<EventView>
    decreases node,
{
    match node {
        Node::Leaf(event) => seq![event],
        Node::Element(tag, kids) => wrapped(tag, forest_events(kids), end_tag(tag)),
    }
}

/// The events of a run of nodes.
pub open spec fn forest_events(forest: Seq<Node>) -> Seq<EventView>
    decreases forest,
{
    if forest.len() == 0 {
        Seq::empty()
    } else {
        node_events(forest[0]) + forest_events(forest.drop_first())
    }
}

/// Whether an element stands inside a run of text.
pub open spec fn is_inline_tag(tag: TagView) -> bool {
    tag is Emphasis || tag is Strong || tag is Strikethrough || tag is Link || tag is Image
}

/// Whether an event neither begins nor ends an element.
pub open spec fn is_leaf(event: EventView) -> bool {
    !(event is Start) && !(event is End)
}

/// Whether every leaf of a run, at every depth, is a leaf event.
pub open spec fn balanced(forest: Seq<Node>) -> bool
    decreases forest,
{
    forall|i: int|
        0 <= i < forest.len() ==> match #[trigger] forest[i] {
            Node::Leaf(event) => is_leaf(event),
            Node::Element(_, kids) => balanced(kids),
        }
}

/// Whether a run is one of text: leaves, elements of text, and other elements
/// whatever they hold.
pub open spec fn fits_text(forest: Seq<Node>) -> bool
    decreases forest,
{
    forall|i: int|
        0 <= i < forest.len() ==> match #[trigger] forest[i] {
            Node::Leaf(event) => is_leaf(event),
            Node::Element(tag, kids) => if is_inline_tag(tag) {
                fits_text(kids)
            } else {
                balanced(kids)
            },
        }
}

/// Whether a run is one of table cells, each a run of text.
pub open spec fn fits_cells(forest: Seq<Node>) -> bool
    decreases forest,
{
    forall|i: int|
        0 <= i < forest.len() ==> match #[trigger] forest[i] {
            Node::Leaf(_) => false,
            Node::Element(tag, kids) => tag is TableCell && fits_text(kids),
        }
}

/// Whether a run is one of leaves.
pub open spec fn fits_leaves(forest: Seq<Node>) -> bool {
    forall|i: int|
        0 <= i < forest.len() ==> ((#[trigger] forest[i]) matches Node::Leaf(event) && is_leaf(event))
}

/// Whether a run is one of blocks, as the events of a document are: text may
/// stand bare, lists hold items, tables hold a head and rows of cells.
pub open spec fn fits_blocks(forest: Seq<Node>) -> bool
    decreases forest,
{
    forall|i: int|
        0 <= i < forest.len() ==> match #[trigger] forest[i] {
            Node::Leaf(event) => is_leaf(event),
            Node::Element(tag, kids) => match tag {
                TagView::Heading { .. } | TagView::Paragraph => fits_text(kids),
                TagView::CodeBlock { .. } => fits_leaves(kids),
                TagView::List { .. } => fits_items(kids),
                TagView::Table => fits_rows(kids),
                _ => if is_inline_tag(tag) {
                    fits_text(kids)
                } else {
                    fits_blocks(kids)
                },
            },
        }
}

/// Whether a run is one of list items.
pub open spec fn fits_items(forest: Seq<Node>) -> bool
    decreases forest,
{
    forall|i: int|
        0 <= i < forest.len() ==> match #[trigger] forest[i] {
            Node::Leaf(_) => false,
            Node::Element(tag, kids) => tag is Item && fits_blocks(kids),
        }
}

/// Whether a run is the head of a table and its rows.
pub open spec fn fits_rows(forest: Seq<Node>) -> bool
    decreases forest,
{
    &&& forest.len() > 0
    &&& forall|i: int|
        0 <= i < forest.len() ==> match #[trigger] forest[i] {
            Node::Leaf(_) => false,
            Node::Element(tag, kids) => fits_cells(kids) && if i == 0 {
                tag is TableHead
            } else {
                tag is TableRow
            },
        }
}

/// What an element contains.
pub open spec fn kids_of(node: Node) -> Seq<Node> {
    match node {
        Node::Leaf(_) => Seq::empty(),
        Node::Element(_, kids) => kids,
    }
}

/// The inline node of a leaf event, where it has one.
pub open spec fn leaf_text(event: EventView) -> Seq<InlineView> {
    match event {
        EventView::Text(s) => seq![InlineView::Text(s)],
        EventView::Code(s) => seq![InlineView::Code(s)],
        EventView::SoftBreak => seq![InlineView::SoftBreak],
        EventView::HardBreak => seq![InlineView::HardBreak],
        EventView::InlineHtml(s) => seq![InlineView::Html(s)],
        EventView::Html(s) => seq![InlineView::Html(s)],
        _ => Seq::empty(),
    }
}

/// The inline nodes of a node in a run of text.
pub open spec fn text_of_node(node: Node) -> Seq<InlineView>
    decreases node,
{
    match node {
        Node::Leaf(event) => leaf_text(event),
        Node::Element(tag, kids) => match tag {
            TagView::Emphasis => seq![InlineView::Emphasis(text_of(kids))],
            TagView::Strong => seq![InlineView::Strong(text_of(kids))],
            TagView::Strikethrough => seq![InlineView::Strikethrough(text_of(kids))],
            TagView::Link { url, title } => seq![
                InlineView::Link { url, title, children: text_of(kids) },
            ],
            TagView::Image { url, title } => seq![
                InlineView::Image { url, title, alt: text_of(kids) },
            ],
            _ => Seq::empty(),
        },
    }
}

/// The inline nodes of a run of text.
pub open spec fn text_of(forest: Seq<Node>) -> Seq<InlineView>
    decreases forest,
{
    if forest.len() == 0 {
        Seq::empty()
    } else {
        text_of_node(forest[0]) + text_of(forest.drop_first())
    }
}

/// The text of a run of leaves: that of its text events.
pub open spec fn code_of(forest: Seq<Node>) -> Seq<char>
    decreases forest.len(),
{
    if forest.len() == 0 {
        Seq::empty()
    } else {
        (match forest[0] {
            Node::Leaf(EventView::Text(s)) => s,
            _ => Seq::empty(),
        }) + code_of(forest.drop_first())
    }
}

/// The cells of a row.
pub open spec fn cells_of(forest: Seq<Node>) -> Seq<Seq<InlineView>> {
    Seq::new(forest.len(), |i: int| text_of(kids_of(forest[i])))
}

/// The cells of the rows behind the head, each row as wide as the head.
pub open spec fn rows_of(forest: Seq<Node>) -> Seq<Seq<Seq<InlineView>>> {
    let head = cells_of(kids_of(forest[0]));
    Seq::new(
        (forest.len() - 1) as nat,
        |i: int|
            {
                let row = cells_of(kids_of(forest[i + 1]));
                Seq::new(
                    head.len(),
                    |j: int|
                        if j < row.len() {
                            row[j]
                        } else {
                            Seq::empty()
                        },
                )
            },
    )
}

/// The blocks of a node in a run of blocks.
pub open spec fn blocks_of_node(node: Node) -> Seq<BlockView>
    decreases node,
{
    match node {
        Node::Leaf(event) => match event {
            EventView::Rule => seq![BlockView::ThematicBreak],
            EventView::Html(s) => seq![BlockView::HtmlBlock(s)],
            _ => seq![BlockView::Paragraph(leaf_text(event))],
        },
        Node::Element(tag, kids) => match tag {
            TagView::Heading { level } => seq![
                BlockView::Heading { level, inlines: text_of(kids) },
            ],
            TagView::Paragraph => seq![BlockView::Paragraph(text_of(kids))],
            TagView::CodeBlock { info } => seq![
                BlockView::CodeBlock {
                    lang: if info is Some && info->Some_0.len() > 0 {
                        info
                    } else {
                        None
                    },
                    text: code_of(kids),
                },
            ],
            TagView::BlockQuote => seq![BlockView::BlockQuote(blocks_of(kids))],
            TagView::List { ordered } => seq![
                BlockView::List {
                    ordered,
                    items: Seq::new(
                        kids.len(),
                        |i: int|
                            if 0 <= i < kids.len() {
                                match kids[i] {
                                    Node::Element(_, inner) => blocks_of(inner),
                                    Node::Leaf(_) => Seq::empty(),
                                }
                            } else {
                                Seq::empty()
                            },
                    ),
                },
            ],
            TagView::Item => seq![
                BlockView::List { ordered: false, items: seq![blocks_of(kids)] },
            ],
            TagView::Table => seq![
                BlockView::Table { headers: cells_of(kids_of(kids[0])), rows: rows_of(kids) },
            ],
            _ => if is_inline_tag(tag) {
                seq![BlockView::Paragraph(text_of_node(node))]
            } else {
                blocks_of(kids)
            },
        },
    }
}

/// The blocks of a run of blocks.
pub open spec fn blocks_of(forest: Seq<Node>) -> Seq<BlockView>
    decreases forest,
{
    if forest.len() == 0 {
        Seq::empty()
    } else {
        blocks_of_node(forest[0]) + blocks_of(forest.drop_first())
    }
}

proof fn lemma_skip(ev: Seq<EventView>, pos: int, forest: Seq<Node>, depth: nat)
    requires
        balanced(forest),
        stands(ev, pos, forest_events(forest)),
        depth >= 1,
    ensures
        skip_element(ev, pos, depth) == skip_element(ev, pos + forest_events(forest).len(), depth),
    decreases forest,
{
    if forest.len() > 0 {
        let node = forest[0];
        let rest = forest.drop_first();
        lemma_stands_split(ev, pos, node_events(node), forest_events(rest));
        match node {
            Node::Leaf(event) => {
                assert(node_events(node)[0] == ev[pos + 0]);
            },
            Node::Element(tag, kids) => {
                lemma_stands_wrapped(ev, pos, tag, forest_events(kids), end_tag(tag));
                lemma_skip(ev, pos + 1, kids, depth + 1);
            },
        }
        assert forall|i: int| 0 <= i < rest.len() implies match #[trigger] rest[i] {
            Node::Leaf(event) => is_leaf(event),
            Node::Element(_, kids) => balanced(kids),
        } by {
            assert(rest[i] == forest[i + 1]);
        }
        lemma_skip(ev, pos + node_events(node).len(), rest, depth);
    }
}

/// Walking an element of text gives the nodes of what it contains and the
/// position behind it.
proof fn lemma_text_element(ev: Seq<EventView>, pos: int, tag: TagView, kids: Seq<Node>)
    requires
        fits_text(kids),
        stands(ev, pos, wrapped(tag, forest_events(kids), end_tag(tag))),
    ensures
        inlines_until(ev, pos + 1, end_tag(tag)) == (
            text_of(kids),
            pos + forest_events(kids).len() + 2,
        ),
        0 <= pos < ev.len(),
        ev[pos] == EventView::Start(tag),
    decreases kids, 1nat,
{
    lemma_stands_wrapped(ev, pos, tag, forest_events(kids), end_tag(tag));
    lemma_text(ev, pos + 1, kids, end_tag(tag));
    let close = pos + 1 + forest_events(kids).len();
    assert(inlines_until(ev, close, end_tag(tag)) == (Seq::<InlineView>::empty(), close + 1));
    assert(text_of(kids) + Seq::<InlineView>::empty() =~= text_of(kids));
}

/// Walking a run of text gives its nodes.
proof fn lemma_text(ev: Seq<EventView>, pos: int, forest: Seq<Node>, stop: MdTagEnd)
    requires
        fits_text(forest),
        stands(ev, pos, forest_events(forest)),
    ensures
        inlines_until(ev, pos, stop) == ({
            let (tail, end) = inlines_until(ev, pos + forest_events(forest).len(), stop);
            (text_of(forest) + tail, end)
        }),
    decreases forest, 0nat,
{
    if forest.len() == 0 {
        let tail = inlines_until(ev, pos, stop).0;
        assert(text_of(forest) + tail =~= tail);
    } else {
        let node = forest[0];
        let rest = forest.drop_first();
        lemma_stands_split(ev, pos, node_events(node), forest_events(rest));
        let next = pos + node_events(node).len();
        match node {
            Node::Leaf(event) => {
                assert(node_events(node)[0] == ev[pos + 0]);
                assert(leaf_inlines(event) =~= leaf_text(event));
            },
            Node::Element(tag, kids) => {
                lemma_stands_wrapped(ev, pos, tag, forest_events(kids), end_tag(tag));
                if is_inline_tag(tag) {
                    lemma_text_element(ev, pos, tag, kids);
                } else {
                    lemma_skip(ev, pos + 1, kids, 1);
                }
            },
        }
        let step = match ev[pos] {
            EventView::Start(tag) => element_inlines(ev, pos + 1, tag),
            leaf => (leaf_inlines(leaf), pos + 1),
        };
        assert(step.0 =~= text_of_node(node));
        assert(step.1 == next);
        assert forall|i: int| 0 <= i < rest.len() implies match #[trigger] rest[i] {
            Node::Leaf(event) => is_leaf(event),
            Node::Element(tag, kids) => if is_inline_tag(tag) {
                fits_text(kids)
            } else {
                balanced(kids)
            },
        } by {
            assert(rest[i] == forest[i + 1]);
        }
        lemma_text(ev, next, rest, stop);
        let tail = inlines_until(ev, next + forest_events(rest).len(), stop).0;
        assert(text_of_node(node) + (text_of(rest) + tail) =~= text_of(forest) + tail);
    }
}

/// Walking a run of cells gives the cells.
proof fn lemma_cells_of(ev: Seq<EventView>, pos: int, forest: Seq<Node>, stop: MdTagEnd)
    requires
        fits_cells(forest),
        stands(ev, pos, forest_events(forest)),
    ensures
        cells_until(ev, pos, stop) == ({
            let (tail, end) = cells_until(ev, pos + forest_events(forest).len(), stop);
            (cells_of(forest) + tail, end)
        }),
    decreases forest.len(),
{
    if forest.len() == 0 {
        let tail = cells_until(ev, pos, stop).0;
        assert(cells_of(forest) + tail =~= tail);
    } else {
        let node = forest[0];
        let rest = forest.drop_first();
        let kids = kids_of(node);
        assert(node == Node::Element(TagView::TableCell, kids));
        lemma_stands_split(ev, pos, node_events(node), forest_events(rest));
        lemma_text_element(ev, pos, TagView::TableCell, kids);
        let next = pos + node_events(node).len();
        assert forall|i: int| 0 <= i < rest.len() implies match #[trigger] rest[i] {
            Node::Leaf(_) => false,
            Node::Element(tag, kids) => tag is TableCell && fits_text(kids),
        } by {
            assert(rest[i] == forest[i + 1]);
        }
        lemma_cells_of(ev, next, rest, stop);
        let tail = cells_until(ev, next + forest_events(rest).len(), stop).0;
        assert(seq![text_of(kids)] + (cells_of(rest) + tail) =~= cells_of(forest) + tail);
    }
}

/// Walking a row or the head of a table gives its cells and the position
/// behind it.
proof fn lemma_row_of(ev: Seq<EventView>, pos: int, tag: TagView, kids: Seq<Node>)
    requires
        fits_cells(kids),
        tag is TableHead || tag is TableRow,
        stands(ev, pos, wrapped(tag, forest_events(kids), end_tag(tag))),
    ensures
        cells_until(ev, pos + 1, end_tag(tag)) == (
            cells_of(kids),
            pos + forest_events(kids).len() + 2,
        ),
        0 <= pos < ev.len(),
        ev[pos] == EventView::Start(tag),
{
    lemma_stands_wrapped(ev, pos, tag, forest_events(kids), end_tag(tag));
    lemma_cells_of(ev, pos + 1, kids, end_tag(tag));
    let close = pos + 1 + forest_events(kids).len();
    assert(cells_until(ev, close, end_tag(tag)) == (Seq::<Seq<InlineView>>::empty(), close + 1));
    assert(cells_of(kids) + Seq::<Seq<InlineView>>::empty() =~= cells_of(kids));
}

/// The cells of each of a run of rows.
spec fn all_cells(forest: Seq<Node>) -> Seq<Seq<Seq<InlineView>>> {
    Seq::new(forest.len(), |i: int| cells_of(kids_of(forest[i])))
}

/// Walking the rows behind the head of a table gives their cells.
proof fn lemma_body_of(ev: Seq<EventView>, pos: int, forest: Seq<Node>)
    requires
        forall|i: int|
            0 <= i < forest.len() ==> match #[trigger] forest[i] {
                Node::Leaf(_) => false,
                Node::Element(tag, kids) => tag is TableRow && fits_cells(kids),
            },
        stands(ev, pos, forest_events(forest)),
    ensures
        table_parts(ev, pos) == ({
            let (headers, tail, end) = table_parts(ev, pos + forest_events(forest).len());
            (headers, all_cells(forest) + tail, end)
        }),
    decreases forest.len(),
{
    if forest.len() == 0 {
        let tail = table_parts(ev, pos).1;
        assert(all_cells(forest) + tail =~= tail);
    } else {
        let node = forest[0];
        let rest = forest.drop_first();
        let kids = kids_of(node);
        assert(node == Node::Element(TagView::TableRow, kids));
        lemma_stands_split(ev, pos, node_events(node), forest_events(rest));
        lemma_row_of(ev, pos, TagView::TableRow, kids);
        let next = pos + node_events(node).len();
        assert forall|i: int| 0 <= i < rest.len() implies match #[trigger] rest[i] {
            Node::Leaf(_) => false,
            Node::Element(tag, kids) => tag is TableRow && fits_cells(kids),
        } by {
            assert(rest[i] == forest[i + 1]);
        }
        lemma_body_of(ev, next, rest);
        let tail = table_parts(ev, next + forest_events(rest).len()).1;
        assert(seq![cells_of(kids)] + (all_cells(rest) + tail) =~= all_cells(forest) + tail);
    }
}

/// Walking a table gives its head and rows.
proof fn lemma_table_of(ev: Seq<EventView>, pos: int, kids: Seq<Node>)
    requires
        fits_rows(kids),
        stands(ev, pos, node_events(Node::Element(TagView::Table, kids))),
    ensures
        element_blocks(ev, pos + 1, TagView::Table) == (
            blocks_of_node(Node::Element(TagView::Table, kids)),
            pos + forest_events(kids).len() + 2,
        ),
{
    lemma_stands_wrapped(ev, pos, TagView::Table, forest_events(kids), MdTagEnd::Table);
    let head = kids[0];
    let body = kids.drop_first();
    assert(head == Node::Element(TagView::TableHead, kids_of(head)));
    lemma_stands_split(ev, pos + 1, node_events(head), forest_events(body));
    lemma_row_of(ev, pos + 1, TagView::TableHead, kids_of(head));
    let next = pos + 1 + node_events(head).len();
    assert forall|i: int| 0 <= i < body.len() implies match #[trigger] body[i] {
        Node::Leaf(_) => false,
        Node::Element(tag, inner) => tag is TableRow && fits_cells(inner),
    } by {
        assert(body[i] == kids[i + 1]);
    }
    lemma_body_of(ev, next, body);
    let close = next + forest_events(body).len();
    assert(table_parts(ev, close) == (
        Seq::<Seq<InlineView>>::empty(),
        Seq::<Seq<Seq<InlineView>>>::empty(),
        close + 1,
    ));
    let headers = cells_of(kids_of(head));
    assert(headers + Seq::<Seq<InlineView>>::empty() =~= headers);
    assert(all_cells(body) + Seq::<Seq<Seq<InlineView>>>::empty() =~= all_cells(body));
    let rows = fitted_rows(all_cells(body), headers.len());
    assert forall|i: int| 0 <= i < rows.len() implies #[trigger] rows[i] == rows_of(kids)[i] by {
        assert(body[i] == kids[i + 1]);
        assert(fitted_row(all_cells(body)[i], headers.len()) =~= rows_of(kids)[i]);
    }
    assert(rows =~= rows_of(kids));
}

/// Walking the leaves of a code block gives their text.
proof fn lemma_code_of(ev: Seq<EventView>, pos: int, forest: Seq<Node>)
    requires
        fits_leaves(forest),
        stands(ev, pos, forest_events(forest)),
    ensures
        code_text(ev, pos) == ({
            let (tail, end) = code_text(ev, pos + forest_events(forest).len());
            (code_of(forest) + tail, end)
        }),
    decreases forest.len(),
{
    if forest.len() == 0 {
        let tail = code_text(ev, pos).0;
        assert(code_of(forest) + tail =~= tail);
    } else {
        let node = forest[0];
        let rest = forest.drop_first();
        lemma_stands_split(ev, pos, node_events(node), forest_events(rest));
        assert(node_events(node)[0] == ev[pos + 0]);
        assert forall|i: int| 0 <= i < rest.len() implies ((#[trigger] rest[i]) matches Node::Leaf(
            event,
        ) && is_leaf(event)) by {
            assert(rest[i] == forest[i + 1]);
        }
        lemma_code_of(ev, pos + 1, rest);
        let tail = code_text(ev, pos + 1 + forest_events(rest).len()).0;
        let first: Seq<char> = match node {
            Node::Leaf(EventView::Text(s)) => s,
            _ => Seq::empty(),
        };
        assert(code_of(forest) == first + code_of(rest));
        assert(first + (code_of(rest) + tail) =~= code_of(forest) + tail);
        assert(Seq::<char>::empty() + code_of(rest) =~= code_of(rest));
    }
}

/// The items of a list.
pub open spec fn items_of(forest: Seq<Node>) -> Seq<Seq<BlockView>> {
    Seq::new(forest.len(), |i: int| blocks_of(kids_of(forest[i])))
}

/// Walking a run of items gives the items.
proof fn lemma_items_of(ev: Seq<EventView>, pos: int, forest: Seq<Node>)
    requires
        fits_items(forest),
        stands(ev, pos, forest_events(forest)),
    ensures
        items_until(ev, pos) == ({
            let (tail, end) = items_until(ev, pos + forest_events(forest).len());
            (items_of(forest) + tail, end)
        }),
    decreases forest, 0nat,
{
    if forest.len() == 0 {
        let tail = items_until(ev, pos).0;
        assert(items_of(forest) + tail =~= tail);
    } else {
        let node = forest[0];
        let rest = forest.drop_first();
        lemma_stands_split(ev, pos, node_events(node), forest_events(rest));
        let next = pos + node_events(node).len();
        match node {
            Node::Element(tag, kids) => {
                lemma_container_of(ev, pos, TagView::Item, kids);
            },
            Node::Leaf(_) => {},
        }
        assert forall|i: int| 0 <= i < rest.len() implies match #[trigger] rest[i] {
            Node::Leaf(_) => false,
            Node::Element(tag, kids) => tag is Item && fits_blocks(kids),
        } by {
            assert(rest[i] == forest[i + 1]);
        }
        lemma_items_of(ev, next, rest);
        let tail = items_until(ev, next + forest_events(rest).len()).0;
        assert(seq![blocks_of(kids_of(node))] + (items_of(rest) + tail) =~= items_of(forest) + tail);
    }
}

/// Walking a quote or an item gives its blocks and the position behind it.
proof fn lemma_container_of(ev: Seq<EventView>, pos: int, tag: TagView, kids: Seq<Node>)
    requires
        tag is BlockQuote || tag is Item,
        fits_blocks(kids),
        stands(ev, pos, wrapped(tag, forest_events(kids), end_tag(tag))),
    ensures
        blocks_until(ev, pos + 1, Some(end_tag(tag))) == (
            blocks_of(kids),
            pos + forest_events(kids).len() + 2,
        ),
        0 <= pos < ev.len(),
        ev[pos] == EventView::Start(tag),
    decreases kids, 1nat,
{
    lemma_stands_wrapped(ev, pos, tag, forest_events(kids), end_tag(tag));
    lemma_blocks_of(ev, pos + 1, kids, Some(end_tag(tag)));
    let close = pos + 1 + forest_events(kids).len();
    assert(blocks_until(ev, close, Some(end_tag(tag))) == (Seq::<BlockView>::empty(), close + 1));
    assert(blocks_of(kids) + Seq::<BlockView>::empty() =~= blocks_of(kids));
}

/// Whether the walk halts at the end of the stream, a quote or an item.
spec fn is_halt(stop: Option<MdTagEnd>) -> bool {
    stop matches Some(end) ==> end is BlockQuote || end is Item
}

/// Whether an element is one that the tree models.
pub open spec fn is_modelled(tag: TagView) -> bool {
    tag is Heading || tag is Paragraph || tag is CodeBlock || tag is BlockQuote || tag is List
        || tag is Item || tag is Table || is_inline_tag(tag)
}

/// Walking one node that is a leaf or an element of the tree gives its blocks.
pub(crate) proof fn lemma_node_of(ev: Seq<EventView>, pos: int, node: Node)
    requires
        fits_blocks(seq![node]),
        node matches Node::Element(tag, _) ==> is_modelled(tag),
        stands(ev, pos, node_events(node)),
    ensures
        block_step(ev, pos) == (blocks_of_node(node), pos + node_events(node).len()),
        0 <= pos < ev.len(),
        !(ev[pos] is End),
        node_events(node).len() > 0,
    decreases node, 0nat,
{
    let one = seq![node];
    assert(one[0] == node);
    match node {
        Node::Leaf(event) => {
            assert(node_events(node)[0] == ev[pos + 0]);
            assert(leaf_inlines(event) =~= leaf_text(event));
            assert(leaf_blocks(event) =~= blocks_of_node(node));
        },
        Node::Element(tag, kids) => {
            lemma_stands_wrapped(ev, pos, tag, forest_events(kids), end_tag(tag));
            match tag {
                TagView::CodeBlock { info } => {
                    lemma_code_of(ev, pos + 1, kids);
                    let close = pos + 1 + forest_events(kids).len();
                    assert(code_text(ev, close) == (Seq::<char>::empty(), close + 1));
                    assert(code_of(kids) + Seq::<char>::empty() =~= code_of(kids));
                },
                TagView::BlockQuote => lemma_container_of(ev, pos, tag, kids),
                TagView::Item => lemma_container_of(ev, pos, tag, kids),
                TagView::List { ordered } => {
                    lemma_items_of(ev, pos + 1, kids);
                    let close = pos + 1 + forest_events(kids).len();
                    assert(items_until(ev, close) == (Seq::<Seq<BlockView>>::empty(), close + 1));
                    assert(items_of(kids) + Seq::<Seq<BlockView>>::empty() =~= items_of(kids));
                    let items = blocks_of_node(node)[0]->items;
                    assert forall|i: int| 0 <= i < kids.len() implies #[trigger] items_of(kids)[i]
                        == items[i] by {}
                    assert(items_of(kids) =~= items);
                },
                TagView::Table => lemma_table_of(ev, pos, kids),
                _ => lemma_text_element(ev, pos, tag, kids),
            }
            let step = element_blocks(ev, pos + 1, tag);
            if is_inline_tag(tag) {
                assert(element_inlines(ev, pos + 1, tag).0 =~= text_of_node(node));
            }
            assert(step.0 =~= blocks_of_node(node));
            assert(step.1 == pos + node_events(node).len());
        },
    }
}

/// Walking a run of blocks gives its blocks.
proof fn lemma_blocks_of(ev: Seq<EventView>, pos: int, forest: Seq<Node>, stop: Option<MdTagEnd>)
    requires
        is_halt(stop),
        fits_blocks(forest),
        stands(ev, pos, forest_events(forest)),
    ensures
        blocks_until(ev, pos, stop) == ({
            let (tail, end) = blocks_until(ev, pos + forest_events(forest).len(), stop);
            (blocks_of(forest) + tail, end)
        }),
    decreases forest, 0nat,
{
    if forest.len() == 0 {
        let tail = blocks_until(ev, pos, stop).0;
        assert(blocks_of(forest) + tail =~= tail);
    } else {
        let node = forest[0];
        let rest = forest.drop_first();
        lemma_stands_split(ev, pos, node_events(node), forest_events(rest));
        let next = pos + node_events(node).len();
        let behind = blocks_until(ev, next, stop);
        assert(blocks_until(ev, pos, stop) == (blocks_of_node(node) + behind.0, behind.1)) by {
            match node {
                Node::Element(tag, kids) => {
                    if is_modelled(tag) {
                        lemma_node_of(ev, pos, node);
                        assert(past(pos, next) == next);
                    } else {
                        lemma_stands_wrapped(ev, pos, tag, forest_events(kids), end_tag(tag));
                        let close = pos + 1 + forest_events(kids).len();
                        lemma_blocks_of(ev, pos + 1, kids, stop);
                        assert(element_blocks(ev, pos + 1, tag) == (
                            Seq::<BlockView>::empty(),
                            pos + 1,
                        ));
                        assert(block_step(ev, pos) == (Seq::<BlockView>::empty(), pos + 1));
                        assert(block_step(ev, close) == (Seq::<BlockView>::empty(), close + 1));
                        let (inner, end) = blocks_until(ev, pos + 1, stop);
                        assert(Seq::<BlockView>::empty() + inner =~= inner);
                        assert(Seq::<BlockView>::empty() + behind.0 =~= behind.0);
                    }
                },
                Node::Leaf(_) => {
                    lemma_node_of(ev, pos, node);
                    assert(past(pos, next) == next);
                },
            }
        }
        assert forall|i: int| 0 <= i < rest.len() implies match #[trigger] rest[i] {
            Node::Leaf(event) => is_leaf(event),
            Node::Element(tag, kids) => match tag {
                TagView::Heading { .. } | TagView::Paragraph => fits_text(kids),
                TagView::CodeBlock { .. } => fits_leaves(kids),
                TagView::List { .. } => fits_items(kids),
                TagView::Table => fits_rows(kids),
                _ => if is_inline_tag(tag) {
                    fits_text(kids)
                } else {
                    fits_blocks(kids)
                },
            },
        } by {
            assert(rest[i] == forest[i + 1]);
        }
        lemma_blocks_of(ev, next, rest, stop);
        let tail = blocks_until(ev, next + forest_events(rest).len(), stop).0;
        assert(blocks_of_node(node) + (blocks_of(rest) + tail) =~= blocks_of(forest) + tail);
    }
}

/// What the walk gives for a balanced stream is what its nodes stand for:
/// bare text is a paragraph, elements of text keep their nesting, quotes and
/// items hold what they contain, code blocks their text, tables their cells.
pub proof fn law_walk_of_forest(forest: Seq<Node>)
    requires
        fits_blocks(forest),
    ensures
        document_blocks(forest_events(forest)) == blocks_of(forest),
{
    let ev = forest_events(forest);
    assert(stands(ev, 0, ev));
    lemma_blocks_of(ev, 0, forest, None);
    assert(blocks_until(ev, ev.len() as int, None).0 == Seq::<BlockView>::empty());
    assert(blocks_of(forest) + Seq::<BlockView>::empty() =~= blocks_of(forest));
}

} // verus!
