//! The event stream of a markdown tree, and the law that walking it gives
//! the tree back.
use crate::markdown::ast::BlockView;
use crate::markdown::events::{level_in_range, EventView, MdTagEnd, TagView};
use crate::markdown::inline::InlineView;
use crate::markdown::walker::{
    block_step, blocks_until, cells_until, code_lang, code_text, document_blocks, element_blocks, fitted_row, fitted_rows,
    element_inlines, inlines_until, items_until, leaf_blocks, leaf_inlines, past, remaining,
    table_parts,
};
use vstd::prelude::*;

verus! {

/// The events of an element: its start tag, what it contains, its end.
pub open spec fn wrapped(tag: TagView, inner: Seq<EventView>, end: MdTagEnd) -> Seq<EventView> {
    seq![EventView::Start(tag)] + inner + seq![EventView::End(end)]
}

/// The events of an inline node.
pub open spec fn inline_events(node: InlineView) -> Seq<EventView>
    decreases node,
{
    match node {
        InlineView::Text(s) => seq![EventView::Text(s)],
        InlineView::SoftBreak => seq![EventView::SoftBreak],
        InlineView::HardBreak => seq![EventView::HardBreak],
        InlineView::Code(s) => seq![EventView::Code(s)],
        InlineView::Emphasis(c) => wrapped(
            TagView::Emphasis,
            run_events(c),
            MdTagEnd::Emphasis,
        ),
        InlineView::Strong(c) => wrapped(TagView::Strong, run_events(c), MdTagEnd::Strong),
        InlineView::Strikethrough(c) => wrapped(
            TagView::Strikethrough,
            run_events(c),
            MdTagEnd::Strikethrough,
        ),
        InlineView::Link { url, title, children } => wrapped(
            TagView::Link { url, title },
            run_events(children),
            MdTagEnd::Link,
        ),
        InlineView::Image { url, title, alt } => wrapped(
            TagView::Image { url, title },
            run_events(alt),
            MdTagEnd::Image,
        ),
        InlineView::Html(s) => seq![EventView::InlineHtml(s)],
    }
}

/// The events of a run of inline nodes.
pub open spec fn run_events(run: Seq<InlineView>) -> Seq<EventView>
    decreases run,
{
    if run.len() == 0 {
        Seq::empty()
    } else {
        inline_events(run[0]) + run_events(run.drop_first())
    }
}

/// The events of a row of table cells.
pub open spec fn cells_events(cells: Seq<Seq<InlineView>>) -> Seq<EventView>
    decreases cells,
{
    if cells.len() == 0 {
        Seq::empty()
    } else {
        wrapped(TagView::TableCell, run_events(cells[0]), MdTagEnd::TableCell) + cells_events(
            cells.drop_first(),
        )
    }
}

/// The events of the body rows of a table.
pub open spec fn rows_events(rows: Seq<Seq<Seq<InlineView>>>) -> Seq<EventView>
    decreases rows,
{
    if rows.len() == 0 {
        Seq::empty()
    } else {
        wrapped(TagView::TableRow, cells_events(rows[0]), MdTagEnd::TableRow) + rows_events(
            rows.drop_first(),
        )
    }
}

/// The events of the items of a list.
pub open spec fn items_events(items: Seq<Seq<BlockView>>) -> Seq<EventView>
    decreases items,
{
    if items.len() == 0 {
        Seq::empty()
    } else {
        wrapped(TagView::Item, blocks_events(items[0]), MdTagEnd::Item) + items_events(
            items.drop_first(),
        )
    }
}

/// The events of a block.
pub open spec fn block_events(block: BlockView) -> Seq<EventView>
    decreases block,
{
    match block {
        BlockView::Heading { level, inlines } => wrapped(
            TagView::Heading { level },
            run_events(inlines),
            MdTagEnd::Heading { level },
        ),
        BlockView::Paragraph(inlines) => wrapped(
            TagView::Paragraph,
            run_events(inlines),
            MdTagEnd::Paragraph,
        ),
        BlockView::CodeBlock { lang, text } => wrapped(
            TagView::CodeBlock { info: lang },
            seq![EventView::Text(text)],
            MdTagEnd::CodeBlock,
        ),
        BlockView::BlockQuote(inner) => wrapped(
            TagView::BlockQuote,
            blocks_events(inner),
            MdTagEnd::BlockQuote,
        ),
        BlockView::List { ordered, items } => wrapped(
            TagView::List { ordered },
            items_events(items),
            MdTagEnd::List { ordered },
        ),
        BlockView::Table { headers, rows } => wrapped(
            TagView::Table,
            wrapped(TagView::TableHead, cells_events(headers), MdTagEnd::TableHead) + rows_events(
                rows,
            ),
            MdTagEnd::Table,
        ),
        BlockView::HtmlBlock(s) => seq![EventView::Html(s)],
        BlockView::ThematicBreak => seq![EventView::Rule],
    }
}

/// The events of a run of blocks.
pub open spec fn blocks_events(blocks: Seq<BlockView>) -> Seq<EventView>
    decreases blocks,
{
    if blocks.len() == 0 {
        Seq::empty()
    } else {
        block_events(blocks[0]) + blocks_events(blocks.drop_first())
    }
}

/// Whether no code block in `block` carries an empty language: the empty info
/// string stands for no language.
pub open spec fn langs_valid(block: BlockView) -> bool
    decreases block,
{
    match block {
        BlockView::CodeBlock { lang, .. } => code_lang(lang) == lang,
        BlockView::BlockQuote(inner) => all_langs_valid(inner),
        BlockView::List { items, .. } => forall|i: int|
            0 <= i < items.len() ==> all_langs_valid(#[trigger] items[i]),
        _ => true,
    }
}

/// [`langs_valid`] of every block of a run.
pub open spec fn all_langs_valid(blocks: Seq<BlockView>) -> bool
    decreases blocks,
{
    forall|i: int| 0 <= i < blocks.len() ==> langs_valid(#[trigger] blocks[i])
}

/// Whether every row of every table in `block` has as many cells as the
/// table's head.
pub open spec fn rows_valid(block: BlockView) -> bool
    decreases block,
{
    match block {
        BlockView::Table { headers, rows } => forall|i: int|
            0 <= i < rows.len() ==> (#[trigger] rows[i]).len() == headers.len(),
        BlockView::BlockQuote(inner) => all_rows_valid(inner),
        BlockView::List { items, .. } => forall|i: int|
            0 <= i < items.len() ==> all_rows_valid(#[trigger] items[i]),
        _ => true,
    }
}

/// [`rows_valid`] of every block of a run.
pub open spec fn all_rows_valid(blocks: Seq<BlockView>) -> bool
    decreases blocks,
{
    forall|i: int| 0 <= i < blocks.len() ==> rows_valid(#[trigger] blocks[i])
}

/// Whether `part` stands in `ev` at `pos`.
pub open spec fn stands(ev: Seq<EventView>, pos: int, part: Seq<EventView>) -> bool {
    &&& 0 <= pos
    &&& pos + part.len() <= ev.len()
    &&& forall|k: int| 0 <= k < part.len() ==> ev[pos + k] == #[trigger] part[k]
}

pub(crate) proof fn lemma_stands_split(ev: Seq<EventView>, pos: int, a: Seq<EventView>, b: Seq<EventView>)
    requires
        stands(ev, pos, a + b),
    ensures
        stands(ev, pos, a),
        stands(ev, pos + a.len(), b),
{
    assert forall|k: int| 0 <= k < a.len() implies ev[pos + k] == #[trigger] a[k] by {
        assert((a + b)[k] == a[k]);
    }
    assert forall|k: int| 0 <= k < b.len() implies ev[pos + a.len() + k] == #[trigger] b[k] by {
        assert((a + b)[a.len() + k] == b[k]);
    }
}

pub(crate) proof fn lemma_stands_wrapped(
    ev: Seq<EventView>,
    pos: int,
    tag: TagView,
    inner: Seq<EventView>,
    end: MdTagEnd,
)
    requires
        stands(ev, pos, wrapped(tag, inner, end)),
    ensures
        0 <= pos < ev.len(),
        ev[pos] == EventView::Start(tag),
        stands(ev, pos + 1, inner),
        pos + 1 + inner.len() < ev.len(),
        ev[pos + 1 + inner.len()] == EventView::End(end),
        wrapped(tag, inner, end).len() == inner.len() + 2,
{
    let front = seq![EventView::Start(tag)];
    let back = seq![EventView::End(end)];
    lemma_stands_split(ev, pos, front + inner, back);
    lemma_stands_split(ev, pos, front, inner);
    assert(front[0] == EventView::Start(tag));
    assert(back[0] == EventView::End(end));
}

/// Walking the events of an inline element gives the children and the
/// position behind the element.
proof fn lemma_element(
    ev: Seq<EventView>,
    pos: int,
    tag: TagView,
    run: Seq<InlineView>,
    end: MdTagEnd,
)
    requires
        stands(ev, pos, wrapped(tag, run_events(run), end)),
    ensures
        inlines_until(ev, pos + 1, end) == (run, pos + wrapped(tag, run_events(run), end).len()),
        0 <= pos < ev.len(),
        ev[pos] == EventView::Start(tag),
    decreases run, 1nat,
{
    lemma_stands_wrapped(ev, pos, tag, run_events(run), end);
    lemma_run(ev, pos + 1, run, end);
    let close = pos + 1 + run_events(run).len();
    assert(inlines_until(ev, close, end) == (Seq::<InlineView>::empty(), close + 1));
    assert(run + Seq::<InlineView>::empty() =~= run);
}

/// Walking the events of a run of inline nodes gives the run.
proof fn lemma_run(ev: Seq<EventView>, pos: int, run: Seq<InlineView>, stop: MdTagEnd)
    requires
        stands(ev, pos, run_events(run)),
    ensures
        inlines_until(ev, pos, stop) == ({
            let (tail, end) = inlines_until(ev, pos + run_events(run).len(), stop);
            (run + tail, end)
        }),
    decreases run, 0nat,
{
    if run.len() == 0 {
        let tail = inlines_until(ev, pos, stop).0;
        assert(run + tail =~= tail);
    } else {
        let node = run[0];
        let rest = run.drop_first();
        lemma_stands_split(ev, pos, inline_events(node), run_events(rest));
        let next = pos + inline_events(node).len();
        match node {
            InlineView::Emphasis(c) => lemma_element(ev, pos, TagView::Emphasis, c, MdTagEnd::Emphasis),
            InlineView::Strong(c) => lemma_element(ev, pos, TagView::Strong, c, MdTagEnd::Strong),
            InlineView::Strikethrough(c) => lemma_element(
                ev,
                pos,
                TagView::Strikethrough,
                c,
                MdTagEnd::Strikethrough,
            ),
            InlineView::Link { url, title, children } => lemma_element(
                ev,
                pos,
                TagView::Link { url, title },
                children,
                MdTagEnd::Link,
            ),
            InlineView::Image { url, title, alt } => lemma_element(
                ev,
                pos,
                TagView::Image { url, title },
                alt,
                MdTagEnd::Image,
            ),
            _ => {
                assert(inline_events(node)[0] == ev[pos + 0]);
            },
        }
        let step = match ev[pos] {
            EventView::Start(tag) => element_inlines(ev, pos + 1, tag),
            leaf => (leaf_inlines(leaf), pos + 1),
        };
        assert(step.0 =~= seq![node]);
        assert(step.1 == next);
        lemma_run(ev, next, rest, stop);
        let tail = inlines_until(ev, next + run_events(rest).len(), stop).0;
        assert(seq![node] + (rest + tail) =~= run + tail);
    }
}

/// Walking the events of a row of cells gives the cells.
proof fn lemma_cells(ev: Seq<EventView>, pos: int, cells: Seq<Seq<InlineView>>, stop: MdTagEnd)
    requires
        stands(ev, pos, cells_events(cells)),
    ensures
        cells_until(ev, pos, stop) == ({
            let (tail, end) = cells_until(ev, pos + cells_events(cells).len(), stop);
            (cells + tail, end)
        }),
    decreases cells,
{
    if cells.len() == 0 {
        let tail = cells_until(ev, pos, stop).0;
        assert(cells + tail =~= tail);
    } else {
        let rest = cells.drop_first();
        let head = wrapped(TagView::TableCell, run_events(cells[0]), MdTagEnd::TableCell);
        lemma_stands_split(ev, pos, head, cells_events(rest));
        lemma_element(ev, pos, TagView::TableCell, cells[0], MdTagEnd::TableCell);
        let next = pos + head.len();
        lemma_cells(ev, next, rest, stop);
        let tail = cells_until(ev, next + cells_events(rest).len(), stop).0;
        assert(seq![cells[0]] + (rest + tail) =~= cells + tail);
    }
}

/// Walking a wrapped row of cells gives the cells and the position behind it.
proof fn lemma_cell_row(
    ev: Seq<EventView>,
    pos: int,
    tag: TagView,
    cells: Seq<Seq<InlineView>>,
    end: MdTagEnd,
)
    requires
        stands(ev, pos, wrapped(tag, cells_events(cells), end)),
    ensures
        cells_until(ev, pos + 1, end) == (
            cells,
            pos + wrapped(tag, cells_events(cells), end).len(),
        ),
        0 <= pos < ev.len(),
        ev[pos] == EventView::Start(tag),
{
    lemma_stands_wrapped(ev, pos, tag, cells_events(cells), end);
    lemma_cells(ev, pos + 1, cells, end);
    let close = pos + 1 + cells_events(cells).len();
    assert(cells_until(ev, close, end) == (Seq::<Seq<InlineView>>::empty(), close + 1));
    assert(cells + Seq::<Seq<InlineView>>::empty() =~= cells);
}

/// Walking the events of body rows gives the rows.
proof fn lemma_rows(ev: Seq<EventView>, pos: int, rows: Seq<Seq<Seq<InlineView>>>)
    requires
        stands(ev, pos, rows_events(rows)),
    ensures
        table_parts(ev, pos) == ({
            let (headers, tail, end) = table_parts(ev, pos + rows_events(rows).len());
            (headers, rows + tail, end)
        }),
    decreases rows,
{
    if rows.len() == 0 {
        let tail = table_parts(ev, pos).1;
        assert(rows + tail =~= tail);
    } else {
        let rest = rows.drop_first();
        let head = wrapped(TagView::TableRow, cells_events(rows[0]), MdTagEnd::TableRow);
        lemma_stands_split(ev, pos, head, rows_events(rest));
        lemma_cell_row(ev, pos, TagView::TableRow, rows[0], MdTagEnd::TableRow);
        let next = pos + head.len();
        lemma_rows(ev, next, rest);
        let tail = table_parts(ev, next + rows_events(rest).len()).1;
        assert(seq![rows[0]] + (rest + tail) =~= rows + tail);
    }
}

/// Walking the events of a table gives its header cells and rows.
proof fn lemma_table(
    ev: Seq<EventView>,
    pos: int,
    headers: Seq<Seq<InlineView>>,
    rows: Seq<Seq<Seq<InlineView>>>,
)
    requires
        stands(ev, pos, block_events(BlockView::Table { headers, rows })),
    ensures
        table_parts(ev, pos + 1) == (
            headers,
            rows,
            pos + block_events(BlockView::Table { headers, rows }).len(),
        ),
        0 <= pos < ev.len(),
        ev[pos] == EventView::Start(TagView::Table),
{
    let head = wrapped(TagView::TableHead, cells_events(headers), MdTagEnd::TableHead);
    let body = rows_events(rows);
    lemma_stands_wrapped(ev, pos, TagView::Table, head + body, MdTagEnd::Table);
    lemma_stands_split(ev, pos + 1, head, body);
    lemma_cell_row(ev, pos + 1, TagView::TableHead, headers, MdTagEnd::TableHead);
    let next = pos + 1 + head.len();
    lemma_rows(ev, next, rows);
    let close = next + body.len();
    assert(table_parts(ev, close) == (
        Seq::<Seq<InlineView>>::empty(),
        Seq::<Seq<Seq<InlineView>>>::empty(),
        close + 1,
    ));
    assert(rows + Seq::<Seq<Seq<InlineView>>>::empty() =~= rows);
    assert(headers + Seq::<Seq<InlineView>>::empty() =~= headers);
}

/// Walking the events of list items gives the items.
proof fn lemma_items(ev: Seq<EventView>, pos: int, items: Seq<Seq<BlockView>>)
    requires
        stands(ev, pos, items_events(items)),
        forall|i: int| 0 <= i < items.len() ==> all_langs_valid(#[trigger] items[i]),
        forall|i: int| 0 <= i < items.len() ==> all_rows_valid(#[trigger] items[i]),
    ensures
        items_until(ev, pos) == ({
            let (tail, end) = items_until(ev, pos + items_events(items).len());
            (items + tail, end)
        }),
    decreases items, 0nat,
{
    if items.len() == 0 {
        let tail = items_until(ev, pos).0;
        assert(items + tail =~= tail);
    } else {
        let rest = items.drop_first();
        let head = wrapped(TagView::Item, blocks_events(items[0]), MdTagEnd::Item);
        lemma_stands_split(ev, pos, head, items_events(rest));
        assert(all_langs_valid(items[0]));
        assert(all_rows_valid(items[0]));
        lemma_container(ev, pos, TagView::Item, items[0], MdTagEnd::Item);
        let next = pos + head.len();
        assert forall|i: int| 0 <= i < rest.len() implies all_langs_valid(#[trigger] rest[i])
            && all_rows_valid(rest[i]) by {
            assert(rest[i] == items[i + 1]);
        }
        lemma_items(ev, next, rest);
        let tail = items_until(ev, next + items_events(rest).len()).0;
        assert(seq![items[0]] + (rest + tail) =~= items + tail);
    }
}

/// Walking the events of an element that contains blocks gives the blocks and
/// the position behind the element.
proof fn lemma_container(
    ev: Seq<EventView>,
    pos: int,
    tag: TagView,
    blocks: Seq<BlockView>,
    end: MdTagEnd,
)
    requires
        stands(ev, pos, wrapped(tag, blocks_events(blocks), end)),
        all_langs_valid(blocks),
        all_rows_valid(blocks),
    ensures
        blocks_until(ev, pos + 1, Some(end)) == (
            blocks,
            pos + wrapped(tag, blocks_events(blocks), end).len(),
        ),
        0 <= pos < ev.len(),
        ev[pos] == EventView::Start(tag),
    decreases blocks, 1nat,
{
    lemma_stands_wrapped(ev, pos, tag, blocks_events(blocks), end);
    lemma_blocks(ev, pos + 1, blocks, Some(end));
    let close = pos + 1 + blocks_events(blocks).len();
    assert(blocks_until(ev, close, Some(end)) == (Seq::<BlockView>::empty(), close + 1));
    assert(blocks + Seq::<BlockView>::empty() =~= blocks);
}

/// Walking the events of one block gives the block.
proof fn lemma_block(ev: Seq<EventView>, pos: int, block: BlockView)
    requires
        stands(ev, pos, block_events(block)),
        langs_valid(block),
        rows_valid(block),
    ensures
        block_step(ev, pos) == (seq![block], pos + block_events(block).len()),
        0 <= pos < ev.len(),
        !(ev[pos] is End),
        block_events(block).len() > 0,
    decreases block, 0nat,
{
    match block {
        BlockView::Heading { level, inlines } => lemma_element(
            ev,
            pos,
            TagView::Heading { level },
            inlines,
            MdTagEnd::Heading { level },
        ),
        BlockView::Paragraph(inlines) => lemma_element(
            ev,
            pos,
            TagView::Paragraph,
            inlines,
            MdTagEnd::Paragraph,
        ),
        BlockView::CodeBlock { lang, text } => {
            let inner = seq![EventView::Text(text)];
            lemma_stands_wrapped(
                ev,
                pos,
                TagView::CodeBlock { info: lang },
                inner,
                MdTagEnd::CodeBlock,
            );
            assert(inner[0] == ev[pos + 1 + 0]);
            assert(code_text(ev, pos + 2) == (Seq::<char>::empty(), pos + 3));
            assert(text + Seq::<char>::empty() =~= text);
        },
        BlockView::BlockQuote(inner) => lemma_container(
            ev,
            pos,
            TagView::BlockQuote,
            inner,
            MdTagEnd::BlockQuote,
        ),
        BlockView::List { ordered, items } => {
            lemma_stands_wrapped(
                ev,
                pos,
                TagView::List { ordered },
                items_events(items),
                MdTagEnd::List { ordered },
            );
            lemma_items(ev, pos + 1, items);
            let close = pos + 1 + items_events(items).len();
            assert(items_until(ev, close) == (Seq::<Seq<BlockView>>::empty(), close + 1));
            assert(items + Seq::<Seq<BlockView>>::empty() =~= items);
        },
        BlockView::Table { headers, rows } => {
            lemma_table(ev, pos, headers, rows);
            assert forall|i: int| 0 <= i < rows.len() implies fitted_row(
                #[trigger] rows[i],
                headers.len(),
            ) == rows[i] by {
                assert(fitted_row(rows[i], headers.len()) =~= rows[i]);
            }
            assert(fitted_rows(rows, headers.len()) =~= rows);
        },
        _ => {
            assert(block_events(block)[0] == ev[pos + 0]);
        },
    }
    let step = match ev[pos] {
        EventView::Start(tag) => element_blocks(ev, pos + 1, tag),
        leaf => (leaf_blocks(leaf), pos + 1),
    };
    assert(step.0 =~= seq![block]);
    assert(step.1 == pos + block_events(block).len());
}

/// Walking the events of a run of blocks gives the run.
proof fn lemma_blocks(ev: Seq<EventView>, pos: int, blocks: Seq<BlockView>, stop: Option<MdTagEnd>)
    requires
        stands(ev, pos, blocks_events(blocks)),
        all_langs_valid(blocks),
        all_rows_valid(blocks),
    ensures
        blocks_until(ev, pos, stop) == ({
            let (tail, end) = blocks_until(ev, pos + blocks_events(blocks).len(), stop);
            (blocks + tail, end)
        }),
    decreases blocks, 0nat,
{
    if blocks.len() == 0 {
        let tail = blocks_until(ev, pos, stop).0;
        assert(blocks + tail =~= tail);
    } else {
        let block = blocks[0];
        let rest = blocks.drop_first();
        lemma_stands_split(ev, pos, block_events(block), blocks_events(rest));
        lemma_block(ev, pos, block);
        let next = pos + block_events(block).len();
        assert(past(pos, next) == next);
        assert forall|i: int| 0 <= i < rest.len() implies langs_valid(#[trigger] rest[i])
            && rows_valid(rest[i]) by {
            assert(rest[i] == blocks[i + 1]);
        }
        lemma_blocks(ev, next, rest, stop);
        let tail = blocks_until(ev, next + blocks_events(rest).len(), stop).0;
        assert(seq![block] + (rest + tail) =~= blocks + tail);
    }
}

/// The walk inverts the event stream: of any tree without an empty language
/// tag whose table rows are as wide as their heads, walking its events gives
/// the tree back.
pub proof fn law_walk_inverts_events(blocks: Seq<BlockView>)
    requires
        all_langs_valid(blocks),
        all_rows_valid(blocks),
    ensures
        document_blocks(blocks_events(blocks)) == blocks,
{
    let ev = blocks_events(blocks);
    assert(stands(ev, 0, ev));
    lemma_blocks(ev, 0, blocks, None);
    assert(blocks_until(ev, ev.len() as int, None).0 == Seq::<BlockView>::empty());
    assert(blocks + Seq::<BlockView>::empty() =~= blocks);
}

/// Whether every heading in `block` has a level in `1..=6`.
pub open spec fn levels_valid(block: BlockView) -> bool
    decreases block,
{
    match block {
        BlockView::Heading { level, .. } => 1 <= level <= 6,
        BlockView::BlockQuote(inner) => all_levels_valid(inner),
        BlockView::List { items, .. } => forall|i: int|
            0 <= i < items.len() ==> all_levels_valid(#[trigger] items[i]),
        _ => true,
    }
}

/// [`levels_valid`] of every block of a run.
pub open spec fn all_levels_valid(blocks: Seq<BlockView>) -> bool
    decreases blocks,
{
    forall|i: int| 0 <= i < blocks.len() ==> levels_valid(#[trigger] blocks[i])
}

/// Whether every heading tag of a stream has a level in `1..=6`.
pub open spec fn stream_levels_valid(ev: Seq<EventView>) -> bool {
    forall|i: int| 0 <= i < ev.len() ==> level_in_range(#[trigger] ev[i])
}

proof fn lemma_walk_valid_blocks(ev: Seq<EventView>, pos: int, stop: Option<MdTagEnd>)
    ensures
        all_langs_valid(blocks_until(ev, pos, stop).0),
        all_rows_valid(blocks_until(ev, pos, stop).0),
        stream_levels_valid(ev) ==> all_levels_valid(blocks_until(ev, pos, stop).0),
    decreases remaining(ev, pos), 1nat,
{
    if 0 <= pos < ev.len() {
        lemma_walk_valid_step(ev, pos);
        let (head, next) = block_step(ev, pos);
        lemma_walk_valid_blocks(ev, past(pos, next), stop);
    }
}

proof fn lemma_walk_valid_step(ev: Seq<EventView>, pos: int)
    ensures
        all_langs_valid(block_step(ev, pos).0),
        all_rows_valid(block_step(ev, pos).0),
        stream_levels_valid(ev) ==> all_levels_valid(block_step(ev, pos).0),
    decreases remaining(ev, pos), 0nat,
{
    if 0 <= pos < ev.len() {
        match ev[pos] {
            EventView::Start(tag) => {
                lemma_walk_valid_element(ev, pos + 1, tag);
                assert(level_in_range(ev[pos]) && tag is Heading ==> 1 <= tag->Heading_level <= 6);
            },
            _ => {},
        }
    }
}

proof fn lemma_walk_valid_element(ev: Seq<EventView>, pos: int, tag: TagView)
    ensures
        all_langs_valid(element_blocks(ev, pos, tag).0),
        all_rows_valid(element_blocks(ev, pos, tag).0),
        stream_levels_valid(ev) && level_in_range(EventView::Start(tag)) ==> all_levels_valid(
            element_blocks(ev, pos, tag).0,
        ),
    decreases remaining(ev, pos), 2nat,
{
    let step = element_blocks(ev, pos, tag).0;
    let levels = stream_levels_valid(ev) && level_in_range(EventView::Start(tag));
    match tag {
        TagView::BlockQuote => {
            lemma_walk_valid_blocks(ev, pos, Some(MdTagEnd::BlockQuote));
            let inner = blocks_until(ev, pos, Some(MdTagEnd::BlockQuote)).0;
            assert(langs_valid(BlockView::BlockQuote(inner)));
            assert(rows_valid(BlockView::BlockQuote(inner)));
            assert(levels ==> levels_valid(BlockView::BlockQuote(inner)));
        },
        TagView::Item => {
            lemma_walk_valid_blocks(ev, pos, Some(MdTagEnd::Item));
            let items = seq![blocks_until(ev, pos, Some(MdTagEnd::Item)).0];
            assert(langs_valid(BlockView::List { ordered: false, items }));
            assert(rows_valid(BlockView::List { ordered: false, items }));
            assert(levels ==> levels_valid(BlockView::List { ordered: false, items }));
        },
        TagView::List { ordered } => {
            lemma_walk_valid_items(ev, pos);
            let items = items_until(ev, pos).0;
            assert(langs_valid(BlockView::List { ordered, items }));
            assert(rows_valid(BlockView::List { ordered, items }));
            assert(levels ==> levels_valid(BlockView::List { ordered, items }));
        },
        _ => {},
    }
    assert(step.len() == 1 ==> langs_valid(step[0]) && rows_valid(step[0]) && (levels
        ==> levels_valid(step[0])));
}

proof fn lemma_walk_valid_items(ev: Seq<EventView>, pos: int)
    ensures
        forall|i: int|
            0 <= i < items_until(ev, pos).0.len() ==> all_langs_valid(
                #[trigger] items_until(ev, pos).0[i],
            ) && all_rows_valid(items_until(ev, pos).0[i]),
        stream_levels_valid(ev) ==> forall|i: int|
            0 <= i < items_until(ev, pos).0.len() ==> all_levels_valid(
                #[trigger] items_until(ev, pos).0[i],
            ),
    decreases remaining(ev, pos), 1nat,
{
    if 0 <= pos < ev.len() {
        let items = items_until(ev, pos).0;
        if ev[pos] == EventView::Start(TagView::Item) {
            lemma_walk_valid_blocks(ev, pos + 1, Some(MdTagEnd::Item));
            let (item, next) = blocks_until(ev, pos + 1, Some(MdTagEnd::Item));
            let tail = items_until(ev, past(pos, next)).0;
            lemma_walk_valid_items(ev, past(pos, next));
            assert(items == seq![item] + tail);
            assert forall|i: int| 0 <= i < items.len() implies all_langs_valid(
                #[trigger] items[i],
            ) && all_rows_valid(items[i]) && (stream_levels_valid(ev) ==> all_levels_valid(items[i])) by {
                if i > 0 {
                    assert(items[i] == tail[i - 1]);
                }
            }
        } else if ev[pos] is End && ev[pos]->End_0 is List {
            assert(items.len() == 0);
        } else {
            lemma_walk_valid_items(ev, pos + 1);
            assert(items == items_until(ev, pos + 1).0);
        }
    }
}

/// Of any stream whose heading tags have levels in `1..=6`, so have the
/// headings of its blocks, at every depth.
pub proof fn law_heading_levels(ev: Seq<EventView>)
    requires
        stream_levels_valid(ev),
    ensures
        all_levels_valid(document_blocks(ev)),
{
    lemma_walk_valid_blocks(ev, 0, None);
}

/// No code block of any stream carries an empty language tag.
pub proof fn law_language_tags(ev: Seq<EventView>)
    ensures
        all_langs_valid(document_blocks(ev)),
{
    lemma_walk_valid_blocks(ev, 0, None);
}

/// Every row of every table of any stream has as many cells as the table's
/// head.
pub proof fn law_table_rows(ev: Seq<EventView>)
    ensures
        all_rows_valid(document_blocks(ev)),
{
    lemma_walk_valid_blocks(ev, 0, None);
}

/// Walking is a normal form: writing the blocks of any stream back as events
/// and walking those gives the same blocks.
pub proof fn law_walk_idempotent(ev: Seq<EventView>)
    ensures
        document_blocks(blocks_events(document_blocks(ev))) == document_blocks(ev),
{
    lemma_walk_valid_blocks(ev, 0, None);
    law_walk_inverts_events(document_blocks(ev));
}

} // verus!
