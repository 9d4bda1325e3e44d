//! The walk from an event stream to the markdown tree.
//!
//! Every function takes the stream and a position in it, and gives back what
//! it built together with the position behind the last event it used.
use crate::markdown::ast::{
    block_models, cell_models, item_models, option_text, row_models, BlockView, MdBlock,
};
use crate::markdown::events::{
    event_views, EventView, MdEvent, MdTag, MdTagEnd, SpannedEvent, TagView,
};
use crate::markdown::inline::{
    inline_models, Inline, InlineCode, InlineImage, InlineLink, InlineView,
};
use vstd::prelude::*;

verus! {

/// How many events stand at or behind `pos`.
pub open spec fn remaining(ev: Seq<EventView>, pos: int) -> nat {
    if pos < ev.len() {
        (ev.len() - pos) as nat
    } else {
        0
    }
}

/// `next`, but never at or before `pos`.
pub open spec fn past(pos: int, next: int) -> int {
    if next > pos {
        next
    } else {
        pos + 1
    }
}

/// The inline nodes that a leaf event stands for: none or one.
pub open spec fn leaf_inlines(event: EventView) -> Seq<InlineView> {
    match event {
        EventView::Text(s) => seq![InlineView::Text(s)],
        EventView::Code(s) => seq![InlineView::Code(s)],
        EventView::SoftBreak => seq![InlineView::SoftBreak],
        EventView::HardBreak => seq![InlineView::HardBreak],
        EventView::Html(s) => seq![InlineView::Html(s)],
        EventView::InlineHtml(s) => seq![InlineView::Html(s)],
        _ => Seq::empty(),
    }
}

/// The position behind the end event that closes `depth` open elements, or
/// the end of the stream where nothing closes them.
pub open spec fn skip_element(ev: Seq<EventView>, pos: int, depth: nat) -> int
    decreases remaining(ev, pos),
{
    if pos < 0 || pos >= ev.len() {
        pos
    } else {
        match ev[pos] {
            EventView::Start(_) => skip_element(ev, pos + 1, depth + 1),
            EventView::End(_) => if depth <= 1 {
                pos + 1
            } else {
                skip_element(ev, pos + 1, (depth - 1) as nat)
            },
            _ => skip_element(ev, pos + 1, depth),
        }
    }
}

/// The inline nodes from `pos` up to the end event `stop`, which is used up.
pub open spec fn inlines_until(ev: Seq<EventView>, pos: int, stop: MdTagEnd) -> (
    Seq<InlineView>,
    int,
)
    decreases remaining(ev, pos), 1nat,
{
    if pos < 0 || pos >= ev.len() {
        (Seq::empty(), pos)
    } else if ev[pos] == EventView::End(stop) {
        (Seq::empty(), pos + 1)
    } else {
        let (head, next) = match ev[pos] {
            EventView::Start(tag) => element_inlines(ev, pos + 1, tag),
            leaf => (leaf_inlines(leaf), pos + 1),
        };
        let (tail, end) = inlines_until(ev, past(pos, next), stop);
        (head + tail, end)
    }
}

/// The inline node of an element whose start tag stands before `pos`. An
/// element that is not inline is skipped.
pub open spec fn element_inlines(ev: Seq<EventView>, pos: int, tag: TagView) -> (
    Seq<InlineView>,
    int,
)
    decreases remaining(ev, pos), 2nat,
{
    match tag {
        TagView::Emphasis => {
            let (inner, end) = inlines_until(ev, pos, MdTagEnd::Emphasis);
            (seq![InlineView::Emphasis(inner)], end)
        },
        TagView::Strong => {
            let (inner, end) = inlines_until(ev, pos, MdTagEnd::Strong);
            (seq![InlineView::Strong(inner)], end)
        },
        TagView::Strikethrough => {
            let (inner, end) = inlines_until(ev, pos, MdTagEnd::Strikethrough);
            (seq![InlineView::Strikethrough(inner)], end)
        },
        TagView::Link { url, title } => {
            let (children, end) = inlines_until(ev, pos, MdTagEnd::Link);
            (seq![InlineView::Link { url, title, children }], end)
        },
        TagView::Image { url, title } => {
            let (alt, end) = inlines_until(ev, pos, MdTagEnd::Image);
            (seq![InlineView::Image { url, title, alt }], end)
        },
        _ => (Seq::empty(), skip_element(ev, pos, 1)),
    }
}

/// The text of a code block: all text events up to its end event.
pub open spec fn code_text(ev: Seq<EventView>, pos: int) -> (Seq<char>, int)
    decreases remaining(ev, pos),
{
    if pos < 0 || pos >= ev.len() {
        (Seq::empty(), pos)
    } else if ev[pos] == EventView::End(MdTagEnd::CodeBlock) {
        (Seq::empty(), pos + 1)
    } else {
        let (tail, end) = code_text(ev, pos + 1);
        match ev[pos] {
            EventView::Text(s) => (s + tail, end),
            _ => (tail, end),
        }
    }
}

/// The table cells from `pos` up to the end event `stop`. Events between the
/// cells are passed over.
pub open spec fn cells_until(ev: Seq<EventView>, pos: int, stop: MdTagEnd) -> (
    Seq<Seq<InlineView>>,
    int,
)
    decreases remaining(ev, pos),
{
    if pos < 0 || pos >= ev.len() {
        (Seq::empty(), pos)
    } else if ev[pos] == EventView::End(stop) {
        (Seq::empty(), pos + 1)
    } else if ev[pos] == EventView::Start(TagView::TableCell) {
        let (cell, next) = inlines_until(ev, pos + 1, MdTagEnd::TableCell);
        let (tail, end) = cells_until(ev, past(pos, next), stop);
        (seq![cell] + tail, end)
    } else {
        cells_until(ev, pos + 1, stop)
    }
}

/// A row cut to `n` cells, or filled up to them with empty ones.
pub open spec fn fitted_row(row: Seq<Seq<InlineView>>, n: nat) -> Seq<Seq<InlineView>> {
    Seq::new(
        n,
        |i: int|
            if i < row.len() {
                row[i]
            } else {
                Seq::empty()
            },
    )
}

/// Every row cut to `n` cells, or filled up to them with empty ones.
pub open spec fn fitted_rows(rows: Seq<Seq<Seq<InlineView>>>, n: nat) -> Seq<
    Seq<Seq<InlineView>>,
> {
    Seq::new(rows.len(), |i: int| fitted_row(rows[i], n))
}

/// The header cells and the body rows of a table, up to its end event.
pub open spec fn table_parts(ev: Seq<EventView>, pos: int) -> (
    Seq<Seq<InlineView>>,
    Seq<Seq<Seq<InlineView>>>,
    int,
)
    decreases remaining(ev, pos),
{
    if pos < 0 || pos >= ev.len() {
        (Seq::empty(), Seq::empty(), pos)
    } else if ev[pos] == EventView::End(MdTagEnd::Table) {
        (Seq::empty(), Seq::empty(), pos + 1)
    } else if ev[pos] == EventView::Start(TagView::TableHead) {
        let (cells, next) = cells_until(ev, pos + 1, MdTagEnd::TableHead);
        let (headers, rows, end) = table_parts(ev, past(pos, next));
        (cells + headers, rows, end)
    } else if ev[pos] == EventView::Start(TagView::TableRow) {
        let (cells, next) = cells_until(ev, pos + 1, MdTagEnd::TableRow);
        let (headers, rows, end) = table_parts(ev, past(pos, next));
        (headers, seq![cells] + rows, end)
    } else {
        table_parts(ev, pos + 1)
    }
}

/// Whether `stop` asks to halt at the end event `end`.
pub open spec fn halts(stop: Option<MdTagEnd>, end: MdTagEnd) -> bool {
    stop == Some(end)
}

/// The blocks from `pos` up to the end event `stop`, which is used up, or to
/// the end of the stream. An inline event between blocks becomes a paragraph
/// of its own; an end event other than `stop` is passed over.
pub open spec fn blocks_until(ev: Seq<EventView>, pos: int, stop: Option<MdTagEnd>) -> (
    Seq<BlockView>,
    int,
)
    decreases remaining(ev, pos), 1nat,
{
    if pos < 0 || pos >= ev.len() {
        (Seq::empty(), pos)
    } else if ev[pos] is End && halts(stop, ev[pos]->End_0) {
        (Seq::empty(), pos + 1)
    } else {
        let (head, next) = block_step(ev, pos);
        let (tail, end) = blocks_until(ev, past(pos, next), stop);
        (head + tail, end)
    }
}

/// The blocks, none or one, that begin with the event at `pos`, and the
/// position behind them.
pub open spec fn block_step(ev: Seq<EventView>, pos: int) -> (Seq<BlockView>, int)
    decreases remaining(ev, pos), 0nat,
{
    if pos < 0 || pos >= ev.len() {
        (Seq::empty(), pos)
    } else {
        match ev[pos] {
            EventView::Start(tag) => element_blocks(ev, pos + 1, tag),
            other => (leaf_blocks(other), pos + 1),
        }
    }
}

/// The blocks of a whole event stream.
pub open spec fn document_blocks(ev: Seq<EventView>) -> Seq<BlockView> {
    blocks_until(ev, 0, None).0
}

/// The blocks that a leaf or end event between blocks stands for: none or
/// one.
pub open spec fn leaf_blocks(event: EventView) -> Seq<BlockView> {
    match event {
        EventView::Rule => seq![BlockView::ThematicBreak],
        EventView::Html(s) => seq![BlockView::HtmlBlock(s)],
        EventView::Start(_) => Seq::empty(),
        EventView::End(_) => Seq::empty(),
        leaf => seq![BlockView::Paragraph(leaf_inlines(leaf))],
    }
}

/// The language of a code block: the info string where there is one and it is
/// not empty.
pub open spec fn code_lang(info: Option<Seq<char>>) -> Option<Seq<char>> {
    match info {
        Some(s) => if s.len() == 0 {
            None
        } else {
            Some(s)
        },
        None => None,
    }
}

/// The items of a list, up to its end event. Events between the items are
/// passed over.
pub open spec fn items_until(ev: Seq<EventView>, pos: int) -> (Seq<Seq<BlockView>>, int)
    decreases remaining(ev, pos), 1nat,
{
    if pos < 0 || pos >= ev.len() {
        (Seq::empty(), pos)
    } else if ev[pos] == EventView::Start(TagView::Item) {
        let (item, next) = blocks_until(ev, pos + 1, Some(MdTagEnd::Item));
        let (tail, end) = items_until(ev, past(pos, next));
        (seq![item] + tail, end)
    } else if ev[pos] is End && ev[pos]->End_0 is List {
        (Seq::empty(), pos + 1)
    } else {
        items_until(ev, pos + 1)
    }
}

/// The block of an element whose start tag stands before `pos`: none or one.
/// The tags that the tree does not model are dropped and their content is
/// walked as if it stood alone.
pub open spec fn element_blocks(ev: Seq<EventView>, pos: int, tag: TagView) -> (
    Seq<BlockView>,
    int,
)
    decreases remaining(ev, pos), 2nat,
{
    match tag {
        TagView::Heading { level } => {
            let (inlines, end) = inlines_until(ev, pos, MdTagEnd::Heading { level });
            (seq![BlockView::Heading { level, inlines }], end)
        },
        TagView::Paragraph => {
            let (inlines, end) = inlines_until(ev, pos, MdTagEnd::Paragraph);
            (seq![BlockView::Paragraph(inlines)], end)
        },
        TagView::CodeBlock { info } => {
            let (text, end) = code_text(ev, pos);
            (seq![BlockView::CodeBlock { lang: code_lang(info), text }], end)
        },
        TagView::BlockQuote => {
            let (inner, end) = blocks_until(ev, pos, Some(MdTagEnd::BlockQuote));
            (seq![BlockView::BlockQuote(inner)], end)
        },
        TagView::List { ordered } => {
            let (items, end) = items_until(ev, pos);
            (seq![BlockView::List { ordered, items }], end)
        },
        TagView::Item => {
            let (item, end) = blocks_until(ev, pos, Some(MdTagEnd::Item));
            (seq![BlockView::List { ordered: false, items: seq![item] }], end)
        },
        TagView::Table => {
            let (headers, rows, end) = table_parts(ev, pos);
            (seq![BlockView::Table { headers, rows: fitted_rows(rows, headers.len()) }], end)
        },
        TagView::Emphasis
        | TagView::Strong
        | TagView::Strikethrough
        | TagView::Link { .. }
        | TagView::Image { .. } => {
            let (inlines, end) = element_inlines(ev, pos, tag);
            (seq![BlockView::Paragraph(inlines)], end)
        },
        _ => (Seq::empty(), pos),
    }
}

/// Position after the element whose start tag stands before `pos`.
fn skip_to_end(ev: &Vec<SpannedEvent>, pos: usize) -> (r: usize)
    requires
        pos <= ev.len(),
    ensures
        r == skip_element(event_views(ev@), pos as int, 1),
        pos <= r <= ev.len(),
{
    let ghost views = event_views(ev@);
    let mut at: usize = pos;
    let mut nested: usize = 0;
    while at < ev.len()
        invariant
            pos <= at <= ev.len(),
            views == event_views(ev@),
            nested <= at,
            skip_element(views, at as int, (nested + 1) as nat) == skip_element(
                views,
                pos as int,
                1,
            ),
        decreases ev.len() - at,
    {
        assert(views[at as int] == ev@[at as int].event@);
        match &ev[at].event {
            MdEvent::Start(_) => {
                nested = nested + 1;
            },
            MdEvent::End(_) => {
                if nested == 0 {
                    return at + 1;
                }
                nested = nested - 1;
            },
            _ => {},
        }
        at = at + 1;
    }
    at
}

/// Appends the inline node of a leaf event to `out`.
fn push_inline_event(out: &mut Vec<Inline>, event: &MdEvent)
    ensures
        inline_models(final(out)@) == inline_models(old(out)@) + leaf_inlines(event@),
{
    let ghost before = out@;
    match event {
        MdEvent::Text(s) => {
            out.push(Inline::Text(s.clone()));
        },
        MdEvent::Code(s) => {
            out.push(Inline::Code(InlineCode { text: s.clone() }));
        },
        MdEvent::SoftBreak => {
            out.push(Inline::SoftBreak);
        },
        MdEvent::HardBreak => {
            out.push(Inline::HardBreak);
        },
        MdEvent::Html(s) => {
            out.push(Inline::Html(s.clone()));
        },
        MdEvent::InlineHtml(s) => {
            out.push(Inline::Html(s.clone()));
        },
        _ => {},
    }
    proof {
        assert(inline_models(out@) =~= inline_models(before) + leaf_inlines(event@));
    }
}

/// Collects inline nodes from `pos` up to the end event `stop`.
fn collect_inlines(ev: &Vec<SpannedEvent>, pos: usize, stop: MdTagEnd) -> (r: (Vec<Inline>, usize))
    requires
        pos <= ev.len(),
    ensures
        inline_models(r.0@) == inlines_until(event_views(ev@), pos as int, stop).0,
        r.1 == inlines_until(event_views(ev@), pos as int, stop).1,
        pos <= r.1 <= ev.len(),
    decreases ev.len() - pos, 1nat,
{
    let ghost views = event_views(ev@);
    let ghost whole = inlines_until(views, pos as int, stop);
    let mut out: Vec<Inline> = Vec::new();
    let mut at: usize = pos;
    assert(inline_models(out@) =~= Seq::<InlineView>::empty());
    assert(Seq::<InlineView>::empty() + whole.0 =~= whole.0);
    while at < ev.len()
        invariant
            pos <= at <= ev.len(),
            views == event_views(ev@),
            whole == inlines_until(views, pos as int, stop),
            inline_models(out@) + inlines_until(views, at as int, stop).0 == whole.0,
            inlines_until(views, at as int, stop).1 == whole.1,
        decreases ev.len() - at,
    {
        assert(views[at as int] == ev@[at as int].event@);
        let ghost before = inline_models(out@);
        let ghost rest = inlines_until(views, at as int, stop);
        match &ev[at].event {
            MdEvent::End(end) => {
                if *end == stop {
                    assert(inline_models(out@) =~= whole.0);
                    return (out, at + 1);
                }
                at = at + 1;
                proof {
                    assert(before + rest.0 =~= before + inlines_until(views, at as int, stop).0);
                }
            },
            MdEvent::Start(tag) => {
                let next = push_inline_start(&mut out, tag, ev, at + 1);
                proof {
                    let head = element_inlines(views, at + 1, tag@).0;
                    let tail = inlines_until(views, next as int, stop).0;
                    assert(before + (head + tail) =~= (before + head) + tail);
                }
                at = next;
            },
            other => {
                push_inline_event(&mut out, other);
                at = at + 1;
                proof {
                    let head = leaf_inlines(other@);
                    assert(before + (head + inlines_until(views, at as int, stop).0)
                        =~= (before + head) + inlines_until(views, at as int, stop).0);
                }
            },
        }
    }
    assert(inline_models(out@) =~= whole.0);
    (out, at)
}

/// Appends the inline node of an element whose start tag stands before `pos`
/// to `out`, and gives the position behind the element.
fn push_inline_start(out: &mut Vec<Inline>, tag: &MdTag, ev: &Vec<SpannedEvent>, pos: usize) -> (r:
    usize)
    requires
        pos <= ev.len(),
    ensures
        inline_models(final(out)@) == inline_models(old(out)@) + element_inlines(
            event_views(ev@),
            pos as int,
            tag@,
        ).0,
        r == element_inlines(event_views(ev@), pos as int, tag@).1,
        pos <= r <= ev.len(),
    decreases ev.len() - pos, 2nat,
{
    let ghost before = out@;
    let ghost views = event_views(ev@);
    let next: usize = match tag {
        MdTag::Emphasis => {
            let (inner, next) = collect_inlines(ev, pos, MdTagEnd::Emphasis);
            out.push(Inline::Emphasis(inner));
            next
        },
        MdTag::Strong => {
            let (inner, next) = collect_inlines(ev, pos, MdTagEnd::Strong);
            out.push(Inline::Strong(inner));
            next
        },
        MdTag::Strikethrough => {
            let (inner, next) = collect_inlines(ev, pos, MdTagEnd::Strikethrough);
            out.push(Inline::Strikethrough(inner));
            next
        },
        MdTag::Link { url, title } => {
            let (children, next) = collect_inlines(ev, pos, MdTagEnd::Link);
            out.push(Inline::Link(InlineLink { url: url.clone(), title: title.clone(), children }));
            next
        },
        MdTag::Image { url, title } => {
            let (alt, next) = collect_inlines(ev, pos, MdTagEnd::Image);
            out.push(Inline::Image(InlineImage { url: url.clone(), title: title.clone(), alt }));
            next
        },
        _ => skip_to_end(ev, pos),
    };
    proof {
        assert(inline_models(out@) =~= inline_models(before) + element_inlines(
            views,
            pos as int,
            tag@,
        ).0);
    }
    next
}

/// Collects the text of a code block from `pos` up to its end event.
fn collect_code_text(ev: &Vec<SpannedEvent>, pos: usize) -> (r: (String, usize))
    requires
        pos <= ev.len(),
    ensures
        r.0@ == code_text(event_views(ev@), pos as int).0,
        r.1 == code_text(event_views(ev@), pos as int).1,
        pos <= r.1 <= ev.len(),
{
    let ghost views = event_views(ev@);
    let ghost whole = code_text(views, pos as int);
    let mut text = String::new();
    let mut at: usize = pos;
    assert(text@ + whole.0 =~= whole.0);
    while at < ev.len()
        invariant
            pos <= at <= ev.len(),
            views == event_views(ev@),
            whole == code_text(views, pos as int),
            text@ + code_text(views, at as int).0 == whole.0,
            code_text(views, at as int).1 == whole.1,
        decreases ev.len() - at,
    {
        assert(views[at as int] == ev@[at as int].event@);
        match &ev[at].event {
            MdEvent::Text(s) => {
                let ghost before = text@;
                text.append(s.as_str());
                proof {
                    let tail = code_text(views, at + 1).0;
                    assert(before + (s@ + tail) =~= (before + s@) + tail);
                }
            },
            MdEvent::End(end) => {
                if *end == MdTagEnd::CodeBlock {
                    assert(text@ =~= whole.0);
                    return (text, at + 1);
                }
            },
            _ => {},
        }
        at = at + 1;
    }
    assert(text@ =~= whole.0);
    (text, at)
}

/// Collects table cells from `pos` up to the end event `stop`, behind those
/// that `cells` already holds.
fn collect_cells(
    cells: &mut Vec<Vec<Inline>>,
    ev: &Vec<SpannedEvent>,
    pos: usize,
    stop: MdTagEnd,
) -> (r: usize)
    requires
        pos <= ev.len(),
    ensures
        cell_models(final(cells)@) == cell_models(old(cells)@) + cells_until(
            event_views(ev@),
            pos as int,
            stop,
        ).0,
        r == cells_until(event_views(ev@), pos as int, stop).1,
        pos <= r <= ev.len(),
{
    let ghost views = event_views(ev@);
    let ghost whole = cells_until(views, pos as int, stop);
    let ghost start = cell_models(cells@);
    let mut at: usize = pos;
    while at < ev.len()
        invariant
            pos <= at <= ev.len(),
            views == event_views(ev@),
            whole == cells_until(views, pos as int, stop),
            start == cell_models(old(cells)@),
            cell_models(cells@) + cells_until(views, at as int, stop).0 == start + whole.0,
            cells_until(views, at as int, stop).1 == whole.1,
        decreases ev.len() - at,
    {
        assert(views[at as int] == ev@[at as int].event@);
        let ghost before = cells@;
        match &ev[at].event {
            MdEvent::Start(MdTag::TableCell) => {
                let (cell, next) = collect_inlines(ev, at + 1, MdTagEnd::TableCell);
                let ghost head = inline_models(cell@);
                cells.push(cell);
                proof {
                    let tail = cells_until(views, next as int, stop).0;
                    assert(cell_models(cells@) =~= cell_models(before) + seq![head]);
                    assert(cell_models(before) + (seq![head] + tail) =~= (cell_models(before)
                        + seq![head]) + tail);
                }
                at = next;
            },
            MdEvent::End(end) => {
                if *end == stop {
                    assert(cell_models(cells@) =~= start + whole.0);
                    return at + 1;
                }
                at = at + 1;
            },
            _ => {
                at = at + 1;
            },
        }
    }
    assert(cell_models(cells@) =~= start + whole.0);
    at
}

/// Cuts a row to `n` cells, or fills it up to them with empty ones.
fn fit_row(row: &mut Vec<Vec<Inline>>, n: usize)
    ensures
        cell_models(final(row)@) == fitted_row(cell_models(old(row)@), n as nat),
{
    let ghost before = row@;
    row.truncate(n);
    while row.len() < n
        invariant
            row.len() <= n,
            row.len() >= before.len() || row.len() == n,
            forall|i: int|
                0 <= i < row.len() ==> inline_models((#[trigger] row@[i])@) == (if i < before.len() {
                    inline_models(before[i]@)
                } else {
                    Seq::empty()
                }),
        decreases n - row.len(),
    {
        let empty: Vec<Inline> = Vec::new();
        row.push(empty);
    }
    assert(cell_models(row@) =~= fitted_row(cell_models(before), n as nat));
}

/// Cuts every row to `n` cells, or fills it up to them with empty ones.
fn fit_rows(rows: &mut Vec<Vec<Vec<Inline>>>, n: usize)
    ensures
        row_models(final(rows)@) == fitted_rows(row_models(old(rows)@), n as nat),
{
    let ghost before = rows@;
    let mut i: usize = 0;
    while i < rows.len()
        invariant
            i <= rows.len(),
            rows.len() == before.len(),
            forall|k: int|
                0 <= k < i ==> cell_models((#[trigger] rows@[k])@) == fitted_row(
                    cell_models(before[k]@),
                    n as nat,
                ),
            forall|k: int| i <= k < rows.len() ==> #[trigger] rows@[k] == before[k],
        decreases rows.len() - i,
    {
        fit_row(&mut rows[i], n);
        i = i + 1;
    }
    assert(row_models(rows@) =~= fitted_rows(row_models(before), n as nat));
}

/// Collects the header cells and body rows of a table up to its end event.
fn collect_table(ev: &Vec<SpannedEvent>, pos: usize) -> (r: (
    Vec<Vec<Inline>>,
    Vec<Vec<Vec<Inline>>>,
    usize,
))
    requires
        pos <= ev.len(),
    ensures
        cell_models(r.0@) == table_parts(event_views(ev@), pos as int).0,
        row_models(r.1@) == table_parts(event_views(ev@), pos as int).1,
        r.2 == table_parts(event_views(ev@), pos as int).2,
        pos <= r.2 <= ev.len(),
{
    let ghost views = event_views(ev@);
    let ghost whole = table_parts(views, pos as int);
    let mut headers: Vec<Vec<Inline>> = Vec::new();
    let mut rows: Vec<Vec<Vec<Inline>>> = Vec::new();
    let mut at: usize = pos;
    assert(cell_models(headers@) + whole.0 =~= whole.0);
    assert(row_models(rows@) + whole.1 =~= whole.1);
    while at < ev.len()
        invariant
            pos <= at <= ev.len(),
            views == event_views(ev@),
            whole == table_parts(views, pos as int),
            cell_models(headers@) + table_parts(views, at as int).0 == whole.0,
            row_models(rows@) + table_parts(views, at as int).1 == whole.1,
            table_parts(views, at as int).2 == whole.2,
        decreases ev.len() - at,
    {
        assert(views[at as int] == ev@[at as int].event@);
        match &ev[at].event {
            MdEvent::Start(MdTag::TableHead) => {
                let ghost before = cell_models(headers@);
                let next = collect_cells(&mut headers, ev, at + 1, MdTagEnd::TableHead);
                proof {
                    let head = cells_until(views, at + 1, MdTagEnd::TableHead).0;
                    let tail = table_parts(views, next as int).0;
                    assert(before + (head + tail) =~= (before + head) + tail);
                }
                at = next;
            },
            MdEvent::Start(MdTag::TableRow) => {
                let ghost before = rows@;
                let mut row: Vec<Vec<Inline>> = Vec::new();
                let next = collect_cells(&mut row, ev, at + 1, MdTagEnd::TableRow);
                let ghost cells = cells_until(views, at + 1, MdTagEnd::TableRow).0;
                assert(cell_models(row@) =~= cells);
                rows.push(row);
                proof {
                    let tail = table_parts(views, next as int).1;
                    assert(row_models(rows@) =~= row_models(before) + seq![cells]);
                    assert(row_models(before) + (seq![cells] + tail) =~= (row_models(before)
                        + seq![cells]) + tail);
                }
                at = next;
            },
            MdEvent::End(end) => {
                if *end == MdTagEnd::Table {
                    assert(cell_models(headers@) =~= whole.0);
                    assert(row_models(rows@) =~= whole.1);
                    return (headers, rows, at + 1);
                }
                at = at + 1;
            },
            _ => {
                at = at + 1;
            },
        }
    }
    assert(cell_models(headers@) =~= whole.0);
    assert(row_models(rows@) =~= whole.1);
    (headers, rows, at)
}

/// Collects the items of a list from `pos` up to its end event.
fn collect_list_items(ev: &Vec<SpannedEvent>, pos: usize) -> (r: (Vec<Vec<MdBlock>>, usize))
    requires
        pos <= ev.len(),
    ensures
        item_models(r.0@) == items_until(event_views(ev@), pos as int).0,
        r.1 == items_until(event_views(ev@), pos as int).1,
        pos <= r.1 <= ev.len(),
    decreases ev.len() - pos, 1nat,
{
    let ghost views = event_views(ev@);
    let ghost whole = items_until(views, pos as int);
    let mut items: Vec<Vec<MdBlock>> = Vec::new();
    let mut at: usize = pos;
    assert(item_models(items@) + whole.0 =~= whole.0);
    while at < ev.len()
        invariant
            pos <= at <= ev.len(),
            views == event_views(ev@),
            whole == items_until(views, pos as int),
            item_models(items@) + items_until(views, at as int).0 == whole.0,
            items_until(views, at as int).1 == whole.1,
        decreases ev.len() - at,
    {
        assert(views[at as int] == ev@[at as int].event@);
        match &ev[at].event {
            MdEvent::Start(MdTag::Item) => {
                let ghost before = items@;
                let (item, next) = collect_item_blocks(ev, at + 1);
                let ghost head = block_models(item@);
                items.push(item);
                proof {
                    let tail = items_until(views, next as int).0;
                    assert(item_models(items@) =~= item_models(before) + seq![head]);
                    assert(item_models(before) + (seq![head] + tail) =~= (item_models(before)
                        + seq![head]) + tail);
                }
                at = next;
            },
            MdEvent::End(MdTagEnd::List { .. }) => {
                assert(item_models(items@) =~= whole.0);
                return (items, at + 1);
            },
            _ => {
                at = at + 1;
            },
        }
    }
    assert(item_models(items@) =~= whole.0);
    (items, at)
}

/// Collects the blocks of one list item up to its end event.
fn collect_item_blocks(ev: &Vec<SpannedEvent>, pos: usize) -> (r: (Vec<MdBlock>, usize))
    requires
        pos <= ev.len(),
    ensures
        block_models(r.0@) == blocks_until(event_views(ev@), pos as int, Some(MdTagEnd::Item)).0,
        r.1 == blocks_until(event_views(ev@), pos as int, Some(MdTagEnd::Item)).1,
        pos <= r.1 <= ev.len(),
    decreases ev.len() - pos, 2nat,
{
    let mut blocks: Vec<MdBlock> = Vec::new();
    let next = collect_blocks(&mut blocks, ev, pos, Some(MdTagEnd::Item));
    assert(block_models(blocks@) =~= blocks_until(
        event_views(ev@),
        pos as int,
        Some(MdTagEnd::Item),
    ).0);
    (blocks, next)
}

/// Collects blocks from `pos` up to the end event `stop`, or to the end of
/// the stream, behind those that `blocks` already holds.
fn collect_blocks(
    blocks: &mut Vec<MdBlock>,
    ev: &Vec<SpannedEvent>,
    pos: usize,
    stop: Option<MdTagEnd>,
) -> (r: usize)
    requires
        pos <= ev.len(),
    ensures
        block_models(final(blocks)@) == block_models(old(blocks)@) + blocks_until(
            event_views(ev@),
            pos as int,
            stop,
        ).0,
        r == blocks_until(event_views(ev@), pos as int, stop).1,
        pos <= r <= ev.len(),
    decreases ev.len() - pos, 1nat,
{
    let ghost views = event_views(ev@);
    let ghost whole = blocks_until(views, pos as int, stop);
    let ghost start = block_models(blocks@);
    let mut at: usize = pos;
    while at < ev.len()
        invariant
            pos <= at <= ev.len(),
            views == event_views(ev@),
            whole == blocks_until(views, pos as int, stop),
            start == block_models(old(blocks)@),
            block_models(blocks@) + blocks_until(views, at as int, stop).0 == start + whole.0,
            blocks_until(views, at as int, stop).1 == whole.1,
        decreases ev.len() - at,
    {
        assert(views[at as int] == ev@[at as int].event@);
        let ghost before = block_models(blocks@);
        if let MdEvent::End(end) = &ev[at].event {
            if stop == Some(*end) {
                assert(block_models(blocks@) =~= start + whole.0);
                return at + 1;
            }
        }
        let next = push_block(blocks, ev, at);
        proof {
            let head = block_step(views, at as int).0;
            let tail = blocks_until(views, next as int, stop).0;
            assert(before + (head + tail) =~= (before + head) + tail);
        }
        at = next;
    }
    assert(block_models(blocks@) =~= start + whole.0);
    at
}

/// Appends the block that begins with the event at `at`, where there is one,
/// and gives the position behind it.
pub(crate) fn push_block(blocks: &mut Vec<MdBlock>, ev: &Vec<SpannedEvent>, at: usize) -> (r: usize)
    requires
        at < ev.len(),
    ensures
        block_models(final(blocks)@) == block_models(old(blocks)@) + block_step(
            event_views(ev@),
            at as int,
        ).0,
        r == block_step(event_views(ev@), at as int).1,
        at < r <= ev.len(),
    decreases ev.len() - at, 0nat,
{
    let ghost views = event_views(ev@);
    let ghost before = blocks@;
    assert(views[at as int] == ev@[at as int].event@);
    let next: usize = match &ev[at].event {
        MdEvent::Start(tag) => {
            let (block, next) = consume_block(tag, ev, at + 1);
            if let Some(b) = block {
                blocks.push(b);
            }
            next
        },
        MdEvent::End(_) => at + 1,
        MdEvent::Rule => {
            blocks.push(MdBlock::ThematicBreak);
            at + 1
        },
        MdEvent::Html(s) => {
            blocks.push(MdBlock::HtmlBlock(s.clone()));
            at + 1
        },
        other => {
            let mut inlines: Vec<Inline> = Vec::new();
            push_inline_event(&mut inlines, other);
            assert(inline_models(inlines@) =~= leaf_inlines(other@));
            blocks.push(MdBlock::Paragraph(inlines));
            at + 1
        },
    };
    proof {
        assert(block_models(blocks@) =~= block_models(before) + block_step(views, at as int).0);
    }
    next
}

/// Builds the block of an element whose start tag stands before `pos`.
fn consume_block(tag: &MdTag, ev: &Vec<SpannedEvent>, pos: usize) -> (r: (Option<MdBlock>, usize))
    requires
        pos <= ev.len(),
    ensures
        element_blocks(event_views(ev@), pos as int, tag@).0 == (match r.0 {
            Some(b) => seq![b@],
            None => Seq::empty(),
        }),
        r.1 == element_blocks(event_views(ev@), pos as int, tag@).1,
        pos <= r.1 <= ev.len(),
    decreases ev.len() - pos, 3nat,
{
    match tag {
        MdTag::Heading { level } => {
            let (inlines, next) = collect_inlines(ev, pos, MdTagEnd::Heading { level: *level });
            (Some(MdBlock::Heading { level: *level, inlines }), next)
        },
        MdTag::Paragraph => {
            let (inlines, next) = collect_inlines(ev, pos, MdTagEnd::Paragraph);
            (Some(MdBlock::Paragraph(inlines)), next)
        },
        MdTag::CodeBlock { info } => {
            let lang: Option<String> = match info {
                Some(s) => if s.as_str().is_empty() {
                    None
                } else {
                    Some(s.clone())
                },
                None => None,
            };
            let (text, next) = collect_code_text(ev, pos);
            assert(option_text(lang) == code_lang(tag@->info));
            (Some(MdBlock::CodeBlock { lang, text }), next)
        },
        MdTag::BlockQuote => {
            let mut inner: Vec<MdBlock> = Vec::new();
            let next = collect_blocks(&mut inner, ev, pos, Some(MdTagEnd::BlockQuote));
            assert(block_models(inner@) =~= blocks_until(
                event_views(ev@),
                pos as int,
                Some(MdTagEnd::BlockQuote),
            ).0);
            (Some(MdBlock::BlockQuote(inner)), next)
        },
        MdTag::List { ordered } => {
            let (items, next) = collect_list_items(ev, pos);
            (Some(MdBlock::List { ordered: *ordered, items }), next)
        },
        MdTag::Item => {
            let (item, next) = collect_item_blocks(ev, pos);
            let ghost model = block_models(item@);
            let mut items: Vec<Vec<MdBlock>> = Vec::new();
            items.push(item);
            assert(item_models(items@) =~= seq![model]);
            (Some(MdBlock::List { ordered: false, items }), next)
        },
        MdTag::Table => {
            let (headers, rows, next) = collect_table(ev, pos);
            let mut rows = rows;
            fit_rows(&mut rows, headers.len());
            (Some(MdBlock::Table { headers, rows }), next)
        },
        MdTag::Emphasis
        | MdTag::Strong
        | MdTag::Strikethrough
        | MdTag::Link { .. }
        | MdTag::Image { .. } => {
            let mut inlines: Vec<Inline> = Vec::new();
            let next = push_inline_start(&mut inlines, tag, ev, pos);
            assert(inline_models(inlines@) =~= element_inlines(
                event_views(ev@),
                pos as int,
                tag@,
            ).0);
            (Some(MdBlock::Paragraph(inlines)), next)
        },
        _ => (None, pos),
    }
}

/// Builds the blocks of a whole event stream.
pub fn walk_events(ev: &Vec<SpannedEvent>) -> (r: Vec<MdBlock>)
    ensures
        block_models(r@) == document_blocks(event_views(ev@)),
{
    let mut blocks: Vec<MdBlock> = Vec::new();
    let _end = collect_blocks(&mut blocks, ev, 0, None);
    assert(block_models(blocks@) =~= document_blocks(event_views(ev@)));
    blocks
}

} // verus!
