//! Markdown blocks as plain widget descriptions.
//!
//! Inline runs are flattened into one text with a list of attributes over
//! byte ranges of it, so that text never passes through a markup parser.
use crate::markdown::ast::{
    block_models, cell_models, item_models, option_text, row_models, BlockView, MdBlock,
};
use crate::markdown::inline::{inline_models, Inline, InlineView};
use crate::text::{concat_text, decimal, decimal_string, lemma_encode_concat};
use vstd::prelude::*;
use vstd::utf8::encode_utf8;

verus! {

/// How a range of text is set.
#[derive(Debug, Clone, Copy, PartialEq, Eq, Structural)]
pub enum AttrKind {
    /// Monospace family.
    Monospace,
    /// Italic style.
    Italic,
    /// Bold weight.
    Bold,
    /// Struck through.
    Strikethrough,
}

/// An attribute over the byte range `start..end` of a text.
#[derive(Debug, Clone, Copy, PartialEq, Eq, Structural)]
pub struct TextAttr {
    pub kind: AttrKind,
    pub start: u32,
    pub end: u32,
}

/// The length of a text in bytes, as text attributes count it.
pub open spec fn byte_index(text: Seq<char>) -> u32 {
    encode_utf8(text).len() as u32
}

/// The attribute over what `inner` adds to `prefix`.
pub open spec fn attr_over(kind: AttrKind, prefix: Seq<char>, inner: Seq<char>) -> TextAttr {
    TextAttr { kind, start: byte_index(prefix), end: byte_index(prefix + inner) }
}

/// The visible text of an inline node.
pub open spec fn node_text(node: InlineView) -> Seq<char>
    decreases node,
{
    match node {
        InlineView::Text(s) => s,
        InlineView::SoftBreak => seq![' '],
        InlineView::HardBreak => seq!['\n'],
        InlineView::Code(s) => s,
        InlineView::Emphasis(c) => run_text(c),
        InlineView::Strong(c) => run_text(c),
        InlineView::Strikethrough(c) => run_text(c),
        InlineView::Link { children, .. } => run_text(children),
        InlineView::Image { alt, .. } => run_text(alt),
        InlineView::Html(s) => s,
    }
}

/// The visible text of a run of inline nodes.
pub open spec fn run_text(run: Seq<InlineView>) -> Seq<char>
    decreases run,
{
    if run.len() == 0 {
        Seq::empty()
    } else {
        run_text(run.drop_last()) + node_text(run.last())
    }
}

/// The attributes of an inline node that stands behind `prefix`. Inner nodes
/// come before the node that holds them.
pub open spec fn node_attrs(prefix: Seq<char>, node: InlineView) -> Seq<TextAttr>
    decreases node,
{
    match node {
        InlineView::Code(s) => seq![attr_over(AttrKind::Monospace, prefix, s)],
        InlineView::Emphasis(c) => run_attrs(prefix, c).push(
            attr_over(AttrKind::Italic, prefix, run_text(c)),
        ),
        InlineView::Strong(c) => run_attrs(prefix, c).push(
            attr_over(AttrKind::Bold, prefix, run_text(c)),
        ),
        InlineView::Strikethrough(c) => run_attrs(prefix, c).push(
            attr_over(AttrKind::Strikethrough, prefix, run_text(c)),
        ),
        InlineView::Link { children, .. } => run_attrs(prefix, children),
        InlineView::Image { alt, .. } => run_attrs(prefix, alt),
        _ => Seq::empty(),
    }
}

/// The attributes of a run of inline nodes that stands behind `prefix`.
pub open spec fn run_attrs(prefix: Seq<char>, run: Seq<InlineView>) -> Seq<TextAttr>
    decreases run,
{
    if run.len() == 0 {
        Seq::empty()
    } else {
        run_attrs(prefix, run.drop_last()) + node_attrs(
            prefix + run_text(run.drop_last()),
            run.last(),
        )
    }
}

/// The length of `text` in bytes, as text attributes count it.
fn text_index(text: &String) -> (r: u32)
    ensures
        r == byte_index(text@),
{
    text.as_str().as_bytes().len() as u32
}

/// Appends a run of nodes to `text` and `attrs`.
fn push_run(text: &mut String, attrs: &mut Vec<TextAttr>, run: &Vec<Inline>)
    ensures
        final(text)@ == old(text)@ + run_text(inline_models(run@)),
        final(attrs)@ == old(attrs)@ + run_attrs(old(text)@, inline_models(run@)),
    decreases run,
{
    let ghost prefix = text@;
    let ghost first = attrs@;
    let ghost models = inline_models(run@);
    let mut i: usize = 0;
    assert(models.take(0) =~= Seq::<InlineView>::empty());
    assert(text@ =~= prefix + run_text(models.take(0)));
    assert(attrs@ =~= first + run_attrs(prefix, models.take(0)));
    while i < run.len()
        invariant
            i <= run.len(),
            models == inline_models(run@),
            text@ == prefix + run_text(models.take(i as int)),
            attrs@ == first + run_attrs(prefix, models.take(i as int)),
        decreases run.len() - i,
    {
        let ghost front = models.take(i as int);
        let ghost wider = models.take(i + 1);
        proof {
            assert(wider.drop_last() =~= front);
            assert(wider.last() == run@[i as int]@);
        }
        push_inline(text, attrs, &run[i]);
        proof {
            let node = run@[i as int]@;
            assert(prefix + run_text(front) + node_text(node) =~= prefix + (run_text(front)
                + node_text(node)));
            let more = node_attrs(prefix + run_text(front), node);
            assert(first + run_attrs(prefix, front) + more =~= first + (run_attrs(prefix, front)
                + more));
        }
        i = i + 1;
    }
    assert(models.take(i as int) =~= models);
}

/// Appends a node to `text` and `attrs`.
fn push_inline(text: &mut String, attrs: &mut Vec<TextAttr>, node: &Inline)
    ensures
        final(text)@ == old(text)@ + node_text(node@),
        final(attrs)@ == old(attrs)@ + node_attrs(old(text)@, node@),
    decreases node,
{
    let ghost prefix = text@;
    let ghost first = attrs@;
    match node {
        Inline::Text(s) => text.append(s.as_str()),
        Inline::SoftBreak => text.push(' '),
        Inline::HardBreak => text.push('\n'),
        Inline::Code(c) => {
            let start = text_index(text);
            text.append(c.text.as_str());
            let end = text_index(text);
            attrs.push(TextAttr { kind: AttrKind::Monospace, start, end });
        },
        Inline::Emphasis(children) => {
            let start = text_index(text);
            push_run(text, attrs, children);
            let end = text_index(text);
            attrs.push(TextAttr { kind: AttrKind::Italic, start, end });
        },
        Inline::Strong(children) => {
            let start = text_index(text);
            push_run(text, attrs, children);
            let end = text_index(text);
            attrs.push(TextAttr { kind: AttrKind::Bold, start, end });
        },
        Inline::Strikethrough(children) => {
            let start = text_index(text);
            push_run(text, attrs, children);
            let end = text_index(text);
            attrs.push(TextAttr { kind: AttrKind::Strikethrough, start, end });
        },
        Inline::Link(link) => push_run(text, attrs, &link.children),
        Inline::Image(img) => push_run(text, attrs, &img.alt),
        Inline::Html(s) => text.append(s.as_str()),
    }
    proof {
        assert(text@ =~= prefix + node_text(node@));
        assert(attrs@ =~= first + node_attrs(prefix, node@));
    }
}

/// Flattens a run of inline nodes into its text and attributes.
pub fn attrlist_for_inlines(inlines: &Vec<Inline>) -> (r: (String, Vec<TextAttr>))
    ensures
        r.0@ == run_text(inline_models(inlines@)),
        r.1@ == run_attrs(Seq::empty(), inline_models(inlines@)),
{
    let mut text = String::new();
    let mut attrs: Vec<TextAttr> = Vec::new();
    push_run(&mut text, &mut attrs, inlines);
    assert(text@ =~= run_text(inline_models(inlines@)));
    assert(attrs@ =~= run_attrs(Seq::empty(), inline_models(inlines@)));
    (text, attrs)
}

/// A widget, described without a toolkit.
#[derive(Debug, PartialEq, Eq)]
pub enum Widget {
    /// A wrapping label.
    Label {
        text: String,
        attrs: Vec<TextAttr>,
        /// Font scale over the whole text, in tenths.
        scale_tenths: Option<u32>,
        css_class: Option<String>,
    },
    /// A read-only source view.
    Code { lang: Option<String>, text: String },
    /// A vertical box with one row per item.
    List { rows: Vec<ListRow> },
    /// A vertical box around quoted blocks.
    Quote { children: Vec<Widget> },
    /// A grid of labels.
    Grid { cells: Vec<GridCell> },
    /// A horizontal rule.
    Separator,
}

/// A list row: the marker in front and the widgets of the item.
#[derive(Debug, PartialEq, Eq)]
pub struct ListRow {
    pub marker: String,
    pub body: Vec<Widget>,
}

/// A label at a place in a grid.
#[derive(Debug, PartialEq, Eq)]
pub struct GridCell {
    pub column: i32,
    pub row: i32,
    pub text: String,
    pub attrs: Vec<TextAttr>,
    /// Whether the cell belongs to the header row.
    pub header: bool,
}

/// The content of a [`Widget`].
pub enum WidgetView {
    Label {
        text: Seq<char>,
        attrs: Seq<TextAttr>,
        scale_tenths: Option<u32>,
        css_class: Option<Seq<char>>,
    },
    Code { lang: Option<Seq<char>>, text: Seq<char> },
    List { rows: Seq<(Seq<char>, Seq<WidgetView>)> },
    Quote { children: Seq<WidgetView> },
    Grid { cells: Seq<CellView> },
    Separator,
}

/// The content of a [`GridCell`].
pub struct CellView {
    pub column: i32,
    pub row: i32,
    pub text: Seq<char>,
    pub attrs: Seq<TextAttr>,
    pub header: bool,
}

impl View for GridCell {
    type V = CellView;

    open spec fn view(&self) -> CellView {
        CellView {
            column: self.column,
            row: self.row,
            text: self.text@,
            attrs: self.attrs@,
            header: self.header,
        }
    }
}

/// The content of a run of grid cells.
pub open spec fn grid_views(s: Seq<GridCell>) -> Seq<CellView> {
    Seq::new(s.len(), |i: int| s[i]@)
}

impl Widget {
    /// The content of this widget with every string and list taken by its
    /// view.
    pub open spec fn model(self) -> WidgetView
        decreases self,
    {
        match self {
            Widget::Label { text, attrs, scale_tenths, css_class } => WidgetView::Label {
                text: text@,
                attrs: attrs@,
                scale_tenths,
                css_class: option_text(css_class),
            },
            Widget::Code { lang, text } => WidgetView::Code {
                lang: option_text(lang),
                text: text@,
            },
            Widget::List { rows } => WidgetView::List { rows: list_row_models(rows@) },
            Widget::Quote { children } => WidgetView::Quote { children: widget_models(children@) },
            Widget::Grid { cells } => WidgetView::Grid { cells: grid_views(cells@) },
            Widget::Separator => WidgetView::Separator,
        }
    }
}

/// The models of a run of widgets.
pub open spec fn widget_models(s: Seq<Widget>) -> Seq<WidgetView>
    decreases s,
{
    Seq::new(
        s.len(),
        |i: int| if 0 <= i < s.len() { s[i].model() } else { WidgetView::Separator },
    )
}

/// The models of the rows of a list.
pub open spec fn list_row_models(s: Seq<ListRow>) -> Seq<(Seq<char>, Seq<WidgetView>)>
    decreases s,
{
    Seq::new(
        s.len(),
        |i: int|
            if 0 <= i < s.len() {
                (s[i].marker@, widget_models(s[i].body@))
            } else {
                (Seq::empty(), Seq::empty())
            },
    )
}

/// The font scale of a heading, in tenths.
pub open spec fn heading_scale(level: u8) -> u32 {
    if level == 1 {
        16
    } else if level == 2 {
        14
    } else if level == 3 {
        12
    } else {
        10
    }
}

/// The level that a heading is classed under: `level` brought into `1..=6`.
pub open spec fn clamped_level(level: u8) -> nat {
    if level < 1 {
        1
    } else if level > 6 {
        6
    } else {
        level as nat
    }
}

/// The marker in front of the item at `index`.
pub open spec fn marker_text(ordered: bool, index: nat) -> Seq<char> {
    if ordered {
        decimal(index + 1).push('.')
    } else {
        seq!['\u{2022}']
    }
}

/// A label of inline content.
pub open spec fn inline_label(
    inlines: Seq<InlineView>,
    scale_tenths: Option<u32>,
    css_class: Option<Seq<char>>,
) -> WidgetView {
    WidgetView::Label {
        text: run_text(inlines),
        attrs: run_attrs(Seq::empty(), inlines),
        scale_tenths,
        css_class,
    }
}

/// The grid cell of a table cell.
pub open spec fn grid_cell(cell: Seq<InlineView>, column: int, row: int, header: bool) -> CellView {
    CellView {
        column: column as i32,
        row: row as i32,
        text: run_text(cell),
        attrs: run_attrs(Seq::empty(), cell),
        header,
    }
}

/// The grid cells of one row of a table.
pub open spec fn grid_row(cells: Seq<Seq<InlineView>>, row: int, header: bool) -> Seq<CellView> {
    Seq::new(cells.len(), |i: int| grid_cell(cells[i], i, row, header))
}

/// The grid cells of the body rows of a table, the first at row 1.
pub open spec fn grid_body(rows: Seq<Seq<Seq<InlineView>>>) -> Seq<CellView>
    decreases rows.len(),
{
    if rows.len() == 0 {
        Seq::empty()
    } else {
        grid_body(rows.drop_last()) + grid_row(rows.last(), rows.len() as int, false)
    }
}

/// The language of a code block where it is not empty.
pub open spec fn shown_lang(lang: Option<Seq<char>>) -> Option<Seq<char>> {
    match lang {
        Some(s) => if s.len() == 0 {
            None
        } else {
            Some(s)
        },
        None => None,
    }
}

/// The widget of a block.
pub open spec fn block_widget(block: BlockView) -> WidgetView
    decreases block,
{
    match block {
        BlockView::Paragraph(inlines) => inline_label(inlines, None, None),
        BlockView::Heading { level, inlines } => inline_label(
            inlines,
            Some(heading_scale(level)),
            Some("codex-heading-"@ + decimal(clamped_level(level))),
        ),
        BlockView::CodeBlock { lang, text } => WidgetView::Code { lang: shown_lang(lang), text },
        BlockView::List { ordered, items } => WidgetView::List {
            rows: Seq::new(
                items.len(),
                |i: int|
                    if 0 <= i < items.len() {
                        (marker_text(ordered, i as nat), block_widgets(items[i]))
                    } else {
                        (Seq::empty(), Seq::empty())
                    },
            ),
        },
        BlockView::BlockQuote(inner) => WidgetView::Quote { children: block_widgets(inner) },
        BlockView::Table { headers, rows } => WidgetView::Grid {
            cells: grid_row(headers, 0, true) + grid_body(rows),
        },
        BlockView::ThematicBreak => WidgetView::Separator,
        BlockView::HtmlBlock(html) => WidgetView::Label {
            text: html,
            attrs: Seq::empty(),
            scale_tenths: None,
            css_class: Some("codex-raw-html"@),
        },
    }
}

/// The widgets of a run of blocks.
pub open spec fn block_widgets(blocks: Seq<BlockView>) -> Seq<WidgetView>
    decreases blocks,
{
    Seq::new(
        blocks.len(),
        |i: int|
            if 0 <= i < blocks.len() {
                block_widget(blocks[i])
            } else {
                WidgetView::Separator
            },
    )
}

/// A label of inline content.
fn label_of(inlines: &Vec<Inline>, scale_tenths: Option<u32>, css_class: Option<String>) -> (r:
    Widget)
    ensures
        r.model() == inline_label(inline_models(inlines@), scale_tenths, option_text(css_class)),
{
    let (text, attrs) = attrlist_for_inlines(inlines);
    Widget::Label { text, attrs, scale_tenths, css_class }
}

/// The label of a heading.
pub fn heading_to_label(level: u8, inlines: &Vec<Inline>) -> (r: Widget)
    ensures
        r.model() == block_widget(
            BlockView::Heading { level, inlines: inline_models(inlines@) },
        ),
{
    let scale: u32 = match level {
        1 => 16,
        2 => 14,
        3 => 12,
        _ => 10,
    };
    let shown: u64 = if level < 1 {
        1
    } else if level > 6 {
        6
    } else {
        level as u64
    };
    let class = concat_text("codex-heading-", decimal_string(shown).as_str());
    label_of(inlines, Some(scale), Some(class))
}

/// The marker in front of the list item at `index`.
pub fn list_marker(ordered: bool, index: usize) -> (r: String)
    requires
        index < usize::MAX,
    ensures
        r@ == marker_text(ordered, index as nat),
{
    if ordered {
        let mut out = decimal_string((index + 1) as u64);
        out.push('.');
        out
    } else {
        let mut out = String::new();
        out.push('\u{2022}');
        assert(out@ =~= seq!['\u{2022}']);
        out
    }
}

/// Appends the grid cells of one row of a table.
fn push_grid_row(out: &mut Vec<GridCell>, cells: &Vec<Vec<Inline>>, row: usize, header: bool)
    ensures
        grid_views(final(out)@) == grid_views(old(out)@) + grid_row(
            cell_models(cells@),
            row as int,
            header,
        ),
{
    let ghost before = out@;
    let ghost models = cell_models(cells@);
    let mut col: usize = 0;
    while col < cells.len()
        invariant
            col <= cells.len(),
            models == cell_models(cells@),
            out.len() == before.len() + col,
            forall|k: int| 0 <= k < before.len() ==> (#[trigger] out@[k]) == before[k],
            forall|k: int|
                before.len() <= k < out.len() ==> (#[trigger] out@[k])@ == grid_cell(
                    models[k - before.len()],
                    k - before.len(),
                    row as int,
                    header,
                ),
        decreases cells.len() - col,
    {
        let (text, attrs) = attrlist_for_inlines(&cells[col]);
        out.push(GridCell { column: col as i32, row: row as i32, text, attrs, header });
        col = col + 1;
    }
    assert(grid_views(out@) =~= grid_views(before) + grid_row(models, row as int, header));
}

/// The grid of a table: the header cells in row 0, the body below.
pub fn table_to_grid(headers: &Vec<Vec<Inline>>, rows: &Vec<Vec<Vec<Inline>>>) -> (r: Widget)
    ensures
        r.model() == block_widget(
            BlockView::Table { headers: cell_models(headers@), rows: row_models(rows@) },
        ),
{
    let mut cells: Vec<GridCell> = Vec::new();
    push_grid_row(&mut cells, headers, 0, true);
    let ghost head = grid_row(cell_models(headers@), 0, true);
    let ghost models = row_models(rows@);
    let mut i: usize = 0;
    assert(models.take(0) =~= Seq::empty());
    assert(grid_views(cells@) =~= head + grid_body(models.take(0)));
    while i < rows.len()
        invariant
            i <= rows.len(),
            models == row_models(rows@),
            grid_views(cells@) == head + grid_body(models.take(i as int)),
        decreases rows.len() - i,
    {
        let ghost front = models.take(i + 1);
        push_grid_row(&mut cells, &rows[i], i + 1, false);
        proof {
            assert(front.drop_last() =~= models.take(i as int));
            assert(front.last() == cell_models(rows@[i as int]@));
            let body = grid_body(models.take(i as int));
            let more = grid_row(front.last(), i + 1, false);
            assert((head + body) + more =~= head + (body + more));
        }
        i = i + 1;
    }
    assert(models.take(i as int) =~= models);
    Widget::Grid { cells }
}

/// The rows of a list.
pub fn list_to_box(ordered: bool, items: &Vec<Vec<MdBlock>>) -> (r: Widget)
    ensures
        r.model() == block_widget(BlockView::List { ordered, items: item_models(items@) }),
    decreases items, 1nat,
{
    let ghost models = item_models(items@);
    let mut rows: Vec<ListRow> = Vec::new();
    let mut i: usize = 0;
    while i < items.len()
        invariant
            i <= items.len(),
            models == item_models(items@),
            rows.len() == i,
            forall|k: int|
                0 <= k < i ==> (#[trigger] rows@[k]).marker@ == marker_text(ordered, k as nat)
                    && widget_models(rows@[k].body@) == block_widgets(models[k]),
        decreases items.len() - i,
    {
        let marker = list_marker(ordered, i);
        let body = blocks_to_widgets(&items[i]);
        assert(models[i as int] == block_models(items@[i as int]@));
        rows.push(ListRow { marker, body });
        i = i + 1;
    }
    let ghost whole = BlockView::List { ordered, items: models };
    assert(block_widget(whole)->List_rows =~= list_row_models(rows@));
    Widget::List { rows }
}

/// The widgets of a run of blocks.
pub fn blocks_to_widgets(blocks: &Vec<MdBlock>) -> (r: Vec<Widget>)
    ensures
        widget_models(r@) == block_widgets(block_models(blocks@)),
    decreases blocks, 0nat,
{
    let ghost models = block_models(blocks@);
    let mut out: Vec<Widget> = Vec::new();
    let mut i: usize = 0;
    while i < blocks.len()
        invariant
            i <= blocks.len(),
            models == block_models(blocks@),
            out.len() == i,
            forall|k: int| 0 <= k < i ==> (#[trigger] out@[k]).model() == block_widget(models[k]),
        decreases blocks.len() - i,
    {
        let w = block_to_widget(&blocks[i]);
        out.push(w);
        i = i + 1;
    }
    assert(widget_models(out@) =~= block_widgets(models));
    out
}

/// The widget of a block.
pub fn block_to_widget(block: &MdBlock) -> (r: Widget)
    ensures
        r.model() == block_widget(block@),
    decreases block, 0nat,
{
    match block {
        MdBlock::Paragraph(inlines) => label_of(inlines, None, None),
        MdBlock::Heading { level, inlines } => heading_to_label(*level, inlines),
        MdBlock::CodeBlock { lang, text } => {
            let shown: Option<String> = match lang {
                Some(s) => if s.as_str().is_empty() {
                    None
                } else {
                    Some(s.clone())
                },
                None => None,
            };
            Widget::Code { lang: shown, text: text.clone() }
        },
        MdBlock::List { ordered, items } => list_to_box(*ordered, items),
        MdBlock::BlockQuote(inner) => Widget::Quote { children: blocks_to_widgets(inner) },
        MdBlock::Table { headers, rows } => table_to_grid(headers, rows),
        MdBlock::ThematicBreak => Widget::Separator,
        MdBlock::HtmlBlock(html) => Widget::Label {
            text: html.clone(),
            attrs: Vec::new(),
            scale_tenths: None,
            css_class: Some("codex-raw-html".to_owned()),
        },
    }
}

/// Whether every attribute is a range of what stands between `lo` and `hi`.
spec fn attrs_between(attrs: Seq<TextAttr>, lo: int, hi: int) -> bool {
    forall|i: int|
        0 <= i < attrs.len() ==> lo <= (#[trigger] attrs[i]).start <= attrs[i].end <= hi
}

proof fn lemma_node_attrs(prefix: Seq<char>, node: InlineView)
    requires
        encode_utf8(prefix + node_text(node)).len() <= u32::MAX,
    ensures
        attrs_between(
            node_attrs(prefix, node),
            encode_utf8(prefix).len() as int,
            encode_utf8(prefix + node_text(node)).len() as int,
        ),
    decreases node, 0nat,
{
    lemma_encode_concat(prefix, node_text(node));
    match node {
        InlineView::Emphasis(c) => lemma_run_attrs(prefix, c),
        InlineView::Strong(c) => lemma_run_attrs(prefix, c),
        InlineView::Strikethrough(c) => lemma_run_attrs(prefix, c),
        InlineView::Link { children, .. } => lemma_run_attrs(prefix, children),
        InlineView::Image { alt, .. } => lemma_run_attrs(prefix, alt),
        _ => {},
    }
}

proof fn lemma_run_attrs(prefix: Seq<char>, run: Seq<InlineView>)
    requires
        encode_utf8(prefix + run_text(run)).len() <= u32::MAX,
    ensures
        attrs_between(
            run_attrs(prefix, run),
            encode_utf8(prefix).len() as int,
            encode_utf8(prefix + run_text(run)).len() as int,
        ),
    decreases run, 0nat,
{
    if run.len() > 0 {
        let front = run.drop_last();
        let node = run.last();
        let middle = prefix + run_text(front);
        assert(prefix + run_text(run) =~= middle + node_text(node));
        lemma_encode_concat(prefix, run_text(front));
        lemma_encode_concat(middle, node_text(node));
        lemma_run_attrs(prefix, front);
        lemma_node_attrs(middle, node);
    }
}

/// Every attribute of a flattened run is a byte range of the run's text, for
/// texts whose length fits the indices.
pub proof fn law_attrs_in_text(run: Seq<InlineView>)
    requires
        encode_utf8(run_text(run)).len() <= u32::MAX,
    ensures
        forall|i: int|
            0 <= i < run_attrs(Seq::empty(), run).len() ==> (#[trigger] run_attrs(
                Seq::empty(),
                run,
            )[i]).start <= run_attrs(Seq::empty(), run)[i].end <= encode_utf8(run_text(run)).len(),
{
    assert(Seq::<char>::empty() + run_text(run) =~= run_text(run));
    lemma_run_attrs(Seq::empty(), run);
}

} // verus!
