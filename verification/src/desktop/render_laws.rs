//! What the widgets of blocks show.
use crate::desktop::render::{
    block_widget, block_widgets, grid_body, grid_cell, grid_row, grid_views, list_row_models,
    node_attrs, node_text, run_attrs, run_text, widget_models, AttrKind, CellView, GridCell,
    ListRow, TextAttr, Widget, WidgetView,
};
use crate::markdown::ast::BlockView;
use crate::markdown::inline::InlineView;
use crate::markdown::text_laws::{
    code, html, inline_pieces, lemma_one_piece_each, lemma_run_pieces_concat, plain, run_pieces,
    Piece, Style,
};
use crate::text::{decimal, lemma_encode_concat};
use vstd::prelude::*;
use vstd::utf8::encode_utf8;

verus! {

/// The characters that a piece is shown as: a soft break as a blank, a hard
/// break as a line feed.
pub open spec fn shown_piece(piece: Piece) -> Seq<char> {
    match piece.0 {
        Style::SoftBreak => seq![' '],
        Style::HardBreak => seq!['\n'],
        Style::Rule => Seq::empty(),
        _ => seq![piece.1],
    }
}

/// The characters that a run of pieces is shown as.
pub open spec fn shown(pieces: Seq<Piece>) -> Seq<char>
    decreases pieces.len(),
{
    if pieces.len() == 0 {
        Seq::empty()
    } else {
        shown(pieces.drop_last()) + shown_piece(pieces.last())
    }
}

proof fn lemma_shown_concat(a: Seq<Piece>, b: Seq<Piece>)
    ensures
        shown(a + b) == shown(a) + shown(b),
    decreases b.len(),
{
    if b.len() == 0 {
        assert(a + b =~= a);
        assert(shown(a) + shown(b) =~= shown(a));
    } else {
        lemma_shown_concat(a, b.drop_last());
        assert((a + b).drop_last() =~= a + b.drop_last());
        assert((a + b).last() == b.last());
        assert(shown(a + b) =~= shown(a) + shown(b));
    }
}

proof fn lemma_shown_chars(pieces: Seq<Piece>, s: Seq<char>)
    requires
        pieces.len() == s.len(),
        forall|i: int| 0 <= i < s.len() ==> shown_piece(#[trigger] pieces[i]) == seq![s[i]],
    ensures
        shown(pieces) == s,
    decreases s.len(),
{
    if s.len() > 0 {
        let front = pieces.drop_last();
        assert forall|i: int| 0 <= i < front.len() implies shown_piece(#[trigger] front[i]) == seq![
            s.drop_last()[i],
        ] by {
            assert(front[i] == pieces[i]);
        }
        lemma_shown_chars(front, s.drop_last());
        assert(shown_piece(pieces[pieces.len() - 1]) == seq![s.last()]);
        assert(s.drop_last() + seq![s.last()] =~= s);
    } else {
        assert(shown(pieces) =~= s);
    }
}

proof fn lemma_plain_shown(s: Seq<char>)
    ensures
        shown(plain(s)) == s,
{
    lemma_one_piece_each(s);
    lemma_shown_chars(plain(s), s);
}

proof fn lemma_code_shown(s: Seq<char>)
    ensures
        shown(code(s)) == s,
{
    lemma_one_piece_each(s);
    lemma_shown_chars(code(s), s);
}

proof fn lemma_html_shown(s: Seq<char>)
    ensures
        shown(html(s)) == s,
{
    lemma_one_piece_each(s);
    lemma_shown_chars(html(s), s);
}

proof fn lemma_node_shown(node: InlineView)
    ensures
        node_text(node) == shown(inline_pieces(node)),
    decreases node, 0nat,
{
    let pieces = inline_pieces(node);
    match node {
        InlineView::Text(s) => {
            lemma_plain_shown(s);
        },
        InlineView::Code(s) => {
            lemma_code_shown(s);
        },
        InlineView::Html(s) => {
            lemma_html_shown(s);
        },
        InlineView::SoftBreak => lemma_shown_chars(pieces, seq![' ']),
        InlineView::HardBreak => lemma_shown_chars(pieces, seq!['\n']),
        InlineView::Emphasis(c) => law_text_is_shown(c),
        InlineView::Strong(c) => law_text_is_shown(c),
        InlineView::Strikethrough(c) => law_text_is_shown(c),
        InlineView::Link { children, .. } => law_text_is_shown(children),
        InlineView::Image { alt, .. } => law_text_is_shown(alt),
    }
}

/// The text of a label is every character of its inline nodes, at whatever
/// depth, in order, with the breaks as blanks and line feeds, and no other.
pub proof fn law_text_is_shown(run: Seq<InlineView>)
    ensures
        run_text(run) == shown(run_pieces(run)),
    decreases run, 1nat,
{
    if run.len() > 0 {
        law_text_is_shown(run.drop_last());
        lemma_node_shown(run.last());
        lemma_shown_concat(run_pieces(run.drop_last()), inline_pieces(run.last()));
    }
}

proof fn lemma_text_concat(a: Seq<InlineView>, b: Seq<InlineView>)
    ensures
        run_text(a + b) == run_text(a) + run_text(b),
{
    law_text_is_shown(a);
    law_text_is_shown(b);
    law_text_is_shown(a + b);
    lemma_run_pieces_concat(a, b);
    lemma_shown_concat(run_pieces(a), run_pieces(b));
}

proof fn lemma_attrs_concat(prefix: Seq<char>, a: Seq<InlineView>, b: Seq<InlineView>)
    ensures
        run_attrs(prefix, a + b) == run_attrs(prefix, a) + run_attrs(prefix + run_text(a), b),
    decreases b.len(),
{
    if b.len() == 0 {
        assert(a + b =~= a);
        assert(run_attrs(prefix, a) + run_attrs(prefix + run_text(a), b) =~= run_attrs(prefix, a));
    } else {
        let front = b.drop_last();
        lemma_attrs_concat(prefix, a, front);
        lemma_text_concat(a, front);
        assert((a + b).drop_last() =~= a + front);
        assert((a + b).last() == b.last());
        assert(prefix + (run_text(a) + run_text(front)) =~= prefix + run_text(a) + run_text(front));
        assert(run_attrs(prefix, a + b) =~= run_attrs(prefix, a) + run_attrs(
            prefix + run_text(a),
            b,
        ));
    }
}

/// The setting of an inline node, where it has one, and the text that it is
/// the setting of.
pub open spec fn setting(node: InlineView) -> Option<AttrKind> {
    match node {
        InlineView::Code(_) => Some(AttrKind::Monospace),
        InlineView::Emphasis(_) => Some(AttrKind::Italic),
        InlineView::Strong(_) => Some(AttrKind::Bold),
        InlineView::Strikethrough(_) => Some(AttrKind::Strikethrough),
        _ => None,
    }
}

/// What a node holds, where it holds others.
pub open spec fn held(node: InlineView) -> Seq<InlineView> {
    match node {
        InlineView::Emphasis(c) => c,
        InlineView::Strong(c) => c,
        InlineView::Strikethrough(c) => c,
        InlineView::Link { children, .. } => children,
        InlineView::Image { alt, .. } => alt,
        _ => Seq::empty(),
    }
}

/// How many nodes of a run, at whatever depth, have a setting.
pub open spec fn settings_in(run: Seq<InlineView>) -> nat
    decreases run,
{
    if run.len() == 0 {
        0
    } else {
        settings_in(run.drop_last()) + node_settings(run.last())
    }
}

/// How many nodes, this one and those it holds, have a setting.
pub open spec fn node_settings(node: InlineView) -> nat
    decreases node,
{
    match node {
        InlineView::Code(_) => 1,
        InlineView::Emphasis(c) => 1 + settings_in(c),
        InlineView::Strong(c) => 1 + settings_in(c),
        InlineView::Strikethrough(c) => 1 + settings_in(c),
        InlineView::Link { children, .. } => settings_in(children),
        InlineView::Image { alt, .. } => settings_in(alt),
        _ => 0,
    }
}

proof fn lemma_node_attr_count(prefix: Seq<char>, node: InlineView)
    ensures
        node_attrs(prefix, node).len() == node_settings(node),
    decreases node, 0nat,
{
    match node {
        InlineView::Emphasis(c) => law_attr_count(prefix, c),
        InlineView::Strong(c) => law_attr_count(prefix, c),
        InlineView::Strikethrough(c) => law_attr_count(prefix, c),
        InlineView::Link { children, .. } => law_attr_count(prefix, children),
        InlineView::Image { alt, .. } => law_attr_count(prefix, alt),
        _ => {},
    }
}

/// A label has one attribute for each of its nodes that has a setting, and no
/// other.
pub proof fn law_attr_count(prefix: Seq<char>, run: Seq<InlineView>)
    ensures
        run_attrs(prefix, run).len() == settings_in(run),
    decreases run, 1nat,
{
    if run.len() > 0 {
        law_attr_count(prefix, run.drop_last());
        lemma_node_attr_count(prefix + run_text(run.drop_last()), run.last());
    }
}

/// The attribute of a node covers, in bytes, the text of the node where that
/// stands in the label: from behind what stands before it, to its end. What
/// the node holds is set as it would be by itself at that place.
pub proof fn law_attr_covers_its_text(
    before: Seq<InlineView>,
    node: InlineView,
    after: Seq<InlineView>,
)
    requires
        encode_utf8(run_text(before) + run_text(seq![node])).len() <= u32::MAX,
    ensures
        ({
            let attrs = run_attrs(Seq::empty(), before + seq![node] + after);
            let start = encode_utf8(run_text(before)).len();
            let end = start + encode_utf8(run_text(seq![node])).len();
            let own = run_attrs(Seq::empty(), before).len() + run_attrs(
                run_text(before),
                held(node),
            ).len();
            &&& attrs.take(run_attrs(Seq::empty(), before).len() as int) == run_attrs(
                Seq::empty(),
                before,
            )
            &&& setting(node) matches Some(kind) ==> own < attrs.len() && attrs[own as int].kind
                == kind && attrs[own as int].start == start && attrs[own as int].end == end
            &&& attrs.subrange(run_attrs(Seq::empty(), before).len() as int, own as int)
                == run_attrs(run_text(before), held(node))
        }),
{
    let one = seq![node];
    let prefix = run_text(before);
    lemma_attrs_concat(Seq::empty(), before + one, after);
    lemma_attrs_concat(Seq::empty(), before, one);
    assert(Seq::<char>::empty() + prefix =~= prefix);
    assert(one.drop_last() =~= Seq::<InlineView>::empty());
    let none = one.drop_last();
    assert(run_attrs(prefix, none) + node_attrs(prefix + run_text(none), node) =~= node_attrs(
        prefix,
        node,
    )) by {
        assert(prefix + run_text(none) =~= prefix);
    }
    assert(run_text(none) + node_text(node) =~= node_text(node));
    lemma_encode_concat(prefix, node_text(node));
    let attrs = run_attrs(Seq::empty(), before + one + after);
    let first = run_attrs(Seq::empty(), before);
    let mine = node_attrs(prefix, node);
    let last = run_attrs(Seq::<char>::empty() + run_text(before + one), after);
    assert(attrs == first + mine + last);
    assert(attrs.take(first.len() as int) =~= first);
    let inner = run_attrs(prefix, held(node));
    assert(run_attrs(prefix, Seq::<InlineView>::empty()).len() == 0);
    assert(attrs.subrange(first.len() as int, (first.len() + inner.len()) as int) =~= inner);
    if setting(node) is Some {
        let own = (first.len() + inner.len()) as int;
        assert(attrs[own] == mine[inner.len() as int]);
    }
}

/// Whether a cell of a grid shows a table cell at a place.
pub open spec fn shows(
    cell: CellView,
    content: Seq<InlineView>,
    column: int,
    row: int,
    header: bool,
) -> bool {
    &&& cell.column == column
    &&& cell.row == row
    &&& cell.text == run_text(content)
    &&& cell.attrs == run_attrs(Seq::empty(), content)
    &&& cell.header == header
}

/// Whether a grid shows a table cell at a place.
pub open spec fn placed(
    cells: Seq<CellView>,
    content: Seq<InlineView>,
    column: int,
    row: int,
    header: bool,
) -> bool {
    exists|k: int|
        0 <= k < cells.len() && shows(#[trigger] cells[k], content, column, row, header)
}

/// How many cells the rows of a table have.
pub open spec fn cells_in(rows: Seq<Seq<Seq<InlineView>>>) -> nat
    decreases rows.len(),
{
    if rows.len() == 0 {
        0
    } else {
        cells_in(rows.drop_last()) + rows.last().len()
    }
}

proof fn lemma_body_places(rows: Seq<Seq<Seq<InlineView>>>, i: int, j: int)
    requires
        0 <= i < rows.len() < i32::MAX,
        0 <= j < rows[i].len() <= i32::MAX,
    ensures
        cells_in(rows.take(i)) + j < grid_body(rows).len(),
        shows(grid_body(rows)[cells_in(rows.take(i)) + j], rows[i][j], j, i + 1, false),
    decreases rows.len(),
{
    let front = rows.drop_last();
    lemma_body_count(front);
    if i < front.len() {
        assert(front[i] == rows[i]);
        lemma_body_places(front, i, j);
        assert(front.take(i) =~= rows.take(i));
    } else {
        assert(rows.take(i) =~= front);
        assert(grid_row(rows.last(), rows.len() as int, false)[j] == grid_cell(
            rows.last()[j],
            j,
            rows.len() as int,
            false,
        ));
    }
}

proof fn lemma_body_count(rows: Seq<Seq<Seq<InlineView>>>)
    ensures
        grid_body(rows).len() == cells_in(rows),
    decreases rows.len(),
{
    if rows.len() > 0 {
        lemma_body_count(rows.drop_last());
    }
}

proof fn lemma_body_inside(rows: Seq<Seq<Seq<InlineView>>>, k: int)
    requires
        rows.len() < i32::MAX,
        forall|i: int| 0 <= i < rows.len() ==> (#[trigger] rows[i]).len() <= i32::MAX,
        0 <= k < grid_body(rows).len(),
    ensures
        ({
            let cell = grid_body(rows)[k];
            &&& 1 <= cell.row <= rows.len()
            &&& 0 <= cell.column < rows[cell.row - 1].len()
            &&& k == cells_in(rows.take(cell.row - 1)) + cell.column
        }),
    decreases rows.len(),
{
    let front = rows.drop_last();
    lemma_body_count(front);
    assert forall|i: int| 0 <= i < front.len() implies (#[trigger] front[i]).len() <= i32::MAX by {
        assert(front[i] == rows[i]);
    }
    if k < grid_body(front).len() {
        lemma_body_inside(front, k);
        let cell = grid_body(rows)[k];
        assert(cell == grid_body(front)[k]);
        assert(front.take(cell.row - 1) =~= rows.take(cell.row - 1));
        assert(front[cell.row - 1] == rows[cell.row - 1]);
    } else {
        assert(rows.take(rows.len() - 1) =~= front);
        assert(rows[rows.len() - 1] == rows.last());
        let j = k - grid_body(front).len();
        assert(grid_body(rows)[k] == grid_row(rows.last(), rows.len() as int, false)[j]);
    }
}

/// A table is laid out as a grid: the cells of its head in the first row, each
/// in its column, and the cells of its `i`-th row in row `i + 1`, each in its
/// column, with their text; no two cells share a place, and there are no
/// others.
pub proof fn law_grid_places(
    headers: Seq<Seq<InlineView>>,
    rows: Seq<Seq<Seq<InlineView>>>,
    cells: Seq<CellView>,
)
    requires
        headers.len() <= i32::MAX,
        rows.len() < i32::MAX,
        forall|i: int| 0 <= i < rows.len() ==> (#[trigger] rows[i]).len() <= i32::MAX,
        block_widget(BlockView::Table { headers, rows }) == (WidgetView::Grid { cells }),
    ensures
        forall|j: int|
            0 <= j < headers.len() ==> placed(cells, #[trigger] headers[j], j, 0, true),
        forall|i: int, j: int|
            0 <= i < rows.len() && 0 <= j < rows[i].len() ==> placed(
                cells,
                #[trigger] rows[i][j],
                j,
                i + 1,
                false,
            ),
        forall|k: int, l: int|
            0 <= k < l < cells.len() ==> (#[trigger] cells[k]).column != (
            #[trigger] cells[l]).column || cells[k].row != cells[l].row,
        cells.len() == headers.len() + cells_in(rows),
{
    let head = grid_row(headers, 0, true);
    let body = grid_body(rows);
    assert(cells == head + body);
    lemma_body_count(rows);
    assert forall|j: int| 0 <= j < headers.len() implies placed(
        cells,
        #[trigger] headers[j],
        j,
        0,
        true,
    ) by {
        assert(cells[j] == grid_cell(headers[j], j, 0, true));
        assert(shows(cells[j], headers[j], j, 0, true));
    }
    assert forall|i: int, j: int| 0 <= i < rows.len() && 0 <= j < rows[i].len() implies placed(
        cells,
        #[trigger] rows[i][j],
        j,
        i + 1,
        false,
    ) by {
        lemma_body_places(rows, i, j);
        let k = head.len() + cells_in(rows.take(i)) + j;
        assert(cells[k] == body[cells_in(rows.take(i)) + j]);
        assert(shows(cells[k], rows[i][j], j, i + 1, false));
    }
    assert forall|k: int, l: int| 0 <= k < l < cells.len() implies (#[trigger] cells[k]).column != (
    #[trigger] cells[l]).column || cells[k].row != cells[l].row by {
        if l < head.len() {
            assert(cells[k] == grid_cell(headers[k], k, 0, true));
            assert(cells[l] == grid_cell(headers[l], l, 0, true));
        } else {
            lemma_body_inside(rows, l - head.len());
            assert(cells[l] == body[l - head.len()]);
            if k < head.len() {
                assert(cells[k] == grid_cell(headers[k], k, 0, true));
            } else {
                lemma_body_inside(rows, k - head.len());
                assert(cells[k] == body[k - head.len()]);
            }
        }
    }
}

/// A list has a row for each of its items, in order, with the widgets of the
/// item; an ordered list numbers them from one, another marks them with a
/// bullet.
pub proof fn law_list_rows(
    ordered: bool,
    items: Seq<Seq<BlockView>>,
    rows: Seq<(Seq<char>, Seq<WidgetView>)>,
    i: int,
)
    requires
        block_widget(BlockView::List { ordered, items }) == (WidgetView::List { rows }),
        0 <= i < items.len(),
    ensures
        rows.len() == items.len(),
        ordered ==> rows[i].0 == decimal((i + 1) as nat) + seq!['.'],
        !ordered ==> rows[i].0 == seq!['\u{2022}'],
        rows[i].1.len() == items[i].len(),
        forall|k: int|
            0 <= k < items[i].len() ==> #[trigger] rows[i].1[k] == block_widget(items[i][k]),
{
    assert(rows[i].1 == block_widgets(items[i]));
    assert(decimal((i + 1) as nat).push('.') =~= decimal((i + 1) as nat) + seq!['.']);
}

/// A quote holds the widgets of its blocks, in order.
pub proof fn law_quote_children(inner: Seq<BlockView>, children: Seq<WidgetView>)
    requires
        block_widget(BlockView::BlockQuote(inner)) == (WidgetView::Quote { children }),
    ensures
        children.len() == inner.len(),
        forall|k: int| 0 <= k < inner.len() ==> #[trigger] children[k] == block_widget(inner[k]),
{
}

/// A heading is a label of its text, the larger the higher it stands: of the
/// first three levels each has a size of its own, above that of text, and a
/// class that names its level.
pub proof fn law_heading_label(level: u8, inlines: Seq<InlineView>)
    requires
        1 <= level <= 6,
    ensures
        block_widget(BlockView::Heading { level, inlines }) matches WidgetView::Label {
            text,
            attrs,
            scale_tenths,
            css_class,
        } && text == run_text(inlines) && attrs == run_attrs(Seq::empty(), inlines) && css_class
            == Some("codex-heading-"@ + decimal(level as nat)) && scale_tenths == (if level == 1 {
            Some(16u32)
        } else if level == 2 {
            Some(14u32)
        } else if level == 3 {
            Some(12u32)
        } else {
            Some(10u32)
        }),
{
}

/// A paragraph is a label of its text without a size or class of its own; raw
/// HTML is shown as it stands, under a class of its own; code is shown as it
/// stands with its language, unless that is empty; a rule is a separator.
pub proof fn law_plain_widgets(
    inlines: Seq<InlineView>,
    text: Seq<char>,
    lang: Seq<char>,
)
    ensures
        block_widget(BlockView::Paragraph(inlines)) == (WidgetView::Label {
            text: run_text(inlines),
            attrs: run_attrs(Seq::empty(), inlines),
            scale_tenths: None,
            css_class: None,
        }),
        block_widget(BlockView::HtmlBlock(text)) == (WidgetView::Label {
            text,
            attrs: Seq::<TextAttr>::empty(),
            scale_tenths: None,
            css_class: Some("codex-raw-html"@),
        }),
        block_widget(BlockView::CodeBlock { lang: None, text }) == (WidgetView::Code {
            lang: None,
            text,
        }),
        lang.len() > 0 ==> block_widget(BlockView::CodeBlock { lang: Some(lang), text }) == (
        WidgetView::Code { lang: Some(lang), text }),
        lang.len() == 0 ==> block_widget(BlockView::CodeBlock { lang: Some(lang), text }) == (
        WidgetView::Code { lang: None, text }),
        block_widget(BlockView::ThematicBreak) is Separator,
{
}

/// A heading of a level that is out of range is classed under the nearest
/// level that is in range, and has the size of text.
pub proof fn law_heading_out_of_range(level: u8, inlines: Seq<InlineView>)
    ensures
        level > 6 ==> block_widget(BlockView::Heading { level, inlines }) == block_widget(
            BlockView::Heading { level: 6, inlines },
        ),
        block_widget(BlockView::Heading { level: 0, inlines }) == (WidgetView::Label {
            text: run_text(inlines),
            attrs: run_attrs(Seq::empty(), inlines),
            scale_tenths: Some(10),
            css_class: Some("codex-heading-"@ + decimal(1)),
        }),
{
}

/// A widget stands for the widget of its own kind, with its own text, rows,
/// children and cells, in order.
pub proof fn law_widget_views(
    text: String,
    attrs: Vec<TextAttr>,
    scale_tenths: Option<u32>,
    class: Option<String>,
    rows: Vec<ListRow>,
    children: Vec<Widget>,
    cells: Vec<GridCell>,
    i: int,
)
    ensures
        (Widget::Label { text, attrs, scale_tenths, css_class: class }).model() == (
        WidgetView::Label {
            text: text@,
            attrs: attrs@,
            scale_tenths,
            css_class: match class {
                Some(s) => Some(s@),
                None => None,
            },
        }),
        (Widget::Code { lang: class, text }).model() == (WidgetView::Code {
            lang: match class {
                Some(s) => Some(s@),
                None => None,
            },
            text: text@,
        }),
        (Widget::List { rows }).model() == (WidgetView::List { rows: list_row_models(rows@) }),
        (Widget::Quote { children }).model() == (WidgetView::Quote {
            children: widget_models(children@),
        }),
        (Widget::Grid { cells }).model() == (WidgetView::Grid { cells: grid_views(cells@) }),
        Widget::Separator.model() == WidgetView::Separator,
        list_row_models(rows@).len() == rows@.len(),
        0 <= i < rows@.len() ==> list_row_models(rows@)[i] == (
            rows@[i].marker@,
            widget_models(rows@[i].body@),
        ),
        widget_models(children@).len() == children@.len(),
        0 <= i < children@.len() ==> widget_models(children@)[i] == children@[i].model(),
        grid_views(cells@).len() == cells@.len(),
        0 <= i < cells@.len() ==> grid_views(cells@)[i].column == cells@[i].column && grid_views(
            cells@,
        )[i].row == cells@[i].row && grid_views(cells@)[i].text == cells@[i].text@ && grid_views(
            cells@,
        )[i].attrs == cells@[i].attrs@ && grid_views(cells@)[i].header == cells@[i].header,
{
}

} // verus!
