use codex_desktop::desktop::render::{
    attrlist_for_inlines, block_to_widget, blocks_to_widgets, list_marker, AttrKind, TextAttr,
    Widget,
};
use codex_desktop::markdown::ast::MdBlock;
use codex_desktop::markdown::inline::{Inline, InlineCode, InlineImage, InlineLink};

#[test]
fn paragraph_renders_as_label() {
    let inlines = vec![
        Inline::Text("hello ".into()),
        Inline::Strong(vec![Inline::Text("world".into())]),
    ];
    match block_to_widget(&MdBlock::Paragraph(inlines)) {
        Widget::Label { text, attrs, .. } => {
            assert_eq!(text, "hello world");
            assert_eq!(attrs, vec![TextAttr { kind: AttrKind::Bold, start: 6, end: 11 }]);
        }
        other => panic!("paragraph should be a Label, got {other:?}"),
    }
}

#[test]
fn code_block_uses_sourceview() {
    let block = MdBlock::CodeBlock { lang: Some("rust".into()), text: "fn main() {}".into() };
    match block_to_widget(&block) {
        Widget::Code { lang, text } => {
            assert_eq!(lang.as_deref(), Some("rust"));
            assert_eq!(text, "fn main() {}");
        }
        other => panic!("expected a source view, got {other:?}"),
    }
}

#[test]
fn ordered_list_renders_numbered_markers() {
    let items = vec![
        vec![MdBlock::Paragraph(vec![Inline::Text("first".into())])],
        vec![MdBlock::Paragraph(vec![Inline::Text("second".into())])],
    ];
    match block_to_widget(&MdBlock::List { ordered: true, items }) {
        Widget::List { rows } => {
            assert_eq!(rows.len(), 2);
            assert_eq!(rows[0].marker, "1.");
            assert_eq!(rows[1].marker, "2.");
        }
        other => panic!("expected a list, got {other:?}"),
    }
}

#[test]
fn unordered_list_renders_bullet_markers() {
    let items = vec![vec![MdBlock::Paragraph(vec![Inline::Text("only".into())])]];
    match block_to_widget(&MdBlock::List { ordered: false, items }) {
        Widget::List { rows } => {
            assert_eq!(rows[0].marker, "\u{2022}");
            assert_eq!(rows[0].body.len(), 1);
        }
        other => panic!("expected a list, got {other:?}"),
    }
    assert_eq!(list_marker(true, 9), "10.");
}

#[test]
fn heading_adds_css_class() {
    let block = MdBlock::Heading { level: 2, inlines: vec![Inline::Text("Title".into())] };
    match block_to_widget(&block) {
        Widget::Label { text, css_class, scale_tenths, .. } => {
            assert_eq!(text, "Title");
            assert_eq!(css_class.as_deref(), Some("codex-heading-2"));
            assert_eq!(scale_tenths, Some(14));
        }
        other => panic!("expected a label, got {other:?}"),
    }
}

#[test]
fn thematic_break_is_separator() {
    assert!(matches!(block_to_widget(&MdBlock::ThematicBreak), Widget::Separator));
}

#[test]
fn blockquote_has_css_class() {
    let block = MdBlock::BlockQuote(vec![MdBlock::Paragraph(vec![Inline::Text("q".into())])]);
    match block_to_widget(&block) {
        Widget::Quote { children } => assert_eq!(children.len(), 1),
        other => panic!("expected a quote, got {other:?}"),
    }
}

#[test]
fn html_block_is_escaped_label() {
    match block_to_widget(&MdBlock::HtmlBlock("<b>raw</b>".into())) {
        Widget::Label { text, css_class, .. } => {
            assert_eq!(text, "<b>raw</b>");
            assert_eq!(css_class.as_deref(), Some("codex-raw-html"));
        }
        other => panic!("expected a label, got {other:?}"),
    }
}

#[test]
fn table_renders_as_grid() {
    let block = MdBlock::Table {
        headers: vec![vec![Inline::Text("h1".into())], vec![Inline::Text("h2".into())]],
        rows: vec![vec![vec![Inline::Text("a".into())], vec![Inline::Text("b".into())]]],
    };
    match block_to_widget(&block) {
        Widget::Grid { cells } => {
            let at = |column: i32, row: i32| {
                cells.iter().find(|c| c.column == column && c.row == row).expect("a cell")
            };
            assert_eq!(at(0, 0).text, "h1");
            assert!(at(0, 0).header);
            assert_eq!(at(1, 1).text, "b");
            assert!(!at(1, 1).header);
        }
        other => panic!("expected a grid, got {other:?}"),
    }
}

#[test]
fn attrlist_flattens_nested_inlines() {
    let inlines = vec![
        Inline::Text("a ".into()),
        Inline::Emphasis(vec![Inline::Text("b".into())]),
        Inline::Code(InlineCode { text: "c".into() }),
    ];
    let (text, attrs) = attrlist_for_inlines(&inlines);
    assert_eq!(text, "a bc");
    assert_eq!(
        attrs,
        vec![
            TextAttr { kind: AttrKind::Italic, start: 2, end: 3 },
            TextAttr { kind: AttrKind::Monospace, start: 3, end: 4 },
        ]
    );
}

#[test]
fn attributes_count_bytes() {
    let inlines = vec![
        Inline::Text("\u{e9}".into()),
        Inline::Strikethrough(vec![Inline::Strong(vec![Inline::Text("\u{2026}".into())])]),
    ];
    let (text, attrs) = attrlist_for_inlines(&inlines);
    assert_eq!(text, "\u{e9}\u{2026}");
    assert!(attrs.iter().all(|a| a.start == 2 && a.end == 5));
    assert_eq!(attrs.len(), 2);
}

#[test]
fn links_and_images_render_their_contents() {
    let inlines = vec![
        Inline::Link(InlineLink {
            url: "http://x".into(),
            title: "".into(),
            children: vec![Inline::Text("label".into())],
        }),
        Inline::Image(InlineImage {
            url: "u".into(),
            title: "".into(),
            alt: vec![Inline::Text("alt".into())],
        }),
    ];
    let (text, _) = attrlist_for_inlines(&inlines);
    assert!(text.contains("label"));
    let widgets = blocks_to_widgets(&vec![MdBlock::ThematicBreak, MdBlock::Paragraph(inlines)]);
    assert_eq!(widgets.len(), 2);
}
