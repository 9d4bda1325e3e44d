use codex_desktop::markdown::ast::{MdBlock, MdDocument};
use codex_desktop::markdown::events::{MdEvent, MdTag, MdTagEnd, SpannedEvent};
use codex_desktop::markdown::incremental::{BlockCache, BlockCacheEntry};
use codex_desktop::markdown::inline::{Inline, InlineCode, InlineImage};
use codex_desktop::markdown::parser::{parse_full, IncrementalParser};
use codex_desktop::markdown::walker::walk_events;

#[test]
fn is_open_terminator_thematic_break() {
    assert!(MdBlock::ThematicBreak.is_open_terminator());
}

#[test]
fn is_open_terminator_paragraph_is_false() {
    assert!(!MdBlock::Paragraph(vec![Inline::Text("x".into())]).is_open_terminator());
}

fn paragraph_text(text: &str) -> MdBlock {
    MdBlock::Paragraph(vec![Inline::Text(text.into())])
}

#[test]
fn parse_full_empty_returns_empty_document() {
    assert_eq!(parse_full(""), MdDocument { blocks: vec![] });
}

#[test]
fn walks_simple_paragraph() {
    assert_eq!(
        parse_full("hello world"),
        MdDocument {
            blocks: vec![paragraph_text("hello world")],
        }
    );
}

#[test]
fn walks_atx_heading() {
    assert_eq!(
        parse_full("# Title"),
        MdDocument {
            blocks: vec![MdBlock::Heading {
                level: 1,
                inlines: vec![Inline::Text("Title".into())],
            }],
        }
    );
}

#[test]
fn walks_heading_levels() {
    for level in 1..=6u8 {
        let src = format!("{} h", "#".repeat(level as usize));
        let doc = parse_full(&src);
        assert_eq!(doc.blocks.len(), 1, "level {level} src {src:?}");
        match &doc.blocks[0] {
            MdBlock::Heading { level: l, .. } => assert_eq!(*l, level),
            other => panic!("expected heading, got {other:?}"),
        }
    }
}

#[test]
fn walks_thematic_break() {
    assert_eq!(
        parse_full("---"),
        MdDocument {
            blocks: vec![MdBlock::ThematicBreak],
        }
    );
}

#[test]
fn walks_fenced_code_block_with_lang() {
    let src = "```rust\nfn main() {}\n```";
    let doc = parse_full(src);
    assert_eq!(doc.blocks.len(), 1);
    match &doc.blocks[0] {
        MdBlock::CodeBlock { lang, text } => {
            assert_eq!(lang.as_deref(), Some("rust"));
            assert_eq!(text, "fn main() {}\n");
        }
        other => panic!("expected code block, got {other:?}"),
    }
}

#[test]
fn walks_fenced_code_block_without_lang() {
    let src = "```\nplain\n```";
    let doc = parse_full(src);
    match &doc.blocks[0] {
        MdBlock::CodeBlock { lang, text } => {
            assert_eq!(*lang, None);
            assert_eq!(text, "plain\n");
        }
        other => panic!("expected code block, got {other:?}"),
    }
}

#[test]
fn walks_indented_code_block() {
    let src = "    indented\n    code\n";
    let doc = parse_full(src);
    match &doc.blocks[0] {
        MdBlock::CodeBlock { lang, text } => {
            assert_eq!(*lang, None);
            assert!(text.contains("indented"));
        }
        other => panic!("expected code block, got {other:?}"),
    }
}

#[test]
fn walks_unordered_list() {
    let src = "- a\n- b\n";
    let doc = parse_full(src);
    match &doc.blocks[0] {
        MdBlock::List { ordered, items } => {
            assert!(!ordered);
            assert_eq!(items.len(), 2);
        }
        other => panic!("expected list, got {other:?}"),
    }
}

#[test]
fn walks_ordered_list() {
    let src = "1. a\n2. b\n";
    let doc = parse_full(src);
    match &doc.blocks[0] {
        MdBlock::List { ordered, items } => {
            assert!(*ordered);
            assert_eq!(items.len(), 2);
        }
        other => panic!("expected list, got {other:?}"),
    }
}

#[test]
fn walks_blockquote() {
    let src = "> quoted\n";
    let doc = parse_full(src);
    match &doc.blocks[0] {
        MdBlock::BlockQuote(inner) => {
            assert_eq!(inner.len(), 1);
            assert!(matches!(inner[0], MdBlock::Paragraph(_)));
        }
        other => panic!("expected blockquote, got {other:?}"),
    }
}

#[test]
fn walks_inline_emphasis() {
    let doc = parse_full("*hi*");
    match &doc.blocks[0] {
        MdBlock::Paragraph(inlines) => {
            assert_eq!(inlines.len(), 1);
            assert!(matches!(inlines[0], Inline::Emphasis(_)));
        }
        other => panic!("expected paragraph, got {other:?}"),
    }
}

#[test]
fn walks_inline_strong() {
    let doc = parse_full("**hi**");
    match &doc.blocks[0] {
        MdBlock::Paragraph(inlines) => {
            assert!(matches!(inlines[0], Inline::Strong(_)));
        }
        other => panic!("expected paragraph, got {other:?}"),
    }
}

#[test]
fn walks_inline_strikethrough() {
    let doc = parse_full("~~gone~~");
    match &doc.blocks[0] {
        MdBlock::Paragraph(inlines) => {
            assert!(matches!(inlines[0], Inline::Strikethrough(_)));
        }
        other => panic!("expected paragraph, got {other:?}"),
    }
}

#[test]
fn walks_inline_code() {
    let doc = parse_full("`x`");
    match &doc.blocks[0] {
        MdBlock::Paragraph(inlines) => {
            assert!(matches!(&inlines[0], Inline::Code(InlineCode { text }) if text == "x"));
        }
        other => panic!("expected paragraph, got {other:?}"),
    }
}

#[test]
fn walks_link() {
    let doc = parse_full("[lbl](http://x)");
    match &doc.blocks[0] {
        MdBlock::Paragraph(inlines) => match &inlines[0] {
            Inline::Link(link) => {
                assert_eq!(link.url, "http://x");
                assert_eq!(link.children.len(), 1);
            }
            other => panic!("expected link, got {other:?}"),
        },
        other => panic!("expected paragraph, got {other:?}"),
    }
}

#[test]
fn walks_image() {
    let doc = parse_full("![alt](url)");
    match &doc.blocks[0] {
        MdBlock::Paragraph(inlines) => match &inlines[0] {
            Inline::Image(img) => {
                assert_eq!(img.url, "url");
            }
            other => panic!("expected image, got {other:?}"),
        },
        other => panic!("expected paragraph, got {other:?}"),
    }
}

#[test]
fn walks_table_two_by_two() {
    let src = "| a | b |\n|---|---|\n| 1 | 2 |\n";
    let doc = parse_full(src);
    match &doc.blocks[0] {
        MdBlock::Table { headers, rows } => {
            assert_eq!(headers.len(), 2);
            assert_eq!(rows.len(), 1);
            assert_eq!(rows[0].len(), 2);
        }
        other => panic!("expected table, got {other:?}"),
    }
}

#[test]
fn walks_softbreak_in_paragraph() {
    let src = "line one\nline two";
    let doc = parse_full(src);
    match &doc.blocks[0] {
        MdBlock::Paragraph(inlines) => {
            assert!(inlines.iter().any(|i| matches!(i, Inline::SoftBreak)));
        }
        other => panic!("expected paragraph, got {other:?}"),
    }
}

#[test]
fn walks_html_block() {
    let src = "<div>raw</div>\n";
    let doc = parse_full(src);
    // Pulldown-cmark may emit an HtmlBlock or wrap it differently
    // depending on the input; assert we got at least one HTML
    // surface in the output.
    assert!(
        doc.blocks
            .iter()
            .any(|b| matches!(b, MdBlock::HtmlBlock(_)))
    );
}

#[test]
fn incremental_parser_default_snapshot_is_zero() {
    let p = IncrementalParser::new();
    assert_eq!(p.snapshot().stable_prefix_end, 0);
    assert!(p.snapshot().blocks.is_empty());
}

#[test]
fn incremental_parser_updates_stable_prefix_end() {
    let mut p = IncrementalParser::new();
    let _ = p.parse("hello");
    assert_eq!(p.snapshot().stable_prefix_end, 5);
}

#[test]
fn incremental_parser_appending_extends_paragraph() {
    let mut p = IncrementalParser::new();
    let doc1 = p.parse("hello");
    assert_eq!(doc1.blocks.len(), 1);
    let doc2 = p.parse("hello world");
    match &doc2.blocks[0] {
        MdBlock::Paragraph(inlines) => match &inlines[0] {
            Inline::Text(t) => assert_eq!(t, "hello world"),
            other => panic!("expected text, got {other:?}"),
        },
        other => panic!("expected paragraph, got {other:?}"),
    }
}

#[test]
fn incremental_matches_full_on_simple_growing_paragraph() {
    let full = "hello world this is a paragraph";
    let mut inc = IncrementalParser::new();
    for ch in full.chars() {
        inc.push(&ch.to_string());
    }
    assert_eq!(inc.blocks(), parse_full(full).blocks.as_slice());
}

#[test]
fn incremental_matches_full_on_growing_code_block() {
    let stages = ["# Title\n", "```rust\n", "fn main() {\n", "}\n", "```\n"];
    let mut inc = IncrementalParser::new();
    let mut acc = String::new();
    for s in stages {
        inc.push(s);
        acc.push_str(s);
        assert_eq!(
            inc.blocks(),
            parse_full(&acc).blocks.as_slice(),
            "drift after pushing {s:?}",
        );
    }
}

#[test]
fn incremental_matches_full_on_setext_heading_promotion() {
    // a paragraph that becomes an h1 when "===" arrives
    let stages = ["Hello\n", "=====\n"];
    let mut inc = IncrementalParser::new();
    let mut acc = String::new();
    for s in stages {
        inc.push(s);
        acc.push_str(s);
        assert_eq!(inc.blocks(), parse_full(&acc).blocks.as_slice());
    }
}

#[test]
fn incremental_matches_full_on_thematic_break_and_list() {
    let full = "para1\n\n---\n\n* a\n* b\n* c\n";
    for cut in 1..full.len() {
        // Skip cuts that fall inside a multi-byte UTF-8 sequence (none
        // in this fixture, but be explicit so a future ASCII change is
        // safe).
        if !full.is_char_boundary(cut) {
            continue;
        }
        let mut inc = IncrementalParser::new();
        inc.push(&full[..cut]);
        inc.push(&full[cut..]);
        assert_eq!(
            inc.blocks(),
            parse_full(full).blocks.as_slice(),
            "drift with cut at byte {cut}",
        );
    }
}

#[test]
fn stable_block_count_grows_monotonically() {
    let stages = ["one\n\n", "two\n\n", "three"];
    let mut inc = IncrementalParser::new();
    let mut prev = 0usize;
    for s in stages {
        inc.push(s);
        assert!(
            inc.stable_block_count() >= prev,
            "stable count regressed: {prev} -> {} after {s:?}",
            inc.stable_block_count(),
        );
        prev = inc.stable_block_count();
    }
}

#[test]
fn raw_source_is_concatenation_of_pushes() {
    let mut inc = IncrementalParser::new();
    inc.push("hello ");
    inc.push("world");
    assert_eq!(inc.raw_source(), "hello world");
}

#[test]
fn empty_push_is_noop() {
    let mut inc = IncrementalParser::new();
    inc.push("hello");
    let before = inc.blocks().to_vec();
    inc.push("");
    assert_eq!(inc.blocks(), before.as_slice());
    assert_eq!(inc.raw_source(), "hello");
}

#[test]
fn fingerprints_are_hashes_of_block_bytes() {
    let mut inc = IncrementalParser::new();
    inc.push("hello");
    assert_eq!(inc.block_fingerprints(), vec![xxhash_rust::xxh3::xxh3_64(b"hello")]);
    inc.push("\n\n---\n");
    let prints = inc.block_fingerprints();
    assert_eq!(prints.len(), 2);
    assert_ne!(prints[0], prints[1]);
}

fn entry(start: usize, end: usize, is_open: bool) -> BlockCacheEntry {
    BlockCacheEntry {
        byte_range: start..end,
        block: MdBlock::ThematicBreak,
        fingerprint: 0,
        is_open,
    }
}

#[test]
fn block_cache_cuts_and_truncates() {
    let empty = BlockCache::new();
    assert_eq!(empty.cut_byte(), 0);
    assert_eq!(empty.parsed_up_to, 0);
    let mut cache =
        BlockCache::from_entries(vec![entry(0, 4, false), entry(4, 9, false), entry(9, 12, true)]);
    assert_eq!(cache.cut_byte(), 9);
    assert_eq!(cache.parsed_up_to, 9);
    assert_eq!(cache.stable_count(), 2);
    assert_eq!(cache.blocks_view().len(), 3);
    cache.truncate_at_byte(8);
    assert_eq!(cache.entries.len(), 1);
    assert_eq!(cache.entries[0].byte_range, 0..4);
    assert_eq!(cache.parsed_up_to, 4);
}

#[test]
fn heading_levels_and_language_tags_are_valid() {
    let doc = parse_full("###### six\n\n```\nplain\n```\n\n```rust\nx\n```\n");
    let mut tags = Vec::new();
    for block in &doc.blocks {
        match block {
            MdBlock::Heading { level, .. } => assert_eq!(*level, 6),
            MdBlock::CodeBlock { lang, .. } => tags.push(lang.clone()),
            other => panic!("unexpected block {other:?}"),
        }
    }
    assert_eq!(tags, vec![None, Some("rust".to_string())]);
}

#[test]
fn empty_image_alt_and_nested_inlines_are_kept() {
    let doc = parse_full("***x*** ![](y)");
    assert_eq!(
        doc.blocks,
        vec![MdBlock::Paragraph(vec![
            Inline::Emphasis(vec![Inline::Strong(vec![Inline::Text("x".into())])]),
            Inline::Text(" ".into()),
            Inline::Image(InlineImage { url: "y".into(), title: String::new(), alt: vec![] }),
        ])]
    );
}

#[test]
fn parse_replaces_the_source() {
    let mut inc = IncrementalParser::new();
    inc.push("a\n\nb");
    assert_eq!(inc.stable_block_count(), 1);
    let doc = inc.parse("c");
    assert_eq!(doc, parse_full("c"));
    assert_eq!(inc.raw_source(), "c");
    assert_eq!(inc.blocks(), doc.blocks.as_slice());
    assert_eq!(inc.stable_block_count(), 0);
}

fn row_widths(blocks: &[MdBlock]) -> (usize, Vec<usize>) {
    match &blocks[0] {
        MdBlock::Table { headers, rows } => (headers.len(), rows.iter().map(Vec::len).collect()),
        other => panic!("expected table, got {other:?}"),
    }
}

#[test]
fn table_rows_are_as_wide_as_the_head() {
    let doc = parse_full("| a | b |\n|---|---|\n| 1 |\n| 1 | 2 | 3 |\n| x | y |\n");
    assert_eq!(row_widths(&doc.blocks), (2, vec![2, 2, 2]));

    let cell = |text: &str| {
        vec![
            MdEvent::Start(MdTag::TableCell),
            MdEvent::Text(text.into()),
            MdEvent::End(MdTagEnd::TableCell),
        ]
    };
    let mut events = vec![MdEvent::Start(MdTag::Table), MdEvent::Start(MdTag::TableHead)];
    events.extend(cell("a"));
    events.extend(cell("b"));
    events.push(MdEvent::End(MdTagEnd::TableHead));
    for row in [vec!["1"], vec!["1", "2", "3"], vec![]] {
        events.push(MdEvent::Start(MdTag::TableRow));
        for text in row {
            events.extend(cell(text));
        }
        events.push(MdEvent::End(MdTagEnd::TableRow));
    }
    events.push(MdEvent::End(MdTagEnd::Table));
    let spanned: Vec<SpannedEvent> =
        events.into_iter().map(|event| SpannedEvent { event, start: 0, end: 0 }).collect();
    let blocks = walk_events(&spanned);
    assert_eq!(row_widths(&blocks), (2, vec![2, 2, 2]));
    match &blocks[0] {
        MdBlock::Table { rows, .. } => {
            assert_eq!(rows[0], vec![vec![Inline::Text("1".into())], vec![]]);
            assert_eq!(rows[1][1], vec![Inline::Text("2".into())]);
        }
        other => panic!("expected table, got {other:?}"),
    }
}
