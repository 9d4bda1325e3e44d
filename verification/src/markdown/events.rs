//! Markdown events as plain values.
//!
//! `pulldown_cmark` yields a preorder stream of start, end and leaf events.
//! The types here hold what the walkers read of that stream, and nothing
//! borrowed from it.
use pulldown_cmark::{CodeBlockKind, CowStr, Event, HeadingLevel, Options, Parser, Tag, TagEnd};
use vstd::prelude::*;

verus! {

/// `pulldown_cmark::HeadingLevel`.
#[verifier::external_type_specification]
pub struct ExHeadingLevel(pulldown_cmark::HeadingLevel);

/// `pulldown_cmark::MetadataBlockKind`.
#[verifier::external_type_specification]
pub struct ExMetadataBlockKind(pulldown_cmark::MetadataBlockKind);

/// `pulldown_cmark::Alignment`.
#[verifier::external_type_specification]
pub struct ExAlignment(pulldown_cmark::Alignment);

/// `pulldown_cmark::LinkType`.
#[verifier::external_type_specification]
pub struct ExLinkType(pulldown_cmark::LinkType);

/// `pulldown_cmark::CodeBlockKind`.
#[verifier::external_type_specification]
pub struct ExCodeBlockKind<'a>(pulldown_cmark::CodeBlockKind<'a>);

/// `pulldown_cmark::CowStr`, a string of the event stream. Opaque: its
/// characters are named by [`cow_text`].
#[verifier::external_type_specification]
#[verifier::external_body]
pub struct ExCowStr<'a>(pulldown_cmark::CowStr<'a>);

/// `pulldown_cmark::TagEnd`.
#[verifier::external_type_specification]
pub struct ExTagEnd(pulldown_cmark::TagEnd);

/// `pulldown_cmark::Tag`.
#[verifier::external_type_specification]
pub struct ExTag<'a>(pulldown_cmark::Tag<'a>);

/// `pulldown_cmark::Event`.
#[verifier::external_type_specification]
pub struct ExEvent<'a>(pulldown_cmark::Event<'a>);

/// An element that contains other events.
#[derive(Debug, PartialEq, Eq)]
pub enum MdTag {
    Paragraph,
    Heading { level: u8 },
    BlockQuote,
    /// `info` is `None` for an indented block and the info string, which may
    /// be empty, for a fenced one.
    CodeBlock { info: Option<String> },
    HtmlBlock,
    List { ordered: bool },
    Item,
    FootnoteDefinition,
    Table,
    TableHead,
    TableRow,
    TableCell,
    Emphasis,
    Strong,
    Strikethrough,
    Link { url: String, title: String },
    Image { url: String, title: String },
    MetadataBlock,
}

/// The end of an element.
#[derive(Debug, Clone, Copy, PartialEq, Eq, Structural)]
pub enum MdTagEnd {
    Paragraph,
    Heading { level: u8 },
    BlockQuote,
    CodeBlock,
    HtmlBlock,
    List { ordered: bool },
    Item,
    FootnoteDefinition,
    Table,
    TableHead,
    TableRow,
    TableCell,
    Emphasis,
    Strong,
    Strikethrough,
    Link,
    Image,
    MetadataBlock,
}

/// One event of the stream.
#[derive(Debug, PartialEq, Eq)]
pub enum MdEvent {
    Start(MdTag),
    End(MdTagEnd),
    Text(String),
    Code(String),
    Html(String),
    InlineHtml(String),
    FootnoteReference(String),
    SoftBreak,
    HardBreak,
    Rule,
    TaskListMarker(bool),
}

/// An event with the byte range of the source it stands for. For a start
/// event the range covers the whole element.
#[derive(Debug, PartialEq, Eq)]
pub struct SpannedEvent {
    pub event: MdEvent,
    pub start: usize,
    pub end: usize,
}

/// The mathematical content of an [`MdTag`].
pub enum TagView {
    Paragraph,
    Heading { level: u8 },
    BlockQuote,
    CodeBlock { info: Option<Seq<char>> },
    HtmlBlock,
    List { ordered: bool },
    Item,
    FootnoteDefinition,
    Table,
    TableHead,
    TableRow,
    TableCell,
    Emphasis,
    Strong,
    Strikethrough,
    Link { url: Seq<char>, title: Seq<char> },
    Image { url: Seq<char>, title: Seq<char> },
    MetadataBlock,
}

/// The mathematical content of an [`MdEvent`].
pub enum EventView {
    Start(TagView),
    End(MdTagEnd),
    Text(Seq<char>),
    Code(Seq<char>),
    Html(Seq<char>),
    InlineHtml(Seq<char>),
    FootnoteReference(Seq<char>),
    SoftBreak,
    HardBreak,
    Rule,
    TaskListMarker(bool),
}

impl View for MdTag {
    type V = TagView;

    open spec fn view(&self) -> TagView {
        match *self {
            MdTag::Paragraph => TagView::Paragraph,
            MdTag::Heading { level } => TagView::Heading { level },
            MdTag::BlockQuote => TagView::BlockQuote,
            MdTag::CodeBlock { info } => TagView::CodeBlock {
                info: match info {
                    Some(s) => Some(s@),
                    None => None,
                },
            },
            MdTag::HtmlBlock => TagView::HtmlBlock,
            MdTag::List { ordered } => TagView::List { ordered },
            MdTag::Item => TagView::Item,
            MdTag::FootnoteDefinition => TagView::FootnoteDefinition,
            MdTag::Table => TagView::Table,
            MdTag::TableHead => TagView::TableHead,
            MdTag::TableRow => TagView::TableRow,
            MdTag::TableCell => TagView::TableCell,
            MdTag::Emphasis => TagView::Emphasis,
            MdTag::Strong => TagView::Strong,
            MdTag::Strikethrough => TagView::Strikethrough,
            MdTag::Link { url, title } => TagView::Link { url: url@, title: title@ },
            MdTag::Image { url, title } => TagView::Image { url: url@, title: title@ },
            MdTag::MetadataBlock => TagView::MetadataBlock,
        }
    }
}

impl View for MdEvent {
    type V = EventView;

    open spec fn view(&self) -> EventView {
        match *self {
            MdEvent::Start(tag) => EventView::Start(tag@),
            MdEvent::End(end) => EventView::End(end),
            MdEvent::Text(s) => EventView::Text(s@),
            MdEvent::Code(s) => EventView::Code(s@),
            MdEvent::Html(s) => EventView::Html(s@),
            MdEvent::InlineHtml(s) => EventView::InlineHtml(s@),
            MdEvent::FootnoteReference(s) => EventView::FootnoteReference(s@),
            MdEvent::SoftBreak => EventView::SoftBreak,
            MdEvent::HardBreak => EventView::HardBreak,
            MdEvent::Rule => EventView::Rule,
            MdEvent::TaskListMarker(b) => EventView::TaskListMarker(b),
        }
    }
}

/// An event's view with its byte range.
pub struct SpannedView {
    pub event: EventView,
    pub start: usize,
    pub end: usize,
}

impl View for SpannedEvent {
    type V = SpannedView;

    open spec fn view(&self) -> SpannedView {
        SpannedView { event: self.event@, start: self.start, end: self.end }
    }
}

/// The views of a stream of events with their ranges.
pub open spec fn spanned_views(s: Seq<SpannedEvent>) -> Seq<SpannedView> {
    Seq::new(s.len(), |i: int| s[i]@)
}

/// The events of a stream without their ranges.
pub open spec fn stream_events(s: Seq<SpannedView>) -> Seq<EventView> {
    Seq::new(s.len(), |i: int| s[i].event)
}

/// The views of a stream of events without their ranges.
pub open spec fn event_views(s: Seq<SpannedEvent>) -> Seq<EventView> {
    stream_events(spanned_views(s))
}

/// The characters that a `pulldown_cmark::CowStr` holds.
pub uninterp spec fn cow_text(s: CowStr<'_>) -> Seq<char>;

/// Wraps `pulldown_cmark::CowStr::into_string`: the owned string has the
/// characters of the given one.
#[verifier::external_body]
fn cow_string(s: CowStr<'_>) -> (r: String)
    ensures
        r@ == cow_text(s),
{
    s.into_string()
}

/// The number of a heading level, `1..=6`.
pub open spec fn level_number(level: HeadingLevel) -> u8 {
    match level {
        HeadingLevel::H1 => 1,
        HeadingLevel::H2 => 2,
        HeadingLevel::H3 => 3,
        HeadingLevel::H4 => 4,
        HeadingLevel::H5 => 5,
        HeadingLevel::H6 => 6,
    }
}

/// The number of a heading level, `1..=6`.
pub fn heading_level_to_u8(level: HeadingLevel) -> (r: u8)
    ensures
        r == level_number(level),
        1 <= r <= 6,
{
    match level {
        HeadingLevel::H1 => 1,
        HeadingLevel::H2 => 2,
        HeadingLevel::H3 => 3,
        HeadingLevel::H4 => 4,
        HeadingLevel::H5 => 5,
        HeadingLevel::H6 => 6,
    }
}

/// What the walkers read of a start tag.
pub open spec fn tag_of(tag: Tag<'_>) -> TagView {
    match tag {
        Tag::Paragraph => TagView::Paragraph,
        Tag::Heading { level, .. } => TagView::Heading { level: level_number(level) },
        Tag::BlockQuote => TagView::BlockQuote,
        Tag::CodeBlock(kind) => TagView::CodeBlock {
            info: match kind {
                CodeBlockKind::Indented => None,
                CodeBlockKind::Fenced(info) => Some(cow_text(info)),
            },
        },
        Tag::HtmlBlock => TagView::HtmlBlock,
        Tag::List(number) => TagView::List { ordered: number is Some },
        Tag::Item => TagView::Item,
        Tag::FootnoteDefinition(_) => TagView::FootnoteDefinition,
        Tag::Table(_) => TagView::Table,
        Tag::TableHead => TagView::TableHead,
        Tag::TableRow => TagView::TableRow,
        Tag::TableCell => TagView::TableCell,
        Tag::Emphasis => TagView::Emphasis,
        Tag::Strong => TagView::Strong,
        Tag::Strikethrough => TagView::Strikethrough,
        Tag::Link { dest_url, title, .. } => TagView::Link {
            url: cow_text(dest_url),
            title: cow_text(title),
        },
        Tag::Image { dest_url, title, .. } => TagView::Image {
            url: cow_text(dest_url),
            title: cow_text(title),
        },
        Tag::MetadataBlock(_) => TagView::MetadataBlock,
    }
}

/// What the walkers read of an end tag.
pub open spec fn end_of(end: TagEnd) -> MdTagEnd {
    match end {
        TagEnd::Paragraph => MdTagEnd::Paragraph,
        TagEnd::Heading(level) => MdTagEnd::Heading { level: level_number(level) },
        TagEnd::BlockQuote => MdTagEnd::BlockQuote,
        TagEnd::CodeBlock => MdTagEnd::CodeBlock,
        TagEnd::HtmlBlock => MdTagEnd::HtmlBlock,
        TagEnd::List(ordered) => MdTagEnd::List { ordered },
        TagEnd::Item => MdTagEnd::Item,
        TagEnd::FootnoteDefinition => MdTagEnd::FootnoteDefinition,
        TagEnd::Table => MdTagEnd::Table,
        TagEnd::TableHead => MdTagEnd::TableHead,
        TagEnd::TableRow => MdTagEnd::TableRow,
        TagEnd::TableCell => MdTagEnd::TableCell,
        TagEnd::Emphasis => MdTagEnd::Emphasis,
        TagEnd::Strong => MdTagEnd::Strong,
        TagEnd::Strikethrough => MdTagEnd::Strikethrough,
        TagEnd::Link => MdTagEnd::Link,
        TagEnd::Image => MdTagEnd::Image,
        TagEnd::MetadataBlock(_) => MdTagEnd::MetadataBlock,
    }
}

/// What the walkers read of an event.
pub open spec fn event_of(event: Event<'_>) -> EventView {
    match event {
        Event::Start(tag) => EventView::Start(tag_of(tag)),
        Event::End(end) => EventView::End(end_of(end)),
        Event::Text(s) => EventView::Text(cow_text(s)),
        Event::Code(s) => EventView::Code(cow_text(s)),
        Event::Html(s) => EventView::Html(cow_text(s)),
        Event::InlineHtml(s) => EventView::InlineHtml(cow_text(s)),
        Event::FootnoteReference(s) => EventView::FootnoteReference(cow_text(s)),
        Event::SoftBreak => EventView::SoftBreak,
        Event::HardBreak => EventView::HardBreak,
        Event::Rule => EventView::Rule,
        Event::TaskListMarker(b) => EventView::TaskListMarker(b),
    }
}

/// Takes a start tag out of the stream.
fn convert_tag(tag: Tag<'_>) -> (r: MdTag)
    ensures
        r@ == tag_of(tag),
{
    match tag {
        Tag::Paragraph => MdTag::Paragraph,
        Tag::Heading { level, .. } => MdTag::Heading { level: heading_level_to_u8(level) },
        Tag::BlockQuote => MdTag::BlockQuote,
        Tag::CodeBlock(kind) => {
            let info = match kind {
                CodeBlockKind::Indented => None,
                CodeBlockKind::Fenced(info) => Some(cow_string(info)),
            };
            MdTag::CodeBlock { info }
        },
        Tag::HtmlBlock => MdTag::HtmlBlock,
        Tag::List(number) => MdTag::List { ordered: number.is_some() },
        Tag::Item => MdTag::Item,
        Tag::FootnoteDefinition(_) => MdTag::FootnoteDefinition,
        Tag::Table(_) => MdTag::Table,
        Tag::TableHead => MdTag::TableHead,
        Tag::TableRow => MdTag::TableRow,
        Tag::TableCell => MdTag::TableCell,
        Tag::Emphasis => MdTag::Emphasis,
        Tag::Strong => MdTag::Strong,
        Tag::Strikethrough => MdTag::Strikethrough,
        Tag::Link { dest_url, title, .. } => MdTag::Link {
            url: cow_string(dest_url),
            title: cow_string(title),
        },
        Tag::Image { dest_url, title, .. } => MdTag::Image {
            url: cow_string(dest_url),
            title: cow_string(title),
        },
        Tag::MetadataBlock(_) => MdTag::MetadataBlock,
    }
}

/// Takes an end tag out of the stream.
fn convert_end(end: TagEnd) -> (r: MdTagEnd)
    ensures
        r == end_of(end),
{
    match end {
        TagEnd::Paragraph => MdTagEnd::Paragraph,
        TagEnd::Heading(level) => MdTagEnd::Heading { level: heading_level_to_u8(level) },
        TagEnd::BlockQuote => MdTagEnd::BlockQuote,
        TagEnd::CodeBlock => MdTagEnd::CodeBlock,
        TagEnd::HtmlBlock => MdTagEnd::HtmlBlock,
        TagEnd::List(ordered) => MdTagEnd::List { ordered },
        TagEnd::Item => MdTagEnd::Item,
        TagEnd::FootnoteDefinition => MdTagEnd::FootnoteDefinition,
        TagEnd::Table => MdTagEnd::Table,
        TagEnd::TableHead => MdTagEnd::TableHead,
        TagEnd::TableRow => MdTagEnd::TableRow,
        TagEnd::TableCell => MdTagEnd::TableCell,
        TagEnd::Emphasis => MdTagEnd::Emphasis,
        TagEnd::Strong => MdTagEnd::Strong,
        TagEnd::Strikethrough => MdTagEnd::Strikethrough,
        TagEnd::Link => MdTagEnd::Link,
        TagEnd::Image => MdTagEnd::Image,
        TagEnd::MetadataBlock(_) => MdTagEnd::MetadataBlock,
    }
}

/// Whether a heading tag, where the event is one, has a level in `1..=6`.
pub open spec fn level_in_range(event: EventView) -> bool {
    match event {
        EventView::Start(TagView::Heading { level }) => 1 <= level <= 6,
        _ => true,
    }
}

/// Takes an event with its byte range out of the stream.
pub fn convert_event(event: Event<'_>, start: usize, end: usize) -> (r: SpannedEvent)
    ensures
        r@ == (SpannedView { event: event_of(event), start, end }),
        level_in_range(r@.event),
{
    let plain = match event {
        Event::Start(tag) => MdEvent::Start(convert_tag(tag)),
        Event::End(tag_end) => MdEvent::End(convert_end(tag_end)),
        Event::Text(s) => MdEvent::Text(cow_string(s)),
        Event::Code(s) => MdEvent::Code(cow_string(s)),
        Event::Html(s) => MdEvent::Html(cow_string(s)),
        Event::InlineHtml(s) => MdEvent::InlineHtml(cow_string(s)),
        Event::FootnoteReference(s) => MdEvent::FootnoteReference(cow_string(s)),
        Event::SoftBreak => MdEvent::SoftBreak,
        Event::HardBreak => MdEvent::HardBreak,
        Event::Rule => MdEvent::Rule,
        Event::TaskListMarker(b) => MdEvent::TaskListMarker(b),
    };
    SpannedEvent { event: plain, start, end }
}

/// The events, with their byte ranges, that `pulldown_cmark` reads out of a
/// source under the given extensions.
pub uninterp spec fn cmark_events(
    src: Seq<char>,
    strikethrough: bool,
    tables: bool,
    tasklists: bool,
) -> Seq<SpannedView>;

/// Wraps `pulldown_cmark::Parser::new_ext(..).into_offset_iter()`: the stream
/// of events is a function of the source and of the three extension flags.
/// The empty source has no events, and every event comes out of
/// [`convert_event`], so heading levels are in range.
#[verifier::external_body]
fn offset_events(src: &str, strikethrough: bool, tables: bool, tasklists: bool) -> (r: Vec<
    SpannedEvent,
>)
    ensures
        spanned_views(r@) == cmark_events(src@, strikethrough, tables, tasklists),
        src@.len() == 0 ==> r@.len() == 0,
        forall|i: int| 0 <= i < r@.len() ==> level_in_range((#[trigger] r@[i]).event@),
{
    let mut options = Options::empty();
    options.set(Options::ENABLE_STRIKETHROUGH, strikethrough);
    options.set(Options::ENABLE_TABLES, tables);
    options.set(Options::ENABLE_TASKLISTS, tasklists);
    Parser::new_ext(src, options)
        .into_offset_iter()
        .map(|(event, range)| convert_event(event, range.start, range.end))
        .collect()
}

/// The event stream of a source: strikethrough, tables and task lists are
/// enabled.
pub open spec fn markdown_stream(src: Seq<char>) -> Seq<SpannedView> {
    cmark_events(src, true, true, true)
}

/// Reads the event stream of `src` with strikethrough, tables and task lists
/// enabled.
pub fn markdown_events(src: &str) -> (r: Vec<SpannedEvent>)
    ensures
        spanned_views(r@) == markdown_stream(src@),
        src@.len() == 0 ==> r@.len() == 0,
        forall|i: int| 0 <= i < r@.len() ==> level_in_range((#[trigger] r@[i]).event@),
{
    offset_events(src, true, true, true)
}

/// Each leaf event is read as the event of its own kind, with its own text.
pub proof fn law_leaf_events(s: CowStr<'_>, done: bool)
    ensures
        event_of(Event::Text(s)) == EventView::Text(cow_text(s)),
        event_of(Event::Code(s)) == EventView::Code(cow_text(s)),
        event_of(Event::Html(s)) == EventView::Html(cow_text(s)),
        event_of(Event::InlineHtml(s)) == EventView::InlineHtml(cow_text(s)),
        event_of(Event::FootnoteReference(s)) == EventView::FootnoteReference(cow_text(s)),
        event_of(Event::SoftBreak) == EventView::SoftBreak,
        event_of(Event::HardBreak) == EventView::HardBreak,
        event_of(Event::Rule) == EventView::Rule,
        event_of(Event::TaskListMarker(done)) == EventView::TaskListMarker(done),
{
}

/// Each tag is read as the tag of its own kind; a list is ordered where it has
/// a first number, and a code block has its info string where it is fenced.
pub proof fn law_tags(tag: Tag<'_>, first: u64, info: CowStr<'_>)
    ensures
        tag_of(Tag::List(Some(first))) == (TagView::List { ordered: true }),
        tag_of(Tag::List(None)) == (TagView::List { ordered: false }),
        tag_of(Tag::CodeBlock(CodeBlockKind::Fenced(info))) == (TagView::CodeBlock {
            info: Some(cow_text(info)),
        }),
        tag_of(Tag::CodeBlock(CodeBlockKind::Indented)) == (TagView::CodeBlock { info: None }),
        tag is Paragraph <==> tag_of(tag) is Paragraph,
        tag is Heading <==> tag_of(tag) is Heading,
        tag is BlockQuote <==> tag_of(tag) is BlockQuote,
        tag is CodeBlock <==> tag_of(tag) is CodeBlock,
        tag is HtmlBlock <==> tag_of(tag) is HtmlBlock,
        tag is List <==> tag_of(tag) is List,
        tag is Item <==> tag_of(tag) is Item,
        tag is FootnoteDefinition <==> tag_of(tag) is FootnoteDefinition,
        tag is Table <==> tag_of(tag) is Table,
        tag is TableHead <==> tag_of(tag) is TableHead,
        tag is TableRow <==> tag_of(tag) is TableRow,
        tag is TableCell <==> tag_of(tag) is TableCell,
        tag is Emphasis <==> tag_of(tag) is Emphasis,
        tag is Strong <==> tag_of(tag) is Strong,
        tag is Strikethrough <==> tag_of(tag) is Strikethrough,
        tag is Link <==> tag_of(tag) is Link,
        tag is Image <==> tag_of(tag) is Image,
        tag is MetadataBlock <==> tag_of(tag) is MetadataBlock,
        tag matches Tag::Link { dest_url, title, .. } ==> tag_of(tag) == (TagView::Link {
            url: cow_text(dest_url),
            title: cow_text(title),
        }),
        tag matches Tag::Image { dest_url, title, .. } ==> tag_of(tag) == (TagView::Image {
            url: cow_text(dest_url),
            title: cow_text(title),
        }),
{
}

/// Each end is read as the end of its own kind, and the levels of headings
/// count from one to six.
pub proof fn law_ends(end: TagEnd, ordered: bool)
    ensures
        end_of(TagEnd::List(ordered)) == (MdTagEnd::List { ordered }),
        end_of(TagEnd::Heading(HeadingLevel::H1)) == (MdTagEnd::Heading { level: 1 }),
        end_of(TagEnd::Heading(HeadingLevel::H2)) == (MdTagEnd::Heading { level: 2 }),
        end_of(TagEnd::Heading(HeadingLevel::H3)) == (MdTagEnd::Heading { level: 3 }),
        end_of(TagEnd::Heading(HeadingLevel::H4)) == (MdTagEnd::Heading { level: 4 }),
        end_of(TagEnd::Heading(HeadingLevel::H5)) == (MdTagEnd::Heading { level: 5 }),
        end_of(TagEnd::Heading(HeadingLevel::H6)) == (MdTagEnd::Heading { level: 6 }),
        end is Paragraph <==> end_of(end) is Paragraph,
        end is Heading <==> end_of(end) is Heading,
        end is BlockQuote <==> end_of(end) is BlockQuote,
        end is CodeBlock <==> end_of(end) is CodeBlock,
        end is HtmlBlock <==> end_of(end) is HtmlBlock,
        end is List <==> end_of(end) is List,
        end is Item <==> end_of(end) is Item,
        end is FootnoteDefinition <==> end_of(end) is FootnoteDefinition,
        end is Table <==> end_of(end) is Table,
        end is TableHead <==> end_of(end) is TableHead,
        end is TableRow <==> end_of(end) is TableRow,
        end is TableCell <==> end_of(end) is TableCell,
        end is Emphasis <==> end_of(end) is Emphasis,
        end is Strong <==> end_of(end) is Strong,
        end is Strikethrough <==> end_of(end) is Strikethrough,
        end is Link <==> end_of(end) is Link,
        end is Image <==> end_of(end) is Image,
        end is MetadataBlock <==> end_of(end) is MetadataBlock,
{
}

/// The numbers of the levels of headings.
pub proof fn law_heading_numbers(tag: Tag<'_>)
    ensures
        level_number(HeadingLevel::H1) == 1,
        level_number(HeadingLevel::H2) == 2,
        level_number(HeadingLevel::H3) == 3,
        level_number(HeadingLevel::H4) == 4,
        level_number(HeadingLevel::H5) == 5,
        level_number(HeadingLevel::H6) == 6,
        tag matches Tag::Heading { level, .. } ==> tag_of(tag) == (TagView::Heading {
            level: level_number(level),
        }),
{
}

/// An event of the library stands for the event of its own kind, with its own
/// text, and keeps its range.
pub proof fn law_event_views(e: SpannedEvent, s: String, tag: MdTag, end: MdTagEnd, flag: bool)
    ensures
        e@.start == e.start && e@.end == e.end && e@.event == e.event@,
        MdEvent::Start(tag)@ == EventView::Start(tag@),
        MdEvent::End(end)@ == EventView::End(end),
        MdEvent::Text(s)@ == EventView::Text(s@),
        MdEvent::Code(s)@ == EventView::Code(s@),
        MdEvent::Html(s)@ == EventView::Html(s@),
        MdEvent::InlineHtml(s)@ == EventView::InlineHtml(s@),
        MdEvent::FootnoteReference(s)@ == EventView::FootnoteReference(s@),
        MdEvent::SoftBreak@ == EventView::SoftBreak,
        MdEvent::HardBreak@ == EventView::HardBreak,
        MdEvent::Rule@ == EventView::Rule,
        MdEvent::TaskListMarker(flag)@ == EventView::TaskListMarker(flag),
        (MdTag::CodeBlock { info: Some(s) })@ == (TagView::CodeBlock { info: Some(s@) }),
        (MdTag::CodeBlock { info: None })@ == (TagView::CodeBlock { info: None }),
        (MdTag::List { ordered: flag })@ == (TagView::List { ordered: flag }),
        tag matches MdTag::Link { url, title } ==> tag@ == (TagView::Link {
            url: url@,
            title: title@,
        }),
        tag matches MdTag::Image { url, title } ==> tag@ == (TagView::Image {
            url: url@,
            title: title@,
        }),
        tag matches MdTag::Heading { level } ==> tag@ == (TagView::Heading { level }),
        tag is Paragraph <==> tag@ is Paragraph,
        tag is BlockQuote <==> tag@ is BlockQuote,
        tag is HtmlBlock <==> tag@ is HtmlBlock,
        tag is Item <==> tag@ is Item,
        tag is Table <==> tag@ is Table,
        tag is TableHead <==> tag@ is TableHead,
        tag is TableRow <==> tag@ is TableRow,
        tag is TableCell <==> tag@ is TableCell,
        tag is Emphasis <==> tag@ is Emphasis,
        tag is Strong <==> tag@ is Strong,
        tag is Strikethrough <==> tag@ is Strikethrough,
        tag is FootnoteDefinition <==> tag@ is FootnoteDefinition,
        tag is MetadataBlock <==> tag@ is MetadataBlock,
{
}

} // verus!
