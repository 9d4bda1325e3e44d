//! Inline (span-level) markdown nodes.
//!
//! `Inline` values are the leaves of a parsed document: text runs,
//! emphasis, links, code spans, raw HTML. They describe structure, not
//! styling; a consumer walks the tree and emits its own primitives.
use vstd::prelude::*;

verus! {

/// A single inline markdown node.
#[derive(Debug, PartialEq, Eq)]
pub enum Inline {
    /// A run of plain text.
    Text(String),
    /// A newline in the source that usually renders as a space.
    SoftBreak,
    /// A forced line break.
    HardBreak,
    /// A backtick-delimited code span.
    Code(InlineCode),
    /// `*emph*` content.
    Emphasis(Vec<Inline>),
    /// `**strong**` content.
    Strong(Vec<Inline>),
    /// `~~strikethrough~~` content.
    Strikethrough(Vec<Inline>),
    /// `[label](url)` link.
    Link(InlineLink),
    /// `![alt](url)` image.
    Image(InlineImage),
    /// Raw inline HTML.
    Html(String),
}

/// A code span.
#[derive(Debug, Clone, PartialEq, Eq)]
pub struct InlineCode {
    /// Contents of the span without the surrounding backticks.
    pub text: String,
}

/// A hyperlink.
#[derive(Debug, Clone, PartialEq, Eq)]
pub struct InlineLink {
    /// Destination URL.
    pub url: String,
    /// Title attribute, often empty.
    pub title: String,
    /// The visible label.
    pub children: Vec<Inline>,
}

/// An image reference.
#[derive(Debug, Clone, PartialEq, Eq)]
pub struct InlineImage {
    /// Image URL.
    pub url: String,
    /// Title attribute, often empty.
    pub title: String,
    /// Alt text as inline content.
    pub alt: Vec<Inline>,
}

/// The mathematical content of an [`Inline`].
#[verifier::ext_equal]
pub enum InlineView {
    Text(Seq<char>),
    SoftBreak,
    HardBreak,
    Code(Seq<char>),
    Emphasis(Seq<InlineView>),
    Strong(Seq<InlineView>),
    Strikethrough(Seq<InlineView>),
    Link { url: Seq<char>, title: Seq<char>, children: Seq<InlineView> },
    Image { url: Seq<char>, title: Seq<char>, alt: Seq<InlineView> },
    Html(Seq<char>),
}

impl Inline {
    /// The content of this node with every string and list taken by its view.
    pub open spec fn model(self) -> InlineView
        decreases self,
    {
        match self {
            Inline::Text(s) => InlineView::Text(s@),
            Inline::SoftBreak => InlineView::SoftBreak,
            Inline::HardBreak => InlineView::HardBreak,
            Inline::Code(c) => InlineView::Code(c.text@),
            Inline::Emphasis(v) => InlineView::Emphasis(inline_models(v@)),
            Inline::Strong(v) => InlineView::Strong(inline_models(v@)),
            Inline::Strikethrough(v) => InlineView::Strikethrough(inline_models(v@)),
            Inline::Link(l) => InlineView::Link {
                url: l.url@,
                title: l.title@,
                children: inline_models(l.children@),
            },
            Inline::Image(m) => InlineView::Image {
                url: m.url@,
                title: m.title@,
                alt: inline_models(m.alt@),
            },
            Inline::Html(s) => InlineView::Html(s@),
        }
    }
}

/// The models of a run of nodes, in order.
pub open spec fn inline_models(s: Seq<Inline>) -> Seq<InlineView>
    decreases s,
{
    Seq::new(s.len(), |i: int| if 0 <= i < s.len() { s[i].model() } else { InlineView::SoftBreak })
}

impl View for Inline {
    type V = InlineView;

    open spec fn view(&self) -> InlineView {
        self.model()
    }
}

/// Copies a run of nodes.
pub fn clone_inlines(v: &Vec<Inline>) -> (r: Vec<Inline>)
    ensures
        inline_models(r@) == inline_models(v@),
    decreases v,
{
    let mut out: Vec<Inline> = Vec::new();
    let mut i: usize = 0;
    while i < v.len()
        invariant
            i <= v.len(),
            out.len() == i,
            forall|j: int| 0 <= j < i ==> (#[trigger] out@[j]).model() == v@[j].model(),
        decreases v.len() - i,
    {
        let c = v[i].clone();
        out.push(c);
        i += 1;
    }
    out
}

impl Clone for Inline {
    fn clone(&self) -> (r: Self)
        ensures
            r.model() == self.model(),
        decreases self,
    {
        match self {
            Inline::Text(s) => Inline::Text(s.clone()),
            Inline::SoftBreak => Inline::SoftBreak,
            Inline::HardBreak => Inline::HardBreak,
            Inline::Code(c) => Inline::Code(InlineCode { text: c.text.clone() }),
            Inline::Emphasis(v) => Inline::Emphasis(clone_inlines(v)),
            Inline::Strong(v) => Inline::Strong(clone_inlines(v)),
            Inline::Strikethrough(v) => Inline::Strikethrough(clone_inlines(v)),
            Inline::Link(l) => Inline::Link(InlineLink {
                url: l.url.clone(),
                title: l.title.clone(),
                children: clone_inlines(&l.children),
            }),
            Inline::Image(m) => Inline::Image(InlineImage {
                url: m.url.clone(),
                title: m.title.clone(),
                alt: clone_inlines(&m.alt),
            }),
            Inline::Html(s) => Inline::Html(s.clone()),
        }
    }
}

/// Each node stands for the node of its own kind, with its own text, address,
/// title and children, in order.
pub proof fn law_inline_models(
    text: String,
    code: InlineCode,
    kids: Vec<Inline>,
    link: InlineLink,
    image: InlineImage,
    i: int,
)
    requires
        0 <= i < kids@.len(),
    ensures
        Inline::Text(text)@ == InlineView::Text(text@),
        Inline::SoftBreak@ == InlineView::SoftBreak,
        Inline::HardBreak@ == InlineView::HardBreak,
        Inline::Code(code)@ == InlineView::Code(code.text@),
        Inline::Emphasis(kids)@ == InlineView::Emphasis(inline_models(kids@)),
        Inline::Strong(kids)@ == InlineView::Strong(inline_models(kids@)),
        Inline::Strikethrough(kids)@ == InlineView::Strikethrough(inline_models(kids@)),
        Inline::Link(link)@ == (InlineView::Link {
            url: link.url@,
            title: link.title@,
            children: inline_models(link.children@),
        }),
        Inline::Image(image)@ == (InlineView::Image {
            url: image.url@,
            title: image.title@,
            alt: inline_models(image.alt@),
        }),
        Inline::Html(text)@ == InlineView::Html(text@),
        inline_models(kids@).len() == kids@.len(),
        inline_models(kids@)[i] == kids@[i]@,
{
}

} // verus!
