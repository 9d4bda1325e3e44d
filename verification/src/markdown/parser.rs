//! Markdown parser frontends: a one-shot parse and a streaming one.
use crate::markdown::ast::{block_models, clone_blocks, BlockView, MdBlock, MdDocument};
use crate::markdown::events::{
    event_views, markdown_events, markdown_stream, spanned_views, stream_events, SpannedEvent,
    SpannedView,
};
use crate::markdown::incremental::{
    closed_count, entry_views, fingerprint, max_closed_end, xxh3, BlockCache, BlockCacheEntry,
    EntryView,
};
use crate::markdown::forest::{
    blocks_of_node, fits_blocks, is_modelled, lemma_node_of, node_events, Node,
};
use crate::markdown::walker::{
    block_step, blocks_until, document_blocks, element_blocks, past, push_block, remaining,
    walk_events,
};
use crate::markdown::unparse::{
    all_langs_valid, all_levels_valid, all_rows_valid, law_heading_levels, law_language_tags,
    law_table_rows, stands,
};
use vstd::prelude::*;
use vstd::slice::slice_subrange;
use vstd::utf8::encode_utf8;

verus! {

/// The blocks of a source.
pub open spec fn parsed(src: Seq<char>) -> Seq<BlockView> {
    document_blocks(stream_events(markdown_stream(src)))
}

/// Parses a whole source.
pub fn parse_full(src: &str) -> (r: MdDocument)
    ensures
        r@ == parsed(src@),
        src@.len() == 0 ==> r.blocks@.len() == 0,
        all_levels_valid(r@),
        all_langs_valid(r@),
        all_rows_valid(r@),
{
    let events = markdown_events(src);
    let blocks = walk_events(&events);
    proof {
        law_heading_levels(event_views(events@));
        law_language_tags(event_views(events@));
        law_table_rows(event_views(events@));
    }
    assert(src@.len() == 0 ==> block_models(blocks@).len() == 0);
    MdDocument { blocks }
}

proof fn lemma_parsed_valid(src: Seq<char>)
    ensures
        all_langs_valid(parsed(src)),
        all_rows_valid(parsed(src)),
{
    let events = stream_events(markdown_stream(src));
    law_language_tags(events);
    law_table_rows(events);
}

/// A top-level block with the byte range of the event that begins it.
pub struct SpannedBlock {
    pub block: BlockView,
    pub start: usize,
    pub end: usize,
}

/// The top-level blocks of a stream from `pos` on, each with the byte range
/// of the event that begins it.
pub open spec fn top_level(sv: Seq<SpannedView>, pos: int) -> Seq<SpannedBlock>
    decreases remaining(stream_events(sv), pos),
{
    if pos < 0 || pos >= sv.len() {
        Seq::empty()
    } else {
        let (head, next) = block_step(stream_events(sv), pos);
        Seq::new(
            head.len(),
            |i: int| SpannedBlock { block: head[i], start: sv[pos].start, end: sv[pos].end },
        ) + top_level(sv, past(pos, next))
    }
}

/// `x`, but at most `bound`.
pub open spec fn capped(x: usize, bound: nat) -> usize {
    if x <= bound {
        x
    } else {
        bound as usize
    }
}

/// The bytes in a range, cut to what the string holds.
pub open spec fn bytes_in(bytes: Seq<u8>, start: usize, end: usize) -> Seq<u8> {
    let e = capped(end, bytes.len());
    bytes.subrange(capped(start, e as nat) as int, e as int)
}

/// The cache entries of the top-level blocks of a source: all but the last
/// are closed.
pub open spec fn entries_of(blocks: Seq<SpannedBlock>, bytes: Seq<u8>) -> Seq<EntryView> {
    Seq::new(
        blocks.len(),
        |i: int|
            EntryView {
                start: blocks[i].start,
                end: blocks[i].end,
                block: blocks[i].block,
                fingerprint: xxh3(bytes_in(bytes, blocks[i].start, blocks[i].end)),
                is_open: i == blocks.len() - 1,
            },
    )
}

/// The cache entries of a source.
pub open spec fn source_entries(src: Seq<char>) -> Seq<EntryView> {
    entries_of(top_level(markdown_stream(src), 0), encode_utf8(src))
}

/// What the parser keeps of the last source it parsed.
#[derive(Debug, Clone)]
pub struct ParseSnapshot {
    /// Length in bytes of the source that `blocks` stands for.
    pub stable_prefix_end: usize,
    /// Blocks of that source.
    pub blocks: Vec<MdBlock>,
}

/// Streaming markdown parser: holds the source received so far and its
/// blocks.
pub struct IncrementalParser {
    source: String,
    snapshot: ParseSnapshot,
    cache: BlockCache,
}

/// Reading the top-level blocks with their ranges reads the same blocks.
proof fn lemma_top_level_blocks(sv: Seq<SpannedView>, pos: int)
    requires
        0 <= pos,
    ensures
        top_level(sv, pos).len() == blocks_until(stream_events(sv), pos, None).0.len(),
        forall|i: int|
            0 <= i < top_level(sv, pos).len() ==> (#[trigger] top_level(sv, pos)[i]).block
                == blocks_until(stream_events(sv), pos, None).0[i],
    decreases remaining(stream_events(sv), pos),
{
    let ev = stream_events(sv);
    if pos < sv.len() {
        let (head, next) = block_step(ev, pos);
        lemma_top_level_blocks(sv, past(pos, next));
    }
}

/// An event begins at most one block.
proof fn lemma_step_len(ev: Seq<crate::markdown::events::EventView>, pos: int)
    ensures
        block_step(ev, pos).0.len() <= 1,
{
    if 0 <= pos < ev.len() && ev[pos] is Start {
        let step = element_blocks(ev, pos + 1, ev[pos]->Start_0);
        assert(step.0.len() <= 1);
    }
}

/// Builds the cache entries of an event stream over the source `bytes`.
pub fn collect_entries(events: &Vec<SpannedEvent>, bytes: &[u8]) -> (r: Vec<BlockCacheEntry>)
    ensures
        entry_views(r@) == entries_of(top_level(spanned_views(events@), 0), bytes@),
{
    let ghost sv = spanned_views(events@);
    let ghost ev = event_views(events@);
    let ghost whole = top_level(sv, 0);
    let mut out: Vec<BlockCacheEntry> = Vec::new();
    let mut at: usize = 0;
    while at < events.len()
        invariant
            at <= events.len(),
            sv == spanned_views(events@),
            ev == event_views(events@),
            whole == top_level(sv, 0),
            whole.len() == out.len() + top_level(sv, at as int).len(),
            forall|k: int|
                0 <= k < top_level(sv, at as int).len() ==> whole[out.len() + k] == (
                #[trigger] top_level(sv, at as int)[k]),
            forall|k: int|
                0 <= k < out.len() ==> (#[trigger] out@[k])@ == (EntryView {
                    is_open: false,
                    ..entries_of(whole, bytes@)[k]
                }),
        decreases events.len() - at,
    {
        let ghost here = top_level(sv, at as int);
        proof {
            lemma_step_len(ev, at as int);
            assert(sv[at as int] == events@[at as int]@);
        }
        let mut one: Vec<MdBlock> = Vec::new();
        let next = push_block(&mut one, events, at);
        let ghost head = block_step(ev, at as int).0;
        let ghost tail = top_level(sv, next as int);
        assert(block_models(one@) =~= head);
        assert(one@.len() == head.len());
        assert(here.len() == head.len() + tail.len());
        assert(forall|k: int| 0 <= k < tail.len() ==> here[head.len() + k] == #[trigger] tail[k]);
        if let Some(block) = one.pop() {
            assert(block_models(seq![block])[0] == head[0]);
            let start = events[at].start;
            let end = events[at].end;
            let end_cut: usize = if end <= bytes.len() {
                end
            } else {
                bytes.len()
            };
            let start_cut: usize = if start <= end_cut {
                start
            } else {
                end_cut
            };
            let hash = fingerprint(slice_subrange(bytes, start_cut, end_cut));
            assert(whole[out.len() + 0] == here[0]);
            out.push(
                BlockCacheEntry { byte_range: start..end, block, fingerprint: hash, is_open: false },
            );
        }
        assert forall|k: int| 0 <= k < tail.len() implies whole[out.len() + k] == (
        #[trigger] tail[k]) by {
            assert(here[head.len() + k] == tail[k]);
        }
        at = next;
    }
    assert(top_level(sv, at as int).len() == 0);
    if let Some(mut last) = out.pop() {
        last.is_open = true;
        out.push(last);
    }
    assert(entry_views(out@) =~= entries_of(whole, bytes@));
    out
}

impl ParseSnapshot {
    /// Whether the snapshot stands for `src`.
    pub open spec fn is_of(&self, src: Seq<char>) -> bool {
        &&& self.stable_prefix_end == encode_utf8(src).len()
        &&& block_models(self.blocks@) == parsed(src)
    }
}

impl Default for ParseSnapshot {
    fn default() -> (r: Self)
        ensures
            r.stable_prefix_end == 0,
            r.blocks@.len() == 0,
    {
        ParseSnapshot { stable_prefix_end: 0, blocks: Vec::new() }
    }
}

impl IncrementalParser {
    /// The source that the parser holds.
    pub closed spec fn text(&self) -> Seq<char> {
        self.source@
    }

    /// The snapshot and the cache stand for the source.
    pub closed spec fn wf(&self) -> bool {
        &&& self.snapshot.is_of(self.source@)
        &&& all_levels_valid(parsed(self.source@))
        &&& self.cache@ == source_entries(self.source@)
        &&& self.cache.parsed_up_to == max_closed_end(self.cache@)
    }

    /// A parser that has received nothing.
    pub fn new() -> (r: Self)
        ensures
            r.wf(),
            r.text() == Seq::<char>::empty(),
            parsed(r.text()).len() == 0,
    {
        IncrementalParser::of_source(String::new())
    }

    /// A parser that has received `source`.
    fn of_source(source: String) -> (r: Self)
        ensures
            r.wf(),
            r.text() == source@,
            source@.len() == 0 ==> parsed(source@).len() == 0,
            all_levels_valid(parsed(source@)),
            all_langs_valid(parsed(source@)),
            all_rows_valid(parsed(source@)),
    {
        let events = markdown_events(source.as_str());
        let bytes = source.as_str().as_bytes();
        let entries = collect_entries(&events, bytes);
        let cache = BlockCache::from_entries(entries);
        let blocks = cache.blocks_view();
        let snapshot = ParseSnapshot { stable_prefix_end: bytes.len(), blocks };
        proof {
            let sv = spanned_views(events@);
            lemma_top_level_blocks(sv, 0);
            assert(block_models(snapshot.blocks@) =~= parsed(source@));
            lemma_parsed_valid(source@);
            law_heading_levels(event_views(events@));
            assert(source@.len() == 0 ==> event_views(events@).len() == 0);
        }
        IncrementalParser { source, snapshot, cache }
    }

    /// The snapshot of the last parse.
    pub fn snapshot(&self) -> (r: &ParseSnapshot)
        requires
            self.wf(),
        ensures
            r.is_of(self.text()),
    {
        &self.snapshot
    }

    /// Replaces the source by `src` and parses it.
    pub fn parse(&mut self, src: &str) -> (r: MdDocument)
        ensures
            r@ == parsed(src@),
            all_levels_valid(r@),
            all_langs_valid(r@),
            all_rows_valid(r@),
            final(self).wf(),
            final(self).text() == src@,
    {
        *self = IncrementalParser::of_source(src.to_owned());
        MdDocument { blocks: clone_blocks(&self.snapshot.blocks) }
    }

    /// Appends `delta` to the source and brings the blocks up to date. An
    /// empty `delta` changes nothing.
    pub fn push(&mut self, delta: &str)
        ensures
            final(self).wf(),
            final(self).text() == old(self).text() + delta@,
            delta@.len() == 0 ==> final(self).text() == old(self).text(),
            all_levels_valid(parsed(final(self).text())),
            all_langs_valid(parsed(final(self).text())),
            all_rows_valid(parsed(final(self).text())),
    {
        let mut source = String::new();
        std::mem::swap(&mut source, &mut self.source);
        source.append(delta);
        assert(delta@.len() == 0 ==> source@ =~= old(self).source@);
        *self = IncrementalParser::of_source(source);
    }

    /// The blocks of the source received so far.
    pub fn blocks(&self) -> (r: &[MdBlock])
        requires
            self.wf(),
        ensures
            block_models(r@) == parsed(self.text()),
            all_levels_valid(block_models(r@)),
            all_langs_valid(block_models(r@)),
            all_rows_valid(block_models(r@)),
    {
        proof {
            lemma_parsed_valid(self.source@);
        }
        self.snapshot.blocks.as_slice()
    }

    /// The source received so far.
    pub fn raw_source(&self) -> (r: &str)
        ensures
            r@ == self.text(),
    {
        self.source.as_str()
    }

    /// Number of blocks that are not open: all but the last.
    pub fn stable_block_count(&self) -> (r: usize)
        requires
            self.wf(),
        ensures
            r == (if parsed(self.text()).len() == 0 {
                0
            } else {
                parsed(self.text()).len() - 1
            }),
    {
        proof {
            let sv = markdown_stream(self.source@);
            lemma_top_level_blocks(sv, 0);
            lemma_all_but_last_closed(self.cache@);
        }
        self.cache.stable_count()
    }

    /// Hashes of the source bytes of each block, in order.
    pub fn block_fingerprints(&self) -> (r: Vec<u64>)
        requires
            self.wf(),
        ensures
            r@ == Seq::new(
                source_entries(self.text()).len(),
                |i: int| source_entries(self.text())[i].fingerprint,
            ),
    {
        let ghost entries = source_entries(self.source@);
        let mut out: Vec<u64> = Vec::new();
        let mut i: usize = 0;
        while i < self.cache.entries.len()
            invariant
                i <= self.cache.entries.len(),
                self.cache@ == entries,
                out.len() == i,
                forall|k: int| 0 <= k < i ==> #[trigger] out@[k] == entries[k].fingerprint,
            decreases self.cache.entries.len() - i,
        {
            assert(self.cache@[i as int] == self.cache.entries@[i as int]@);
            out.push(self.cache.entries[i].fingerprint);
            i = i + 1;
        }
        out
    }
}

impl Default for IncrementalParser {
    fn default() -> (r: Self)
        ensures
            r.wf(),
            r.text() == Seq::<char>::empty(),
    {
        IncrementalParser::new()
    }
}

/// Entries of which all but the last are closed: their number is one less.
proof fn lemma_all_but_last_closed(s: Seq<EntryView>)
    requires
        forall|i: int| 0 <= i < s.len() ==> (#[trigger] s[i]).is_open == (i == s.len() - 1),
    ensures
        closed_count(s) == (if s.len() == 0 {
            0
        } else {
            s.len() - 1
        }),
{
    if s.len() > 0 {
        lemma_all_closed(s.drop_last());
    }
}

proof fn lemma_all_closed(s: Seq<EntryView>)
    requires
        forall|i: int| 0 <= i < s.len() ==> !(#[trigger] s[i]).is_open,
    ensures
        closed_count(s) == s.len(),
    decreases s.len(),
{
    if s.len() > 0 {
        lemma_all_closed(s.drop_last());
    }
}

/// The top-level blocks of a stream are those of its first node, each with
/// the range of the event that begins the node, and then those of what stands
/// behind the node.
pub proof fn law_block_ranges(sv: Seq<SpannedView>, pos: int, node: Node, i: int)
    requires
        0 <= pos,
        fits_blocks(seq![node]),
        node matches Node::Element(tag, _) ==> is_modelled(tag),
        stands(stream_events(sv), pos, node_events(node)),
    ensures
        ({
            let here = blocks_of_node(node);
            let all = top_level(sv, pos);
            let rest = top_level(sv, pos + node_events(node).len());
            &&& all.len() == here.len() + rest.len()
            &&& 0 <= i < here.len() ==> all[i].block == here[i] && all[i].start == sv[pos].start
                && all[i].end == sv[pos].end
            &&& 0 <= i < rest.len() ==> all[here.len() + i] == rest[i]
        }),
{
    lemma_node_of(stream_events(sv), pos, node);
    assert(node_events(node).len() > 0);
}

/// The entries of a source keep the blocks, with their ranges, in order. The
/// last is open and all before it are closed. The fingerprint is the hash of
/// the bytes in the range, so it is the same where those bytes are.
pub proof fn law_entries(
    blocks: Seq<SpannedBlock>,
    bytes: Seq<u8>,
    others: Seq<SpannedBlock>,
    other: Seq<u8>,
    i: int,
    j: int,
)
    requires
        0 <= i < blocks.len(),
        blocks[i].start <= blocks[i].end <= bytes.len(),
        0 <= j < others.len(),
        others[j].start <= others[j].end <= other.len(),
    ensures
        entries_of(blocks, bytes).len() == blocks.len(),
        entries_of(blocks, bytes)[i].block == blocks[i].block,
        entries_of(blocks, bytes)[i].start == blocks[i].start,
        entries_of(blocks, bytes)[i].end == blocks[i].end,
        entries_of(blocks, bytes)[i].is_open <==> i == blocks.len() - 1,
        entries_of(blocks, bytes)[i].fingerprint == xxh3(
            bytes.subrange(blocks[i].start as int, blocks[i].end as int),
        ),
        bytes.subrange(blocks[i].start as int, blocks[i].end as int) == other.subrange(
            others[j].start as int,
            others[j].end as int,
        ) ==> entries_of(blocks, bytes)[i].fingerprint == entries_of(others, other)[j].fingerprint,
{
}

/// A range that reaches behind the source is cut to what the source holds.
pub proof fn law_range_is_cut(bytes: Seq<u8>, start: usize, end: usize)
    requires
        bytes.len() <= usize::MAX,
    ensures
        start <= end <= bytes.len() ==> bytes_in(bytes, start, end) == bytes.subrange(
            start as int,
            end as int,
        ),
        start <= bytes.len() < end ==> bytes_in(bytes, start, end) == bytes.skip(start as int),
        start >= bytes.len() || start >= end ==> bytes_in(bytes, start, end) == Seq::<u8>::empty(),
{
    if start >= bytes.len() || start >= end {
        assert(bytes_in(bytes, start, end).len() == 0);
        assert(bytes_in(bytes, start, end) =~= Seq::<u8>::empty());
    }
    if start <= bytes.len() < end {
        assert(bytes_in(bytes, start, end) =~= bytes.skip(start as int));
    }
}

} // verus!
