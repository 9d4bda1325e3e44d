//! Cache of the top-level blocks of a growing source.
//!
//! Each entry keeps the byte range of its block, the block, a fingerprint of
//! the bytes and whether the block may still grow. The last top-level block
//! is always open; every earlier one is closed.
use crate::markdown::ast::{block_models, BlockView, MdBlock};
use std::ops::Range;
use vstd::prelude::*;

verus! {

/// One cached top-level block.
#[derive(Debug)]
pub struct BlockCacheEntry {
    /// Byte range of the block in the source.
    pub byte_range: Range<usize>,
    /// The parsed block.
    pub block: MdBlock,
    /// Hash of the source bytes in `byte_range`.
    pub fingerprint: u64,
    /// Whether future bytes could still change the block.
    pub is_open: bool,
}

/// The content of a [`BlockCacheEntry`].
pub struct EntryView {
    pub start: usize,
    pub end: usize,
    pub block: BlockView,
    pub fingerprint: u64,
    pub is_open: bool,
}

impl View for BlockCacheEntry {
    type V = EntryView;

    open spec fn view(&self) -> EntryView {
        EntryView {
            start: self.byte_range.start,
            end: self.byte_range.end,
            block: self.block@,
            fingerprint: self.fingerprint,
            is_open: self.is_open,
        }
    }
}

/// The cached top-level blocks.
#[derive(Debug)]
pub struct BlockCache {
    pub entries: Vec<BlockCacheEntry>,
    /// Highest byte offset covered by a closed entry.
    pub parsed_up_to: usize,
}

/// The views of a run of entries.
pub open spec fn entry_views(s: Seq<BlockCacheEntry>) -> Seq<EntryView> {
    Seq::new(s.len(), |i: int| s[i]@)
}

/// The blocks of a run of entries.
pub open spec fn entry_blocks(s: Seq<EntryView>) -> Seq<BlockView> {
    Seq::new(s.len(), |i: int| s[i].block)
}

/// The end of the last closed entry, or 0 where none is closed.
pub open spec fn last_closed_end(s: Seq<EntryView>) -> usize
    decreases s.len(),
{
    if s.len() == 0 {
        0
    } else if !s.last().is_open {
        s.last().end
    } else {
        last_closed_end(s.drop_last())
    }
}

/// The largest end of a closed entry, or 0 where none is closed.
pub open spec fn max_closed_end(s: Seq<EntryView>) -> usize
    decreases s.len(),
{
    if s.len() == 0 {
        0
    } else {
        let before = max_closed_end(s.drop_last());
        if !s.last().is_open && s.last().end > before {
            s.last().end
        } else {
            before
        }
    }
}

/// How many entries are closed.
pub open spec fn closed_count(s: Seq<EntryView>) -> nat
    decreases s.len(),
{
    if s.len() == 0 {
        0
    } else {
        closed_count(s.drop_last()) + if s.last().is_open {
            0nat
        } else {
            1nat
        }
    }
}

/// The entries that end at or before `from`, in order.
pub open spec fn ending_by(s: Seq<EntryView>, from: usize) -> Seq<EntryView>
    decreases s.len(),
{
    if s.len() == 0 {
        Seq::empty()
    } else {
        let before = ending_by(s.drop_last(), from);
        if s.last().end <= from {
            before.push(s.last())
        } else {
            before
        }
    }
}

/// The 64-bit XXH3 hash of a byte string.
pub uninterp spec fn xxh3(bytes: Seq<u8>) -> u64;

/// Wraps `xxhash_rust::xxh3::xxh3_64`: the unseeded hash is a function of the
/// bytes.
#[verifier::external_body]
pub(crate) fn fingerprint(bytes: &[u8]) -> (r: u64)
    ensures
        r == xxh3(bytes@),
{
    xxhash_rust::xxh3::xxh3_64(bytes)
}

impl BlockCache {
    /// The entries' views.
    pub open spec fn view(&self) -> Seq<EntryView> {
        entry_views(self.entries@)
    }

    /// An empty cache.
    pub fn new() -> (r: BlockCache)
        ensures
            r@ == Seq::<EntryView>::empty(),
            r.parsed_up_to == 0,
    {
        let r = BlockCache { entries: Vec::new(), parsed_up_to: 0 };
        assert(r@ =~= Seq::<EntryView>::empty());
        r
    }

    /// A cache of the given entries.
    pub fn from_entries(entries: Vec<BlockCacheEntry>) -> (r: BlockCache)
        ensures
            r@ == entry_views(entries@),
            r.parsed_up_to == max_closed_end(r@),
    {
        let ghost all = entry_views(entries@);
        let mut up_to: usize = 0;
        let mut i: usize = 0;
        assert(all.take(0) =~= Seq::<EntryView>::empty());
        while i < entries.len()
            invariant
                i <= entries.len(),
                all == entry_views(entries@),
                up_to == max_closed_end(all.take(i as int)),
            decreases entries.len() - i,
        {
            let ghost front = all.take(i + 1);
            assert(front.drop_last() =~= all.take(i as int));
            assert(front.last() == entries@[i as int]@);
            let e = &entries[i];
            if !e.is_open && e.byte_range.end > up_to {
                up_to = e.byte_range.end;
            }
            i = i + 1;
        }
        assert(all.take(i as int) =~= all);
        BlockCache { entries, parsed_up_to: up_to }
    }

    /// The byte offset where the next parse of the tail may start: the end of
    /// the last closed entry.
    pub fn cut_byte(&self) -> (r: usize)
        ensures
            r == last_closed_end(self@),
    {
        let mut i: usize = self.entries.len();
        assert(self@.take(i as int) =~= self@);
        while i > 0
            invariant
                i <= self.entries.len(),
                last_closed_end(self@.take(i as int)) == last_closed_end(self@),
            decreases i,
        {
            let ghost front = self@.take(i as int);
            assert(front.last() == self.entries@[i - 1]@);
            assert(front.drop_last() =~= self@.take(i - 1));
            if !self.entries[i - 1].is_open {
                return self.entries[i - 1].byte_range.end;
            }
            i = i - 1;
        }
        0
    }

    /// Drops every entry that ends behind `from`.
    pub fn truncate_at_byte(&mut self, from: usize)
        ensures
            final(self)@ == ending_by(old(self)@, from),
            final(self).parsed_up_to == max_closed_end(final(self)@),
    {
        let mut kept: Vec<BlockCacheEntry> = Vec::new();
        let mut entries: Vec<BlockCacheEntry> = Vec::new();
        std::mem::swap(&mut entries, &mut self.entries);
        let ghost all = entry_views(entries@);
        let mut rest: Vec<BlockCacheEntry> = Vec::new();
        // Reverse, so that popping yields the entries in order.
        while entries.len() > 0
            invariant
                entries.len() + rest.len() == all.len(),
                forall|k: int| 0 <= k < entries.len() ==> (#[trigger] entries@[k])@ == all[k],
                forall|k: int|
                    0 <= k < rest.len() ==> (#[trigger] rest@[k])@ == all[all.len() - 1 - k],
            decreases entries.len(),
        {
            if let Some(e) = entries.pop() {
                rest.push(e);
            }
        }
        let mut up_to: usize = 0;
        assert(all.take(0) =~= Seq::<EntryView>::empty());
        assert(entry_views(kept@) =~= Seq::<EntryView>::empty());
        while rest.len() > 0
            invariant
                rest.len() <= all.len(),
                forall|k: int|
                    0 <= k < rest.len() ==> (#[trigger] rest@[k])@ == all[all.len() - 1 - k],
                entry_views(kept@) == ending_by(all.take(all.len() - rest.len()), from),
                up_to == max_closed_end(entry_views(kept@)),
            decreases rest.len(),
        {
            let ghost done = all.len() - rest.len();
            let ghost before = kept@;
            let ghost front = all.take(done + 1);
            assert(front.drop_last() =~= all.take(done));
            if let Some(e) = rest.pop() {
                assert(front.last() == e@);
                if e.byte_range.end <= from {
                    let ghost views = entry_views(before).push(e@);
                    assert(views.drop_last() =~= entry_views(before));
                    if !e.is_open && e.byte_range.end > up_to {
                        up_to = e.byte_range.end;
                    }
                    kept.push(e);
                    assert(entry_views(kept@) =~= views);
                }
            }
        }
        assert(all.take(all.len() as int) =~= all);
        self.entries = kept;
        self.parsed_up_to = up_to;
    }

    /// Copies the cached blocks, in source order.
    pub fn blocks_view(&self) -> (r: Vec<MdBlock>)
        ensures
            block_models(r@) == entry_blocks(self@),
    {
        let mut out: Vec<MdBlock> = Vec::new();
        let mut i: usize = 0;
        while i < self.entries.len()
            invariant
                i <= self.entries.len(),
                out.len() == i,
                forall|k: int| 0 <= k < i ==> (#[trigger] out@[k]).model() == self@[k].block,
            decreases self.entries.len() - i,
        {
            let block = self.entries[i].block.clone();
            assert(self@[i as int] == self.entries@[i as int]@);
            out.push(block);
            i = i + 1;
        }
        assert(block_models(out@) =~= entry_blocks(self@));
        out
    }

    /// Number of closed entries.
    pub fn stable_count(&self) -> (r: usize)
        ensures
            r == closed_count(self@),
    {
        let mut count: usize = 0;
        let mut i: usize = 0;
        assert(self@.take(0) =~= Seq::<EntryView>::empty());
        while i < self.entries.len()
            invariant
                i <= self.entries.len(),
                count == closed_count(self@.take(i as int)),
                count <= i,
            decreases self.entries.len() - i,
        {
            let ghost front = self@.take(i + 1);
            assert(front.drop_last() =~= self@.take(i as int));
            assert(front.last() == self.entries@[i as int]@);
            if !self.entries[i].is_open {
                count = count + 1;
            }
            i = i + 1;
        }
        assert(self@.take(i as int) =~= self@);
        count
    }
}

/// The cut is the end of the last closed entry: what stands open behind it
/// does not matter. It is zero where nothing is closed.
pub proof fn law_last_closed_end(s: Seq<EntryView>, k: int)
    requires
        -1 <= k < s.len(),
        forall|i: int| k < i < s.len() ==> (#[trigger] s[i]).is_open,
        k >= 0 ==> !s[k].is_open,
    ensures
        k >= 0 ==> last_closed_end(s) == s[k].end,
        k < 0 ==> last_closed_end(s) == 0,
    decreases s.len(),
{
    if s.len() > 0 && k < s.len() - 1 {
        assert(s[s.len() - 1].is_open);
        let front = s.drop_last();
        assert forall|i: int| k < i < front.len() implies (#[trigger] front[i]).is_open by {
            assert(front[i] == s[i]);
        }
        law_last_closed_end(front, k);
    }
}

/// The highest end of a closed entry is at or behind the end of each closed
/// entry, and is that of one of them where there is one.
pub proof fn law_max_closed_end(s: Seq<EntryView>, k: int)
    requires
        0 <= k < s.len(),
        !s[k].is_open,
    ensures
        s[k].end <= max_closed_end(s),
        exists|w: int|
            0 <= w < s.len() && !(#[trigger] s[w]).is_open && s[w].end == max_closed_end(s),
    decreases s.len(),
{
    let front = s.drop_last();
    if k < front.len() {
        assert(front[k] == s[k]);
        law_max_closed_end(front, k);
        let w = choose|w: int|
            0 <= w < front.len() && !(#[trigger] front[w]).is_open && front[w].end
                == max_closed_end(front);
        assert(s[w] == front[w]);
        assert(s[s.len() - 1] == s.last());
    } else {
        lemma_max_closed_end(front);
        assert(s[k] == s.last());
        if !(s.last().end > max_closed_end(front)) && max_closed_end(front) > 0 {
            let w = choose|w: int|
                0 <= w < front.len() && !(#[trigger] front[w]).is_open && front[w].end
                    == max_closed_end(front);
            assert(s[w] == front[w]);
        }
    }
}

proof fn lemma_max_closed_end(s: Seq<EntryView>)
    ensures
        max_closed_end(s) > 0 ==> exists|w: int|
            0 <= w < s.len() && !(#[trigger] s[w]).is_open && s[w].end == max_closed_end(s),
    decreases s.len(),
{
    if s.len() > 0 {
        let front = s.drop_last();
        lemma_max_closed_end(front);
        if !s.last().is_open && s.last().end > max_closed_end(front) {
            assert(s[s.len() - 1] == s.last());
        } else if max_closed_end(front) > 0 {
            let w = choose|w: int|
                0 <= w < front.len() && !(#[trigger] front[w]).is_open && front[w].end
                    == max_closed_end(front);
            assert(s[w] == front[w]);
        }
    }
}

/// Entries are counted, and kept, one by one and in order: each that is
/// closed counts one, and each that ends at or before the cut is kept as it
/// is.
pub proof fn law_entries_one_by_one(
    front: Seq<EntryView>,
    entry: EntryView,
    back: Seq<EntryView>,
    from: usize,
)
    ensures
        closed_count(front + back) == closed_count(front) + closed_count(back),
        closed_count(seq![entry]) == (if entry.is_open {
            0nat
        } else {
            1nat
        }),
        ending_by(front + back, from) == ending_by(front, from) + ending_by(back, from),
        entry.end <= from ==> ending_by(seq![entry], from) == seq![entry],
        entry.end > from ==> ending_by(seq![entry], from) == Seq::<EntryView>::empty(),
    decreases back.len(),
{
    let one = seq![entry];
    assert(one.drop_last() =~= Seq::<EntryView>::empty());
    assert(closed_count(one.drop_last()) == 0);
    assert(ending_by(one.drop_last(), from) == Seq::<EntryView>::empty());
    assert(Seq::<EntryView>::empty().push(entry) =~= one);
    if back.len() == 0 {
        assert(front + back =~= front);
        assert(ending_by(front, from) + ending_by(back, from) =~= ending_by(front, from));
    } else {
        law_entries_one_by_one(front, entry, back.drop_last(), from);
        assert((front + back).drop_last() =~= front + back.drop_last());
        let left = ending_by(front, from);
        let right = ending_by(back.drop_last(), from);
        assert((left + right).push(back.last()) =~= left + right.push(back.last()));
    }
}

/// A cached block keeps its range, its fingerprint and whether it is open.
pub proof fn law_entry_view(e: BlockCacheEntry, s: Seq<BlockCacheEntry>, i: int)
    requires
        0 <= i < s.len(),
    ensures
        e@.start == e.byte_range.start,
        e@.end == e.byte_range.end,
        e@.block == e.block@,
        e@.fingerprint == e.fingerprint,
        e@.is_open == e.is_open,
        entry_views(s).len() == s.len(),
        entry_views(s)[i] == s[i]@,
        entry_blocks(entry_views(s))[i] == s[i].block@,
{
}

} // verus!
