//! Which finished logs of a thread to delete.
//!
//! Logs older than the retention window go first. Then, while the logs that
//! are left together exceed the quota, the oldest of them is deleted. A
//! deletion may fail, so the run asks for one deletion at a time and is told
//! how it went; a log is tried at most once for its age and once for space.
use vstd::prelude::*;

verus! {

/// A finished log of a thread.
#[derive(Debug, Clone, Copy, PartialEq, Eq, Structural)]
pub struct DoneFile {
    /// Time of the last change, in nanoseconds since the epoch.
    pub mtime: i128,
    /// Size in bytes.
    pub size: u64,
}

/// Whether file `a` comes before file `b`: by time, then by place in the
/// listing.
pub open spec fn comes_before(files: Seq<DoneFile>, a: usize, b: usize) -> bool {
    files[a as int].mtime < files[b as int].mtime || (files[a as int].mtime
        == files[b as int].mtime && a < b)
}

/// Whether `order` lists all files, each once, from the oldest on.
pub open spec fn is_age_order(files: Seq<DoneFile>, order: Seq<usize>) -> bool {
    &&& order.len() == files.len()
    &&& forall|i: int| 0 <= i < order.len() ==> (#[trigger] order[i]) < files.len()
    &&& forall|i: int, j: int|
        0 <= i < j < order.len() ==> comes_before(files, #[trigger] order[i], #[trigger] order[j])
    &&& forall|k: usize| k < files.len() ==> #[trigger] order.contains(k)
}

/// The files from the oldest on.
pub fn age_order(files: &Vec<DoneFile>) -> (order: Vec<usize>)
    ensures
        is_age_order(files@, order@),
{
    let mut order: Vec<usize> = Vec::new();
    let mut k: usize = 0;
    while k < files.len()
        invariant
            k <= files.len(),
            order.len() == k,
            forall|i: int| 0 <= i < order.len() ==> (#[trigger] order@[i]) < k,
            forall|i: int, j: int|
                0 <= i < j < order.len() ==> comes_before(
                    files@,
                    #[trigger] order@[i],
                    #[trigger] order@[j],
                ),
            forall|x: usize| x < k ==> #[trigger] order@.contains(x),
        decreases files.len() - k,
    {
        let mut p: usize = order.len();
        while p > 0 && files[order[p - 1]].mtime > files[k].mtime
            invariant
                p <= order.len(),
                k < files.len(),
                forall|i: int| 0 <= i < order.len() ==> (#[trigger] order@[i]) < k,
                forall|i: int|
                    p <= i < order.len() ==> files@[(#[trigger] order@[i]) as int].mtime
                        > files@[k as int].mtime,
            decreases p,
        {
            p = p - 1;
        }
        let ghost before = order@;
        order.insert(p, k);
        proof {
            assert(order@ == before.insert(p as int, k));
            assert forall|i: int, j: int| 0 <= i < j < order@.len() implies comes_before(
                files@,
                #[trigger] order@[i],
                #[trigger] order@[j],
            ) by {
                let a = if i < p {
                    i
                } else {
                    i - 1
                };
                let b = if j < p {
                    j
                } else {
                    j - 1
                };
                if i == p {
                    assert(order@[j] == before[j - 1]);
                } else if j == p {
                    assert(order@[i] == before[i]);
                    if i < p - 1 {
                        assert(comes_before(files@, before[i], before[p - 1]));
                    }
                } else {
                    assert(comes_before(files@, before[a], before[b]));
                }
            }
            assert forall|x: usize| x < k + 1 implies #[trigger] order@.contains(x) by {
                if x == k {
                    assert(order@[p as int] == x);
                } else {
                    assert(before.contains(x));
                    let w = choose|w: int| 0 <= w < before.len() && before[w] == x;
                    if w < p {
                        assert(order@[w] == x);
                    } else {
                        assert(order@[w + 1] == x);
                    }
                }
            }
        }
        k = k + 1;
    }
    order
}

/// The sizes of the given files together.
pub open spec fn total_size(files: Seq<DoneFile>) -> nat
    decreases files.len(),
{
    if files.len() == 0 {
        0
    } else {
        total_size(files.drop_last()) + files.last().size as nat
    }
}

/// The sizes of all files together.
pub fn sum_sizes(files: &Vec<DoneFile>) -> (r: u128)
    ensures
        r == total_size(files@),
{
    let mut total: u128 = 0;
    let mut i: usize = 0;
    assert(files@.take(0) =~= Seq::<DoneFile>::empty());
    while i < files.len()
        invariant
            i <= files.len(),
            total == total_size(files@.take(i as int)),
            total <= i * 0xFFFF_FFFF_FFFF_FFFF,
        decreases files.len() - i,
    {
        assert(files@.take(i + 1).drop_last() =~= files@.take(i as int));
        total = total + files[i].size as u128;
        i = i + 1;
    }
    assert(files@.take(i as int) =~= files@);
    total
}

/// How far a run has come.
#[derive(Debug, Clone, Copy, PartialEq, Eq, Structural)]
pub enum GcPhase {
    /// Deleting what is older than the retention window; the files before
    /// `pos` in age order have been looked at.
    Retention { pos: usize },
    /// Freeing space; the files before `pos` in age order are gone or have
    /// been tried.
    Quota { pos: usize },
}

/// What the run over one thread's finished logs is about.
pub struct GcPlan {
    /// The files, in the order of the listing.
    pub files: Seq<DoneFile>,
    /// The files from the oldest on.
    pub order: Seq<usize>,
    /// Files changed before this time are too old.
    pub cutoff: i128,
    /// Bytes that the thread may keep.
    pub quota: u64,
}

/// Where a run stands.
#[verifier::ext_equal]
pub struct GcState {
    /// Which files have been deleted, in the order of the listing.
    pub gone: Seq<bool>,
    pub phase: GcPhase,
}

/// The sizes of the files that are left together.
pub open spec fn kept_size(files: Seq<DoneFile>, gone: Seq<bool>) -> nat
    decreases files.len(),
{
    if files.len() == 0 {
        0
    } else {
        kept_size(files.drop_last(), gone.drop_last()) + if gone.last() {
            0
        } else {
            files.last().size as nat
        }
    }
}

/// How many files have been deleted.
pub open spec fn gone_count(gone: Seq<bool>) -> nat
    decreases gone.len(),
{
    if gone.len() == 0 {
        0
    } else {
        gone_count(gone.drop_last()) + if gone.last() {
            1nat
        } else {
            0
        }
    }
}

/// No file has been deleted.
pub open spec fn none_gone(n: nat) -> Seq<bool> {
    Seq::new(n, |i: int| false)
}

/// The first place at or behind `pos`, in age order, of a file that is too
/// old; the number of files where there is none.
pub open spec fn next_expired(plan: GcPlan, pos: int) -> int
    decreases plan.order.len() - pos,
{
    if pos < 0 || pos >= plan.order.len() {
        plan.order.len() as int
    } else if plan.files[plan.order[pos] as int].mtime < plan.cutoff {
        pos
    } else {
        next_expired(plan, pos + 1)
    }
}

/// The first place at or behind `pos`, in age order, of a file that is left;
/// the number of files where there is none.
pub open spec fn next_kept(plan: GcPlan, gone: Seq<bool>, pos: int) -> int
    decreases plan.order.len() - pos,
{
    if pos < 0 || pos >= plan.order.len() {
        plan.order.len() as int
    } else if !gone[plan.order[pos] as int] {
        pos
    } else {
        next_kept(plan, gone, pos + 1)
    }
}

/// Where the run stands once the next deletion, if any, is due.
pub open spec fn settled(plan: GcPlan, s: GcState) -> GcState {
    GcState {
        gone: s.gone,
        phase: match s.phase {
            GcPhase::Retention { pos } => if next_expired(plan, pos as int) < plan.order.len() {
                GcPhase::Retention { pos: next_expired(plan, pos as int) as usize }
            } else {
                GcPhase::Quota { pos: next_kept(plan, s.gone, 0) as usize }
            },
            GcPhase::Quota { pos } => GcPhase::Quota {
                pos: next_kept(plan, s.gone, pos as int) as usize,
            },
        },
    }
}

/// The file to delete next, if any, where the run is settled. For space, a
/// file is deleted only while what is left exceeds the quota.
pub open spec fn due(plan: GcPlan, s: GcState) -> Option<usize> {
    match s.phase {
        GcPhase::Retention { pos } => if pos < plan.order.len() {
            Some(plan.order[pos as int])
        } else {
            None
        },
        GcPhase::Quota { pos } => if pos < plan.order.len() && !s.gone[plan.order[pos as int] as int]
            && kept_size(plan.files, s.gone) > plan.quota {
            Some(plan.order[pos as int])
        } else {
            None
        },
    }
}

/// Which files are gone after the deletion of one went well or not.
pub open spec fn gone_after(gone: Seq<bool>, file: usize, ok: bool) -> Seq<bool> {
    if ok {
        gone.update(file as int, true)
    } else {
        gone
    }
}

/// Where the run stands after the deletion that was due went well or not.
pub open spec fn advanced(plan: GcPlan, s: GcState, ok: bool) -> GcState {
    match s.phase {
        GcPhase::Retention { pos } => GcState {
            gone: gone_after(s.gone, plan.order[pos as int], ok),
            phase: GcPhase::Retention { pos: (pos + 1) as usize },
        },
        GcPhase::Quota { pos } => GcState {
            gone: gone_after(s.gone, plan.order[pos as int], ok),
            phase: GcPhase::Quota { pos: (pos + 1) as usize },
        },
    }
}

proof fn lemma_none_gone(files: Seq<DoneFile>)
    ensures
        kept_size(files, none_gone(files.len())) == total_size(files),
        gone_count(none_gone(files.len())) == 0,
    decreases files.len(),
{
    if files.len() > 0 {
        assert(none_gone(files.len()).drop_last() =~= none_gone(files.drop_last().len()));
        lemma_none_gone(files.drop_last());
    }
}

/// With one file more deleted, its size less is left.
proof fn lemma_one_more_gone(files: Seq<DoneFile>, gone: Seq<bool>, i: int)
    requires
        gone.len() == files.len(),
        0 <= i < gone.len(),
        !gone[i],
    ensures
        kept_size(files, gone) == kept_size(files, gone.update(i, true)) + files[i].size,
        gone_count(gone.update(i, true)) == gone_count(gone) + 1,
    decreases files.len(),
{
    let after = gone.update(i, true);
    if i == gone.len() - 1 {
        assert(after.drop_last() =~= gone.drop_last());
    } else {
        assert(after.drop_last() =~= gone.drop_last().update(i, true));
        lemma_one_more_gone(files.drop_last(), gone.drop_last(), i);
    }
}

proof fn lemma_gone_count(gone: Seq<bool>)
    ensures
        gone_count(gone) <= gone.len(),
    decreases gone.len(),
{
    if gone.len() > 0 {
        lemma_gone_count(gone.drop_last());
    }
}

proof fn lemma_next_kept(plan: GcPlan, gone: Seq<bool>, pos: int)
    requires
        0 <= pos <= plan.order.len(),
    ensures
        pos <= next_kept(plan, gone, pos) <= plan.order.len(),
        next_kept(plan, gone, pos) < plan.order.len() ==> !gone[plan.order[next_kept(
            plan,
            gone,
            pos,
        )] as int],
        forall|k: int| pos <= k < next_kept(plan, gone, pos) ==> gone[#[trigger] plan.order[k] as int],
    decreases plan.order.len() - pos,
{
    if pos < plan.order.len() && gone[plan.order[pos] as int] {
        lemma_next_kept(plan, gone, pos + 1);
    }
}

/// The run over one thread's finished logs.
pub struct GcRun {
    files: Vec<DoneFile>,
    order: Vec<usize>,
    cutoff: i128,
    quota: u64,
    phase: GcPhase,
    gone: Vec<bool>,
    kept: u128,
    removed: u128,
}

impl GcRun {
    /// What the run is about.
    pub closed spec fn plan(&self) -> GcPlan {
        GcPlan {
            files: self.files@,
            order: self.order@,
            cutoff: self.cutoff,
            quota: self.quota,
        }
    }

    /// Where the run stands.
    pub closed spec fn at(&self) -> GcState {
        GcState { gone: self.gone@, phase: self.phase }
    }

    /// The order is that of age, the sums are those of the files, and a file
    /// whose age has not been looked at is still there.
    pub closed spec fn wf(&self) -> bool {
        &&& is_age_order(self.files@, self.order@)
        &&& self.gone.len() == self.files.len()
        &&& self.kept == kept_size(self.files@, self.gone@)
        &&& self.removed == gone_count(self.gone@)
        &&& match self.phase {
            GcPhase::Retention { pos } => pos <= self.order.len() && forall|k: int|
                pos <= k < self.order.len() ==> !self.gone@[#[trigger] self.order@[k] as int],
            GcPhase::Quota { pos } => pos <= self.order.len(),
        }
    }

    /// A run over `files`, as listed. `cutoff` is the time before which a
    /// file is too old, where there is such a time; the epoch stands in.
    pub fn start(files: Vec<DoneFile>, cutoff: Option<i128>, quota: u64) -> (r: GcRun)
        ensures
            r.wf(),
            r.plan().files == files@,
            is_age_order(files@, r.plan().order),
            r.plan().cutoff == (match cutoff {
                Some(t) => t,
                None => 0,
            }),
            r.plan().quota == quota,
            r.at() == (GcState {
                gone: none_gone(files@.len()),
                phase: GcPhase::Retention { pos: 0 },
            }),
    {
        let order = age_order(&files);
        let cut: i128 = match cutoff {
            Some(t) => t,
            None => 0,
        };
        let mut gone: Vec<bool> = Vec::new();
        let mut i: usize = 0;
        while i < files.len()
            invariant
                i <= files.len(),
                gone@ == none_gone(i as nat),
            decreases files.len() - i,
        {
            gone.push(false);
            assert(gone@ =~= none_gone(i as nat + 1));
            i = i + 1;
        }
        proof {
            lemma_none_gone(files@);
        }
        let kept = sum_sizes(&files);
        GcRun {
            files,
            order,
            cutoff: cut,
            quota,
            phase: GcPhase::Retention { pos: 0 },
            gone,
            kept,
            removed: 0,
        }
    }

    /// The first place at or behind `pos`, in age order, of a file that is
    /// left.
    fn kept_from(&self, pos: usize) -> (r: usize)
        requires
            self.wf(),
            pos <= self.plan().order.len(),
        ensures
            r == next_kept(self.plan(), self.at().gone, pos as int),
            pos <= r <= self.plan().order.len(),
    {
        let ghost plan = self.plan();
        let mut p: usize = pos;
        while p < self.order.len() && self.gone[self.order[p]]
            invariant
                pos <= p <= self.order.len(),
                self.wf(),
                plan == self.plan(),
                next_kept(plan, self.gone@, p as int) == next_kept(plan, self.gone@, pos as int),
            decreases self.order.len() - p,
        {
            p = p + 1;
        }
        p
    }

    /// The listing index of the file to delete next, or `None` when the run
    /// is over.
    pub fn next_removal(&mut self) -> (r: Option<usize>)
        requires
            old(self).wf(),
        ensures
            final(self).wf(),
            final(self).plan() == old(self).plan(),
            final(self).at() == settled(old(self).plan(), old(self).at()),
            r == due(final(self).plan(), final(self).at()),
            r is Some ==> r->0 < final(self).plan().files.len(),
    {
        let ghost plan = self.plan();
        match self.phase {
            GcPhase::Retention { pos } => {
                let mut p: usize = pos;
                while p < self.order.len() && self.files[self.order[p]].mtime >= self.cutoff
                    invariant
                        pos <= p <= self.order.len(),
                        is_age_order(self.files@, self.order@),
                        plan == self.plan(),
                        next_expired(plan, p as int) == next_expired(plan, pos as int),
                    decreases self.order.len() - p,
                {
                    p = p + 1;
                }
                if p < self.order.len() {
                    self.phase = GcPhase::Retention { pos: p };
                } else {
                    let first = self.kept_from(0);
                    self.phase = GcPhase::Quota { pos: first };
                }
            },
            GcPhase::Quota { pos } => {
                let next = self.kept_from(pos);
                self.phase = GcPhase::Quota { pos: next };
            },
        }
        match self.phase {
            GcPhase::Retention { pos } => if pos < self.order.len() {
                Some(self.order[pos])
            } else {
                None
            },
            GcPhase::Quota { pos } => if pos < self.order.len() && !self.gone[self.order[pos]]
                && self.kept > self.quota as u128 {
                Some(self.order[pos])
            } else {
                None
            },
        }
    }

    /// Tells the run whether the deletion that was due went well.
    pub fn report(&mut self, ok: bool)
        requires
            old(self).wf(),
            due(old(self).plan(), old(self).at()) is Some,
        ensures
            final(self).wf(),
            final(self).plan() == old(self).plan(),
            final(self).at() == advanced(old(self).plan(), old(self).at(), ok),
    {
        let pos: usize = match self.phase {
            GcPhase::Retention { pos } => pos,
            GcPhase::Quota { pos } => pos,
        };
        let file = self.order[pos];
        let ghost before = self.gone@;
        proof {
            assert(!before[file as int]);
            lemma_one_more_gone(self.files@, before, file as int);
            lemma_gone_count(before.update(file as int, true));
            assert forall|k: int| pos < k < self.order@.len() implies self.order@[k] != file by {
                assert(comes_before(self.files@, self.order@[pos as int], self.order@[k]));
            }
        }
        if ok {
            self.gone.set(file, true);
            self.kept = self.kept - self.files[file].size as u128;
            self.removed = self.removed + 1;
        }
        self.phase = match self.phase {
            GcPhase::Retention { pos } => GcPhase::Retention { pos: pos + 1 },
            GcPhase::Quota { pos } => GcPhase::Quota { pos: pos + 1 },
        };
    }

    /// How many files have been deleted.
    pub fn removed(&self) -> (r: u128)
        requires
            self.wf(),
        ensures
            r == gone_count(self.at().gone),
    {
        self.removed
    }
}

/// Where a run over `plan` stands after deletions that went as `oks` says.
pub open spec fn state_after(plan: GcPlan, oks: Seq<bool>) -> GcState
    decreases oks.len(),
{
    if oks.len() == 0 {
        GcState { gone: none_gone(plan.files.len()), phase: GcPhase::Retention { pos: 0 } }
    } else {
        advanced(plan, settled(plan, state_after(plan, oks.drop_last())), oks.last())
    }
}

/// Whether each of the deletions that went as `oks` says was due.
pub open spec fn all_due(plan: GcPlan, oks: Seq<bool>) -> bool {
    forall|n: int|
        0 <= n < oks.len() ==> due(
            plan,
            settled(plan, #[trigger] state_after(plan, oks.take(n))),
        ) is Some
}

/// A file is deleted for its age only where it is older than the cutoff.
pub proof fn law_retention_only_expired(plan: GcPlan, s: GcState)
    requires
        settled(plan, s).phase is Retention,
        plan.order.len() <= usize::MAX,
    ensures
        due(plan, settled(plan, s)) is Some,
        plan.files[due(plan, settled(plan, s))->0 as int].mtime < plan.cutoff,
{
    lemma_next_expired(plan, s.phase->Retention_pos as int);
}

/// Every file that is too old is tried: none is passed over between one
/// deletion for age and the next.
pub proof fn law_retention_misses_none(plan: GcPlan, pos: int, k: int)
    requires
        0 <= pos <= k < plan.order.len(),
        k < next_expired(plan, pos),
    ensures
        plan.files[plan.order[k] as int].mtime >= plan.cutoff,
    decreases k - pos,
{
    if k > pos {
        law_retention_misses_none(plan, pos + 1, k);
    }
}

proof fn lemma_next_expired(plan: GcPlan, pos: int)
    requires
        0 <= pos,
    ensures
        next_expired(plan, pos) <= plan.order.len(),
        pos <= plan.order.len() ==> pos <= next_expired(plan, pos),
        next_expired(plan, pos) < plan.order.len() ==> plan.files[plan.order[next_expired(
            plan,
            pos,
        )] as int].mtime < plan.cutoff,
    decreases plan.order.len() - pos,
{
    if pos < plan.order.len() {
        lemma_next_expired(plan, pos + 1);
    }
}

/// Where the run stands after deletions that were due: the places are in
/// range, and a file whose age has not been looked at is still there.
proof fn lemma_state(plan: GcPlan, oks: Seq<bool>)
    requires
        is_age_order(plan.files, plan.order),
        plan.order.len() <= usize::MAX,
        all_due(plan, oks),
    ensures
        state_after(plan, oks).gone.len() == plan.files.len(),
        match state_after(plan, oks).phase {
            GcPhase::Retention { pos } => pos <= plan.order.len() && forall|k: int|
                pos <= k < plan.order.len() ==> !state_after(plan, oks).gone[
                    #[trigger] plan.order[k] as int],
            GcPhase::Quota { pos } => pos <= plan.order.len(),
        },
    decreases oks.len(),
{
    if oks.len() > 0 {
        let front = oks.drop_last();
        assert(oks.take(oks.len() - 1) =~= front);
        assert forall|n: int| 0 <= n < front.len() implies due(
            plan,
            settled(plan, #[trigger] state_after(plan, front.take(n))),
        ) is Some by {
            assert(front.take(n) =~= oks.take(n));
        }
        lemma_state(plan, front);
        let s = state_after(plan, front);
        assert(due(plan, settled(plan, state_after(plan, oks.take(oks.len() - 1)))) is Some);
        match s.phase {
            GcPhase::Retention { pos } => {
                lemma_next_expired(plan, pos as int);
                lemma_next_kept(plan, s.gone, 0);
            },
            GcPhase::Quota { pos } => lemma_next_kept(plan, s.gone, pos as int),
        }
        let t = settled(plan, s);
        if let GcPhase::Retention { pos } = t.phase {
            assert forall|k: int| pos < k < plan.order.len() implies plan.order[k]
                != plan.order[pos as int] by {
                assert(comes_before(plan.files, plan.order[pos as int], plan.order[k]));
            }
        }
    }
}

/// A file that is deleted is one that is still there, and no file is deleted
/// to free space once what is left is within the quota.
pub proof fn law_deletes_only_what_is_needed(plan: GcPlan, oks: Seq<bool>)
    requires
        is_age_order(plan.files, plan.order),
        plan.order.len() <= usize::MAX,
        all_due(plan, oks),
    ensures
        due(plan, settled(plan, state_after(plan, oks))) matches Some(file) ==> {
            &&& file < plan.files.len()
            &&& !state_after(plan, oks).gone[file as int]
            &&& plan.files[file as int].mtime < plan.cutoff || kept_size(
                plan.files,
                state_after(plan, oks).gone,
            ) > plan.quota
        },
{
    lemma_state(plan, oks);
    let s = state_after(plan, oks);
    match s.phase {
        GcPhase::Retention { pos } => {
            lemma_next_expired(plan, pos as int);
            lemma_next_kept(plan, s.gone, 0);
        },
        GcPhase::Quota { pos } => lemma_next_kept(plan, s.gone, pos as int),
    }
}

/// Files go from the oldest on: where a file is due to free space, every
/// older one is gone or has been tried for space.
pub proof fn law_oldest_first(plan: GcPlan, s: GcState, k: int)
    requires
        s.phase matches GcPhase::Quota { pos } && pos <= plan.order.len() <= usize::MAX,
        s.phase->Quota_pos <= k < settled(plan, s).phase->Quota_pos,
    ensures
        s.gone[plan.order[k] as int],
{
    lemma_next_kept(plan, s.gone, s.phase->Quota_pos as int);
}

/// While space is freed and every deletion goes well, the files before the
/// place that was reached are gone.
proof fn lemma_all_gone_before(plan: GcPlan, oks: Seq<bool>)
    requires
        is_age_order(plan.files, plan.order),
        plan.order.len() <= usize::MAX,
        all_due(plan, oks),
        forall|i: int| 0 <= i < oks.len() ==> #[trigger] oks[i],
    ensures
        state_after(plan, oks).phase matches GcPhase::Quota { pos } ==> forall|k: int|
            0 <= k < pos ==> state_after(plan, oks).gone[#[trigger] plan.order[k] as int],
    decreases oks.len(),
{
    if oks.len() > 0 {
        let front = oks.drop_last();
        assert(oks.take(oks.len() - 1) =~= front);
        assert forall|n: int| 0 <= n < front.len() implies due(
            plan,
            settled(plan, #[trigger] state_after(plan, front.take(n))),
        ) is Some by {
            assert(front.take(n) =~= oks.take(n));
        }
        lemma_all_gone_before(plan, front);
        lemma_state(plan, front);
        let s = state_after(plan, front);
        assert(due(plan, settled(plan, state_after(plan, oks.take(oks.len() - 1)))) is Some);
        assert(oks.last() == oks[oks.len() - 1]);
        match s.phase {
            GcPhase::Retention { pos } => {
                lemma_next_expired(plan, pos as int);
                lemma_next_kept(plan, s.gone, 0);
            },
            GcPhase::Quota { pos } => lemma_next_kept(plan, s.gone, pos as int),
        }
    }
}

proof fn lemma_nothing_kept(files: Seq<DoneFile>, gone: Seq<bool>)
    requires
        gone.len() == files.len(),
        forall|i: int| 0 <= i < gone.len() ==> #[trigger] gone[i],
    ensures
        kept_size(files, gone) == 0,
    decreases files.len(),
{
    if files.len() > 0 {
        assert(gone.last() == gone[gone.len() - 1]);
        lemma_nothing_kept(files.drop_last(), gone.drop_last());
    }
}

/// Where every deletion goes well, the run ends with what is left within the
/// quota.
pub proof fn law_quota_met(plan: GcPlan, oks: Seq<bool>)
    requires
        is_age_order(plan.files, plan.order),
        plan.order.len() <= usize::MAX,
        all_due(plan, oks),
        forall|i: int| 0 <= i < oks.len() ==> #[trigger] oks[i],
        due(plan, settled(plan, state_after(plan, oks))) is None,
    ensures
        kept_size(plan.files, state_after(plan, oks).gone) <= plan.quota,
{
    lemma_all_gone_before(plan, oks);
    lemma_state(plan, oks);
    let s = state_after(plan, oks);
    match s.phase {
        GcPhase::Retention { pos } => {
            lemma_next_expired(plan, pos as int);
            lemma_next_kept(plan, s.gone, 0);
        },
        GcPhase::Quota { pos } => lemma_next_kept(plan, s.gone, pos as int),
    }
    if kept_size(plan.files, s.gone) > plan.quota {
        assert forall|i: int| 0 <= i < s.gone.len() implies #[trigger] s.gone[i] by {
            assert(plan.order.contains(i as usize));
            let w = choose|w: int| 0 <= w < plan.order.len() && plan.order[w] == i as usize;
            assert(s.gone[plan.order[w] as int]);
        }
        lemma_nothing_kept(plan.files, s.gone);
    }
}

/// The order of the logs has each of them once, the oldest first; of two that
/// are as old, the one that came first.
pub proof fn law_age_order(files: Seq<DoneFile>, order: Seq<usize>, i: int, j: int, k: usize)
    requires
        is_age_order(files, order),
        0 <= i < j < order.len(),
        k < files.len(),
    ensures
        order.len() == files.len(),
        order.contains(k),
        order[i] != order[j],
        files[order[i] as int].mtime <= files[order[j] as int].mtime,
        files[order[i] as int].mtime == files[order[j] as int].mtime ==> order[i] < order[j],
{
    assert(comes_before(files, order[i], order[j]));
}

/// The bytes that are kept are those of the logs that are not gone: all of
/// them at first, and one log's fewer with each that goes.
pub proof fn law_kept_size(files: Seq<DoneFile>, file: DoneFile, gone: Seq<bool>, i: int)
    requires
        gone.len() == files.len(),
        0 <= i < files.len(),
        !gone[i],
    ensures
        total_size(Seq::empty()) == 0,
        total_size(files.push(file)) == total_size(files) + file.size,
        kept_size(files, none_gone(files.len())) == total_size(files),
        kept_size(files, gone.update(i, true)) == kept_size(files, gone) - files[i].size,
        gone_count(none_gone(files.len())) == 0,
        gone_count(gone.update(i, true)) == gone_count(gone) + 1,
        forall|k: int| 0 <= k < files.len() ==> !#[trigger] none_gone(files.len())[k],
{
    lemma_none_gone(files);
    lemma_one_more_gone(files, gone, i);
    assert(files.push(file).drop_last() =~= files);
}

/// A deletion that went well takes away the log that was due and no other;
/// one that failed takes none, and the run goes on behind it.
pub proof fn law_report(plan: GcPlan, s: GcState, ok: bool, k: int)
    requires
        due(plan, s) is Some,
        plan.order.len() <= usize::MAX,
        s.gone.len() == plan.files.len(),
        due(plan, s)->0 < plan.files.len(),
        0 <= k < plan.files.len(),
    ensures
        advanced(plan, s, false).gone == s.gone,
        advanced(plan, s, true).gone.len() == s.gone.len(),
        advanced(plan, s, true).gone[k] == (s.gone[k] || k == due(plan, s)->0),
        s.phase matches GcPhase::Retention { pos } ==> advanced(plan, s, ok).phase
            == (GcPhase::Retention { pos: (pos + 1) as usize }),
        s.phase matches GcPhase::Quota { pos } ==> advanced(plan, s, ok).phase == (GcPhase::Quota {
            pos: (pos + 1) as usize,
        }),
{
}

/// For space, the run asks for the oldest log that it has not tried for space
/// and that is not gone, and only while more is kept than the quota.
pub proof fn law_space_takes_the_oldest(plan: GcPlan, s: GcState, k: int)
    requires
        is_age_order(plan.files, plan.order),
        plan.order.len() <= usize::MAX,
        s.gone.len() == plan.files.len(),
        s.phase matches GcPhase::Quota { pos } && pos <= k,
        k < plan.order.len(),
        !s.gone[plan.order[k] as int],
    ensures
        due(plan, settled(plan, s)) is Some <==> kept_size(plan.files, s.gone) > plan.quota,
        due(plan, settled(plan, s)) matches Some(file) ==> !s.gone[file as int]
            && plan.files[file as int].mtime <= plan.files[plan.order[k] as int].mtime,
        settled(plan, s).gone == s.gone,
{
    let pos = s.phase->Quota_pos as int;
    lemma_next_kept(plan, s.gone, pos);
    let at = next_kept(plan, s.gone, pos);
    if at > k {
        assert(s.gone[plan.order[k] as int]);
    }
    if at < k {
        assert(comes_before(plan.files, plan.order[at], plan.order[k]));
    }
}

/// Once no log is too old any more, the run turns to space and begins again
/// with the oldest log that is left, also where deleting it for its age had
/// failed.
pub proof fn law_space_comes_after_age(plan: GcPlan, s: GcState, k: int)
    requires
        is_age_order(plan.files, plan.order),
        plan.order.len() <= usize::MAX,
        s.gone.len() == plan.files.len(),
        s.phase matches GcPhase::Retention { pos } && pos <= plan.order.len() && forall|j: int|
            pos <= j < plan.order.len() ==> plan.files[#[trigger] plan.order[j] as int].mtime
                >= plan.cutoff,
        0 <= k < plan.order.len(),
        !s.gone[plan.order[k] as int],
        forall|j: int| 0 <= j < k ==> s.gone[#[trigger] plan.order[j] as int],
    ensures
        settled(plan, s).phase is Quota,
        kept_size(plan.files, s.gone) > plan.quota ==> due(plan, settled(plan, s)) == Some(
            plan.order[k],
        ),
        kept_size(plan.files, s.gone) <= plan.quota ==> due(plan, settled(plan, s)) is None,
{
    let pos = s.phase->Retention_pos as int;
    lemma_next_expired(plan, pos);
    lemma_next_kept(plan, s.gone, 0);
    let at = next_kept(plan, s.gone, 0);
    if at > k {
        assert(s.gone[plan.order[k] as int]);
    }
    if at < k {
        assert(s.gone[plan.order[at] as int]);
    }
}

/// For age, the run asks for every log that is older than the window, in the
/// order of age, and for no other.
pub proof fn law_age_takes_every_old_log(plan: GcPlan, s: GcState, k: int)
    requires
        plan.order.len() <= usize::MAX,
        s.phase matches GcPhase::Retention { pos } && pos <= k,
        k < plan.order.len(),
        plan.files[plan.order[k] as int].mtime < plan.cutoff,
        forall|j: int|
            s.phase->Retention_pos <= j < k ==> plan.files[#[trigger] plan.order[j] as int].mtime
                >= plan.cutoff,
    ensures
        due(plan, settled(plan, s)) == Some(plan.order[k]),
{
    let pos = s.phase->Retention_pos as int;
    lemma_next_expired(plan, pos);
    let at = next_expired(plan, pos);
    if at > k {
        law_retention_misses_none(plan, pos, k);
    }
    if at < k {
        assert(plan.files[plan.order[at] as int].mtime < plan.cutoff);
    }
}

} // verus!
