//! Collecting the files of a workspace for the palette.
//!
//! The walk says which directory to read next and takes its entries. Reading
//! directories is left to the caller. A path is the run of its names, below
//! the root of the walk.
use crate::agent::capabilities::{clone_names, texts};
use crate::text::{
    chars_of, is_less, law_text_order_total, law_text_order_transitive, same_text, text_less,
};
use vstd::prelude::*;
use vstd::seq_lib::{to_multiset_build, to_multiset_insert, to_multiset_len};

verus! {

/// Whether a path stands before another: by the first name in which they
/// differ, the shorter first where there is none.
pub open spec fn path_less(a: Seq<Seq<char>>, b: Seq<Seq<char>>) -> bool
    decreases a.len(),
{
    if b.len() == 0 {
        false
    } else if a.len() == 0 {
        true
    } else if a[0] == b[0] {
        path_less(a.drop_first(), b.drop_first())
    } else {
        text_less(a[0], b[0])
    }
}

proof fn lemma_path_order_total(a: Seq<Seq<char>>, b: Seq<Seq<char>>)
    ensures
        !path_less(a, a),
        a != b ==> path_less(a, b) != path_less(b, a),
    decreases a.len(),
{
    if a.len() > 0 && b.len() > 0 {
        lemma_path_order_total(a.drop_first(), b.drop_first());
        law_text_order_total(a[0], b[0]);
        if a[0] == b[0] && a.drop_first() == b.drop_first() {
            assert(a =~= seq![a[0]] + a.drop_first());
            assert(b =~= seq![b[0]] + b.drop_first());
        }
    } else {
        if a.len() > 0 {
            lemma_path_order_total(a.drop_first(), a.drop_first());
        }
        if a.len() == b.len() {
            assert(a =~= b);
        }
    }
}

proof fn lemma_path_order_transitive(
    a: Seq<Seq<char>>,
    b: Seq<Seq<char>>,
    c: Seq<Seq<char>>,
)
    requires
        path_less(a, b),
        path_less(b, c),
    ensures
        path_less(a, c),
    decreases a.len(),
{
    if a.len() > 0 {
        if a[0] == b[0] && b[0] == c[0] {
            lemma_path_order_transitive(a.drop_first(), b.drop_first(), c.drop_first());
        } else if a[0] != b[0] && b[0] != c[0] {
            law_text_order_transitive(a[0], b[0], c[0]);
            law_text_order_total(a[0], c[0]);
        }
    }
}

/// Whether a path stands before another.
fn is_path_less(a: &Vec<String>, b: &Vec<String>) -> (r: bool)
    ensures
        r == path_less(texts(a@), texts(b@)),
{
    let ghost x = texts(a@);
    let ghost y = texts(b@);
    let mut i: usize = 0;
    assert(x.skip(0) =~= x && y.skip(0) =~= y);
    while i < a.len() && i < b.len()
        invariant
            i <= a.len(),
            i <= b.len(),
            x == texts(a@),
            y == texts(b@),
            path_less(x, y) == path_less(x.skip(i as int), y.skip(i as int)),
        decreases a.len() - i,
    {
        assert(x.skip(i as int)[0] == a@[i as int]@);
        assert(y.skip(i as int)[0] == b@[i as int]@);
        assert(x.skip(i as int).drop_first() =~= x.skip(i + 1));
        assert(y.skip(i as int).drop_first() =~= y.skip(i + 1));
        if !same_text(a[i].as_str(), b[i].as_str()) {
            return is_less(a[i].as_str(), b[i].as_str());
        }
        i = i + 1;
    }
    i < b.len()
}

/// The names of a run of paths.
pub open spec fn path_views(s: Seq<Vec<String>>) -> Seq<Seq<Seq<char>>> {
    Seq::new(s.len(), |i: int| texts(s[i]@))
}

/// Whether no path stands before one in front of it.
pub open spec fn in_path_order(s: Seq<Seq<Seq<char>>>) -> bool {
    forall|i: int, j: int| 0 <= i < j < s.len() ==> !path_less(#[trigger] s[j], #[trigger] s[i])
}

proof fn lemma_insert_in_order(s: Seq<Seq<Seq<char>>>, at: int, path: Seq<Seq<char>>)
    requires
        in_path_order(s),
        0 <= at <= s.len(),
        forall|i: int| 0 <= i < at ==> !path_less(path, #[trigger] s[i]),
        at < s.len() ==> path_less(path, s[at]),
    ensures
        in_path_order(s.insert(at, path)),
{
    let t = s.insert(at, path);
    assert forall|i: int, j: int| 0 <= i < j < t.len() implies !path_less(
        #[trigger] t[j],
        #[trigger] t[i],
    ) by {
        if i < at && j > at {
            assert(t[i] == s[i] && t[j] == s[j - 1]);
        } else if i > at {
            assert(t[i] == s[i - 1] && t[j] == s[j - 1]);
        } else if j < at {
            assert(t[i] == s[i] && t[j] == s[j]);
        } else if j == at {
            assert(t[i] == s[i]);
        } else {
            assert(t[j] == s[j - 1]);
            lemma_path_order_total(s[at], s[j - 1]);
            lemma_path_order_total(path, s[j - 1]);
            if path_less(s[j - 1], path) {
                lemma_path_order_transitive(s[j - 1], path, s[at]);
                if j - 1 > at {
                    assert(!path_less(s[j - 1], s[at]));
                }
            }
        }
    }
}

/// Puts a path where it belongs.
fn insert_path(sorted: &mut Vec<Vec<String>>, path: Vec<String>)
    requires
        in_path_order(path_views(old(sorted)@)),
    ensures
        in_path_order(path_views(final(sorted)@)),
        path_views(final(sorted)@).to_multiset() == path_views(old(sorted)@).to_multiset().insert(
            texts(path@),
        ),
{
    let ghost before = path_views(sorted@);
    let ghost new = texts(path@);
    let mut at: usize = 0;
    while at < sorted.len() && !is_path_less(&path, &sorted[at])
        invariant
            at <= sorted.len(),
            before == path_views(sorted@),
            new == texts(path@),
            forall|i: int| 0 <= i < at ==> !path_less(new, #[trigger] before[i]),
        decreases sorted.len() - at,
    {
        assert(before[at as int] == texts(sorted@[at as int]@));
        at = at + 1;
    }
    proof {
        if at < sorted.len() {
            assert(before[at as int] == texts(sorted@[at as int]@));
        }
        lemma_insert_in_order(before, at as int, new);
        to_multiset_insert(before, at as int, new);
    }
    sorted.insert(at, path);
    assert(path_views(sorted@) =~= before.insert(at as int, new));
}

/// What an entry of a directory is.
#[derive(Debug, Clone, Copy, PartialEq, Eq, Structural)]
pub enum EntryKind {
    Dir,
    File,
    Other,
}

/// A directory that is still to be read, and how deep it lies.
pub struct PendingDir {
    pub path: Vec<String>,
    pub depth: usize,
}

/// A walk as a mathematical value: the directories that are still to be read,
/// the last first, the files that were found, and the two bounds.
#[verifier::ext_equal]
pub struct WalkView {
    pub pending: Seq<(Seq<Seq<char>>, nat)>,
    pub found: Seq<Seq<Seq<char>>>,
    pub max_depth: nat,
    pub cap: nat,
}

/// Whether an entry is passed over by its name.
pub open spec fn is_hidden(name: Seq<char>) -> bool {
    name.len() > 0 && name[0] == '.'
}

/// Whether none of the names of a path is hidden.
pub open spec fn is_visible(path: Seq<Seq<char>>) -> bool {
    forall|i: int| 0 <= i < path.len() ==> !is_hidden(#[trigger] path[i])
}

impl WalkView {
    /// After an entry of a directory was taken.
    pub open spec fn taken(
        self,
        dir: Seq<Seq<char>>,
        depth: nat,
        name: Seq<char>,
        kind: EntryKind,
    ) -> WalkView {
        if self.found.len() >= self.cap || is_hidden(name) {
            self
        } else {
            match kind {
                EntryKind::Dir => if depth + 1 < self.max_depth {
                    WalkView { pending: self.pending.push((dir.push(name), depth + 1)), ..self }
                } else {
                    self
                },
                EntryKind::File => WalkView { found: self.found.push(dir.push(name)), ..self },
                EntryKind::Other => self,
            }
        }
    }

    /// Whether the walk keeps its promises so far: no more files than the
    /// bound, none hidden, none deeper than the bound.
    pub open spec fn keeps_bounds(self) -> bool {
        &&& self.found.len() <= self.cap
        &&& forall|i: int|
            0 <= i < self.found.len() ==> is_visible(#[trigger] self.found[i])
                && 1 <= self.found[i].len() && (self.found[i].len() <= self.max_depth
                || self.found[i].len() == 1)
        &&& forall|i: int|
            0 <= i < self.pending.len() ==> is_pending_dir(#[trigger] self.pending[i], self.max_depth)
    }
}

/// Whether a directory is one that a walk may be about to read.
pub open spec fn is_pending_dir(dir: (Seq<Seq<char>>, nat), max_depth: nat) -> bool {
    &&& is_visible(dir.0)
    &&& dir.0.len() == dir.1
    &&& dir.1 < max_depth || dir.1 == 0
}

/// A walk that is under way.
pub struct FileWalk {
    stack: Vec<PendingDir>,
    out: Vec<Vec<String>>,
    max_depth: usize,
    cap: usize,
}

spec fn pending_views(s: Seq<PendingDir>) -> Seq<(Seq<Seq<char>>, nat)> {
    Seq::new(s.len(), |i: int| (texts(s[i].path@), s[i].depth as nat))
}

impl FileWalk {
    /// The state of the walk.
    pub closed spec fn view(&self) -> WalkView {
        WalkView {
            pending: pending_views(self.stack@),
            found: path_views(self.out@),
            max_depth: self.max_depth as nat,
            cap: self.cap as nat,
        }
    }

    /// The walk keeps its promises.
    #[verifier::type_invariant]
    spec fn wf(self) -> bool {
        self@.keeps_bounds()
    }

    /// A walk that has not read anything.
    pub fn new(max_depth: usize, cap: usize) -> (r: FileWalk)
        ensures
            r@ == (WalkView {
                pending: seq![(Seq::<Seq<char>>::empty(), 0nat)],
                found: Seq::empty(),
                max_depth: max_depth as nat,
                cap: cap as nat,
            }),
    {
        let root: Vec<String> = Vec::new();
        let mut stack: Vec<PendingDir> = Vec::new();
        assert(texts(root@) =~= Seq::<Seq<char>>::empty());
        stack.push(PendingDir { path: root, depth: 0 });
        let out: Vec<Vec<String>> = Vec::new();
        assert(pending_views(stack@) =~= seq![(Seq::<Seq<char>>::empty(), 0nat)]);
        assert(path_views(out@) =~= Seq::<Seq<Seq<char>>>::empty());
        FileWalk { stack, out, max_depth, cap }
    }

    /// The directory to read next; none where the walk is over, because there
    /// is none or because enough files were found.
    pub fn next_dir(&mut self) -> (r: Option<PendingDir>)
        ensures
            old(self)@.pending.len() == 0 ==> r is None && final(self)@ == old(self)@,
            old(self)@.pending.len() > 0 ==> final(self)@ == (WalkView {
                pending: old(self)@.pending.drop_last(),
                ..old(self)@
            }),
            old(self)@.pending.len() > 0 ==> match r {
                Some(dir) => old(self)@.found.len() < old(self)@.cap && (
                texts(dir.path@),
                dir.depth as nat,
                ) == old(self)@.pending.last(),
                None => old(self)@.found.len() >= old(self)@.cap,
            },
            r matches Some(dir) ==> is_pending_dir(
                (texts(dir.path@), dir.depth as nat),
                old(self)@.max_depth,
            ),
    {
        proof {
            use_type_invariant(&*self);
        }
        let mut stack: Vec<PendingDir> = Vec::new();
        std::mem::swap(&mut stack, &mut self.stack);
        let ghost before = pending_views(stack@);
        let top = stack.pop();
        proof {
            if before.len() > 0 {
                assert(pending_views(stack@) =~= before.drop_last());
            } else {
                assert(pending_views(stack@) =~= before);
            }
        }
        self.stack = stack;
        match top {
            Some(dir) => if self.out.len() >= self.cap {
                None
            } else {
                Some(dir)
            },
            None => None,
        }
    }

    /// Takes an entry of a directory that is being read: whether to go on with
    /// that directory.
    pub fn take(&mut self, dir: &PendingDir, name: &str, kind: EntryKind) -> (r: bool)
        requires
            is_pending_dir((texts(dir.path@), dir.depth as nat), old(self)@.max_depth),
        ensures
            final(self)@ == old(self)@.taken(texts(dir.path@), dir.depth as nat, name@, kind),
            r == (old(self)@.found.len() < old(self)@.cap),
    {
        proof {
            use_type_invariant(&*self);
        }
        if self.out.len() >= self.cap {
            return false;
        }
        let chars = chars_of(name);
        if chars.len() > 0 && chars[0] == '.' {
            return true;
        }
        let ghost parent = texts(dir.path@);
        let mut path = clone_names(&dir.path);
        path.push(name.to_owned());
        assert(texts(path@) =~= parent.push(name@));
        match kind {
            EntryKind::Dir => {
                if dir.depth < self.max_depth && dir.depth + 1 < self.max_depth {
                    let mut stack: Vec<PendingDir> = Vec::new();
                    std::mem::swap(&mut stack, &mut self.stack);
                    let ghost before = pending_views(stack@);
                    stack.push(PendingDir { path, depth: dir.depth + 1 });
                    assert(pending_views(stack@) =~= before.push(
                        (parent.push(name@), (dir.depth + 1) as nat),
                    ));
                    self.stack = stack;
                }
            },
            EntryKind::File => {
                let mut out: Vec<Vec<String>> = Vec::new();
                std::mem::swap(&mut out, &mut self.out);
                let ghost before = path_views(out@);
                out.push(path);
                assert(path_views(out@) =~= before.push(parent.push(name@)));
                self.out = out;
            },
            EntryKind::Other => {},
        }
        true
    }

    /// The files that were found, in the order of their paths: no more than
    /// the bound, none hidden, none deeper than the bound.
    pub fn finish(self) -> (r: Vec<Vec<String>>)
        ensures
            in_path_order(path_views(r@)),
            path_views(r@).to_multiset() == self@.found.to_multiset(),
            r.len() == self@.found.len(),
            self@.keeps_bounds(),
    {
        proof {
            use_type_invariant(&self);
        }
        let ghost views = path_views(self.out@);
        let mut sorted: Vec<Vec<String>> = Vec::new();
        let mut i: usize = 0;
        proof {
            assert(path_views(sorted@) =~= Seq::<Seq<Seq<char>>>::empty());
            assert(views.take(0) =~= Seq::<Seq<Seq<char>>>::empty());
        }
        while i < self.out.len()
            invariant
                i <= self.out.len(),
                views == path_views(self.out@),
                in_path_order(path_views(sorted@)),
                path_views(sorted@).to_multiset() == views.take(i as int).to_multiset(),
            decreases self.out.len() - i,
        {
            proof {
                assert(views.take(i + 1) =~= views.take(i as int).push(views[i as int]));
                to_multiset_build(views.take(i as int), views[i as int]);
            }
            insert_path(&mut sorted, clone_names(&self.out[i]));
            i = i + 1;
        }
        proof {
            assert(views.take(self.out@.len() as int) =~= views);
            to_multiset_len(path_views(sorted@));
            to_multiset_len(views);
        }
        sorted
    }
}

/// A path as text: its names with slashes between them.
pub open spec fn path_text(path: Seq<Seq<char>>) -> Seq<char>
    decreases path.len(),
{
    if path.len() == 0 {
        Seq::empty()
    } else if path.len() == 1 {
        path[0]
    } else {
        path_text(path.drop_last()).push('/') + path.last()
    }
}

/// A path as text.
pub fn relative_path(path: &Vec<String>) -> (r: String)
    ensures
        r@ == path_text(texts(path@)),
{
    let ghost names = texts(path@);
    let mut out = String::new();
    let mut i: usize = 0;
    assert(names.take(0) =~= Seq::<Seq<char>>::empty());
    assert(out@ =~= path_text(names.take(0)));
    while i < path.len()
        invariant
            i <= path.len(),
            names == texts(path@),
            out@ == path_text(names.take(i as int)),
        decreases path.len() - i,
    {
        let ghost before = out@;
        if i > 0 {
            out.push('/');
        }
        out.append(path[i].as_str());
        proof {
            let wider = names.take(i + 1);
            assert(wider.drop_last() =~= names.take(i as int));
            assert(wider.last() == path@[i as int]@);
            if i == 0 {
                assert(out@ =~= wider[0]);
            } else {
                assert(out@ =~= before.push('/') + wider.last());
            }
        }
        i = i + 1;
    }
    assert(names.take(path@.len() as int) =~= names);
    out
}

/// What becomes of an entry. A file that is visible is found, whatever its
/// depth. A directory that is visible is read later, unless it lies as deep
/// as the bound. Anything else, and everything once enough was found, changes
/// nothing.
pub proof fn law_entry_taken(
    walk: WalkView,
    dir: Seq<Seq<char>>,
    depth: nat,
    name: Seq<char>,
    kind: EntryKind,
)
    ensures
        walk.taken(dir, depth, "."@ + name, kind) == walk,
        walk.taken(dir, depth, name, EntryKind::Other) == walk,
        walk.found.len() >= walk.cap ==> walk.taken(dir, depth, name, kind) == walk,
        walk.found.len() < walk.cap && (name.len() == 0 || name[0] != '.') ==> {
            let file = walk.taken(dir, depth, name, EntryKind::File);
            let sub = walk.taken(dir, depth, name, EntryKind::Dir);
            &&& file.found == walk.found + seq![dir + seq![name]]
            &&& file.pending == walk.pending
            &&& sub.found == walk.found
            &&& depth + 1 < walk.max_depth ==> sub.pending == walk.pending + seq![
                (dir + seq![name], depth + 1),
            ]
            &&& depth + 1 >= walk.max_depth ==> sub.pending == walk.pending
        },
        walk.taken(dir, depth, name, kind).max_depth == walk.max_depth,
        walk.taken(dir, depth, name, kind).cap == walk.cap,
{
    reveal_strlit(".");
    assert(("."@ + name)[0] == '.');
    assert(dir.push(name) =~= dir + seq![name]);
}

/// The text of a path is that of its front, a slash and that of its back,
/// wherever it is cut; the text of one name is that name.
pub proof fn law_path_text(front: Seq<Seq<char>>, back: Seq<Seq<char>>, name: Seq<char>)
    requires
        front.len() > 0,
        back.len() > 0,
    ensures
        path_text(front + back) == path_text(front) + "/"@ + path_text(back),
        path_text(seq![name]) == name,
    decreases back.len(),
{
    reveal_strlit("/");
    let all = front + back;
    assert(all.drop_last() =~= front + back.drop_last());
    assert(all.last() == back.last());
    if back.len() == 1 {
        assert(all.drop_last() =~= front);
        assert(path_text(all) =~= path_text(front) + "/"@ + path_text(back));
    } else {
        law_path_text(front, back.drop_last(), name);
        assert(path_text(all) =~= path_text(front) + "/"@ + path_text(back));
    }
}

/// Paths stand in the order of the names in which they first differ; a
/// directory stands before what lies below it.
pub proof fn law_path_order(
    front: Seq<Seq<char>>,
    x: Seq<char>,
    y: Seq<char>,
    a: Seq<Seq<char>>,
    b: Seq<Seq<char>>,
)
    ensures
        path_less(front, front + seq![x] + a),
        !path_less(front + seq![x] + a, front),
        text_less(x, y) ==> path_less(front + seq![x] + a, front + seq![y] + b),
        text_less(x, y) ==> !path_less(front + seq![y] + b, front + seq![x] + a),
    decreases front.len(),
{
    let left = front + seq![x] + a;
    let right = front + seq![y] + b;
    law_text_order_total(x, y);
    if front.len() > 0 {
        let rest = front.drop_first();
        law_path_order(rest, x, y, a, b);
        assert(left.drop_first() =~= rest + seq![x] + a);
        assert(right.drop_first() =~= rest + seq![y] + b);
    } else {
        assert(left[0] == x && right[0] == y);
    }
}

} // verus!
