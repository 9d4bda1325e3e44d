//! Paths as text: `/` between the names.
use crate::text::{chars_of, same_text, string_of};
use vstd::prelude::*;

verus! {

/// `rel` taken below `base`, as `Path::join` does: an absolute `rel` stands
/// for itself.
pub open spec fn joined(base: Seq<char>, rel: Seq<char>) -> Seq<char> {
    if base.len() == 0 || (rel.len() > 0 && rel[0] == '/') {
        rel
    } else if base.last() == '/' {
        base + rel
    } else {
        base.push('/') + rel
    }
}

/// `rel` taken below `base`; an absolute `rel` stands for itself.
pub fn join_path(base: &str, rel: &str) -> (r: String)
    ensures
        r@ == joined(base@, rel@),
{
    let tail = chars_of(rel);
    if tail.len() > 0 && tail[0] == '/' {
        return rel.to_owned();
    }
    let chars = chars_of(base);
    let mut out = base.to_owned();
    if chars.len() > 0 && chars[chars.len() - 1] != '/' {
        out.push('/');
    }
    out.append(rel);
    assert(out@ =~= joined(base@, rel@));
    out
}

/// The place of the last dot of a name, if any.
pub open spec fn last_dot(name: Seq<char>) -> Option<int>
    decreases name.len(),
{
    if name.len() == 0 {
        None
    } else if name.last() == '.' {
        Some(name.len() - 1)
    } else {
        last_dot(name.drop_last())
    }
}

/// A file name without its extension: what stands before the last dot, or the
/// whole name where the only dot is in front or there is none.
pub open spec fn stem_of(name: Seq<char>) -> Seq<char> {
    match last_dot(name) {
        Some(dot) => if dot == 0 || name == ".."@ {
            name
        } else {
            name.take(dot)
        },
        None => name,
    }
}

/// A file name without its extension.
pub fn file_stem(name: &str) -> (r: String)
    ensures
        r@ == stem_of(name@),
{
    let chars = chars_of(name);
    let mut i: usize = chars.len();
    assert(chars@.take(i as int) =~= chars@);
    while i > 0 && chars[i - 1] != '.'
        invariant
            i <= chars.len(),
            last_dot(chars@.take(i as int)) == last_dot(chars@),
        decreases i,
    {
        assert(chars@.take(i as int).drop_last() =~= chars@.take(i - 1));
        i = i - 1;
    }
    if i <= 1 || same_text(name, "..") {
        return name.to_owned();
    }
    assert(chars@.subrange(0, i - 1) =~= chars@.take(i - 1));
    string_of(&chars, 0, i - 1)
}

/// The place of the last slash of a path, if any.
pub open spec fn last_slash(path: Seq<char>) -> Option<int>
    decreases path.len(),
{
    if path.len() == 0 {
        None
    } else if path.last() == '/' {
        Some(path.len() - 1)
    } else {
        last_slash(path.drop_last())
    }
}

/// What stands behind the last slash.
pub open spec fn last_name(path: Seq<char>) -> Seq<char> {
    match last_slash(path) {
        Some(at) => path.skip(at + 1),
        None => path,
    }
}

/// The last name of a path, as `Path::file_name` has it: empty names and
/// names of a single dot at the end are passed over, and two dots are no name.
pub open spec fn file_name_of(path: Seq<char>) -> Option<Seq<char>>
    decreases path.len(),
{
    let name = last_name(path);
    if name.len() == 0 || name == "."@ {
        match last_slash(path) {
            Some(at) => if 0 <= at < path.len() {
                file_name_of(path.take(at))
            } else {
                None
            },
            None => None,
        }
    } else if name == ".."@ {
        None
    } else {
        Some(name)
    }
}

/// The last name of a path.
pub fn file_name(path: &str) -> (r: Option<String>)
    ensures
        match r {
            Some(name) => file_name_of(path@) == Some(name@),
            None => file_name_of(path@) is None,
        },
{
    let chars = chars_of(path);
    let mut end: usize = chars.len();
    assert(chars@.take(end as int) =~= chars@);
    loop
        invariant
            end <= chars.len(),
            chars@ == path@,
            file_name_of(chars@.take(end as int)) == file_name_of(path@),
        decreases end,
    {
        let ghost rest = chars@.take(end as int);
        let mut start: usize = end;
        assert(rest.take(start as int) =~= rest);
        while start > 0 && chars[start - 1] != '/'
            invariant
                start <= end <= chars.len(),
                rest == chars@.take(end as int),
                last_slash(rest.take(start as int)) == last_slash(rest),
            decreases start,
        {
            assert(rest.take(start as int).drop_last() =~= rest.take(start - 1));
            start = start - 1;
        }
        assert(rest.take(start as int).len() == start);
        let name = string_of(&chars, start, end);
        assert(name@ =~= last_name(rest));
        if start < end && !same_text(name.as_str(), ".") {
            return if same_text(name.as_str(), "..") {
                None
            } else {
                Some(name)
            };
        }
        if start == 0 {
            return None;
        }
        assert(rest.take(start - 1) =~= chars@.take(start - 1));
        end = start - 1;
    }
}

/// What a path is shown as: its last name, or all of it where it has none.
pub open spec fn shown_name(path: Seq<char>) -> Seq<char> {
    match file_name_of(path) {
        Some(name) => name,
        None => path,
    }
}

/// What a path is shown as.
pub fn display_name(path: &str) -> (r: String)
    ensures
        r@ == shown_name(path@),
{
    match file_name(path) {
        Some(name) => name,
        None => path.to_owned(),
    }
}

/// A relative path is taken below a base with exactly one slash between the
/// two, whether or not the base ends in one; an absolute path, or one below
/// nothing, stands for itself.
pub proof fn law_joined(base: Seq<char>, rel: Seq<char>)
    ensures
        joined(base, "/"@ + rel) == "/"@ + rel,
        joined(Seq::empty(), rel) == rel,
        base.len() > 0 && base.last() != '/' && !(rel.len() > 0 && rel[0] == '/') ==> joined(
            base,
            rel,
        ) == base + "/"@ + rel && joined(base + "/"@, rel) == base + "/"@ + rel,
{
    reveal_strlit("/");
    let slash = "/"@;
    assert(slash.len() == 1 && slash[0] == '/');
    assert((slash + rel)[0] == '/');
    if base.len() > 0 && base.last() != '/' && !(rel.len() > 0 && rel[0] == '/') {
        assert(base.push('/') =~= base + slash);
        assert((base + slash).last() == '/');
    }
}

proof fn lemma_last_dot(front: Seq<char>, back: Seq<char>)
    requires
        !back.contains('.'),
    ensures
        last_dot(back) is None,
        last_dot(front.push('.') + back) == Some(front.len() as int),
    decreases back.len(),
{
    let all = front.push('.') + back;
    if back.len() == 0 {
        assert(all =~= front.push('.'));
    } else {
        assert(back[back.len() - 1] != '.');
        assert forall|i: int| 0 <= i < back.len() - 1 implies back.drop_last()[i] != '.' by {
            assert(back.contains(back[i]));
        }
        lemma_last_dot(front, back.drop_last());
        assert(all.drop_last() =~= front.push('.') + back.drop_last());
    }
}

/// A file name loses the last dot and what follows it, unless nothing stands
/// before that dot; a name without a dot stays as it is.
pub proof fn law_file_stem(front: Seq<char>, back: Seq<char>)
    requires
        !back.contains('.'),
        front.push('.') + back != ".."@,
    ensures
        stem_of(back) == back,
        stem_of(front.push('.') + back) == (if front.len() > 0 {
            front
        } else {
            seq!['.'] + back
        }),
        stem_of(".."@) == ".."@,
{
    lemma_last_dot(front, back);
    let all = front.push('.') + back;
    assert(all.take(front.len() as int) =~= front);
    if front.len() == 0 {
        assert(all =~= seq!['.'] + back);
    }
}

proof fn lemma_last_slash(front: Seq<char>, back: Seq<char>)
    requires
        !back.contains('/'),
    ensures
        last_slash(back) is None,
        last_slash(front.push('/') + back) == Some(front.len() as int),
    decreases back.len(),
{
    let all = front.push('/') + back;
    if back.len() == 0 {
        assert(all =~= front.push('/'));
    } else {
        assert(back[back.len() - 1] != '/');
        assert forall|i: int| 0 <= i < back.len() - 1 implies back.drop_last()[i] != '/' by {
            assert(back.contains(back[i]));
        }
        lemma_last_slash(front, back.drop_last());
        assert(all.drop_last() =~= front.push('/') + back.drop_last());
    }
}

/// The name of a path is what stands behind its last slash. A slash, or a
/// slash and a dot, at the end change nothing, and a path that ends in two
/// dots has no name.
pub proof fn law_file_name(dir: Seq<char>, name: Seq<char>)
    requires
        !name.contains('/'),
        name.len() > 0,
        name != "."@,
        name != ".."@,
    ensures
        file_name_of(name) == Some(name),
        file_name_of(dir + "/"@ + name) == Some(name),
        file_name_of(dir + "/"@) == file_name_of(dir),
        file_name_of(dir + "/."@) == file_name_of(dir),
        file_name_of(dir + "/.."@) is None,
        file_name_of(Seq::empty()) is None,
        file_name_of("."@) is None,
        file_name_of(".."@) is None,
        shown_name(dir + "/"@ + name) == name,
        shown_name("/"@) == "/"@,
{
    reveal_strlit("/");
    reveal_strlit("/.");
    reveal_strlit("/..");
    reveal_strlit(".");
    reveal_strlit("..");
    let none = Seq::<char>::empty();
    assert(".."@.len() == 2 && "."@.len() == 1);
    assert(!"."@.contains('/'));
    assert(!".."@.contains('/'));
    lemma_last_slash(dir, name);
    lemma_last_slash(dir, none);
    lemma_last_slash(dir, "."@);
    lemma_last_slash(dir, ".."@);
    lemma_last_slash(none, none);
    let below = dir.push('/') + name;
    assert(dir + "/"@ + name =~= below);
    assert(below.skip(dir.len() as int + 1) =~= name);
    let closed = dir.push('/') + none;
    assert(dir + "/"@ =~= closed);
    assert(closed.skip(dir.len() as int + 1) =~= none);
    assert(closed.take(dir.len() as int) =~= dir);
    let dotted = dir.push('/') + "."@;
    assert(dir + "/."@ =~= dotted);
    assert(dotted.skip(dir.len() as int + 1) =~= "."@);
    assert(dotted.take(dir.len() as int) =~= dir);
    let up = dir.push('/') + ".."@;
    assert(dir + "/.."@ =~= up);
    assert(up.skip(dir.len() as int + 1) =~= ".."@);
    let root = none.push('/') + none;
    assert("/"@ =~= root);
    assert(root.skip(1) =~= none);
    assert(root.take(0) =~= none);
    assert(file_name_of(none) is None);
}

} // verus!
