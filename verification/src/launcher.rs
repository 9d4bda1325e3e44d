//! Finding, installing and starting the desktop program.
//!
//! Looking at files, downloading and starting programs are left to the caller.
use crate::agent::capabilities::texts;
use crate::paths::{join_path, joined};
use crate::text::{ascii_lower, chars_at, chars_of, opt_chars, text_ends, to_ascii_lower};
use vstd::prelude::*;

verus! {

/// The name of the program.
pub const DESKTOP_BINARY: &'static str = "codex-desktop";

/// The name that a downloaded image is installed under.
pub const IMAGE_NAME: &'static str = "Codex.AppImage";

/// The place of the first question mark at or behind `pos`, or the length of
/// the text.
pub open spec fn query_start(url: Seq<char>, pos: int) -> int
    decreases url.len() - pos,
{
    if pos < 0 || pos >= url.len() {
        url.len() as int
    } else if url[pos] == '?' {
        pos
    } else {
        query_start(url, pos + 1)
    }
}

/// Whether a URL names an image: whether it ends in `.appimage`, in capitals
/// or not, before any query.
pub open spec fn is_image_url(url: Seq<char>) -> bool {
    text_ends(ascii_lower(url).take(query_start(ascii_lower(url), 0)), ".appimage"@)
}

/// Whether a URL names an image.
pub fn looks_like_appimage_url(url: &str) -> (r: bool)
    ensures
        r == is_image_url(url@),
{
    let lower = to_ascii_lower(&chars_of(url));
    let mut end: usize = 0;
    while end < lower.len() && lower[end] != '?'
        invariant
            end <= lower.len(),
            query_start(lower@, end as int) == query_start(lower@, 0),
        decreases lower.len() - end,
    {
        end = end + 1;
    }
    let ghost front = lower@.take(end as int);
    let suffix = chars_of(".appimage");
    if suffix.len() > end {
        return false;
    }
    let at = end - suffix.len();
    let mut head = lower;
    head.truncate(end);
    assert(head@ =~= front);
    chars_at(&head, at, &suffix)
}

/// The directories below a home directory in which images are looked for.
pub open spec fn image_dirs(home: Seq<char>) -> Seq<Seq<char>> {
    seq![
        joined(home, "Applications"@),
        joined(joined(home, ".local"@), "bin"@),
        joined(joined(joined(home, ".local"@), "share"@), "applications"@),
    ]
}

/// The directories below a home directory in which images are looked for.
pub fn appimage_search_dirs(home: &str) -> (r: Vec<String>)
    ensures
        texts(r@) == image_dirs(home@),
{
    let local = join_path(home, ".local");
    let mut out: Vec<String> = Vec::new();
    out.push(join_path(home, "Applications"));
    out.push(join_path(local.as_str(), "bin"));
    out.push(join_path(join_path(local.as_str(), "share").as_str(), "applications"));
    assert(texts(out@) =~= image_dirs(home@));
    out
}

/// The names that images are looked for under.
pub open spec fn image_names(dir: Seq<char>) -> Seq<Seq<char>> {
    seq![
        joined(dir, "Codex.AppImage"@),
        joined(dir, "codex.AppImage"@),
        joined(dir, "Codex-Desktop.AppImage"@),
    ]
}

/// The places below a home directory where the program may be.
pub open spec fn home_places(home: Seq<char>) -> Seq<Seq<char>> {
    seq![
        joined(joined(joined(home, ".local"@), "bin"@), "codex-desktop"@),
        joined(joined(joined(home, ".cargo"@), "bin"@), "codex-desktop"@),
    ] + image_names(image_dirs(home)[0]) + image_names(image_dirs(home)[1]) + image_names(
        image_dirs(home)[2],
    )
}

/// The places where the program may be, best first: what the search path
/// gives, the places of the system, the places of the user.
pub open spec fn places(from_path: Option<Seq<char>>, home: Option<Seq<char>>) -> Seq<Seq<char>> {
    (match from_path {
        Some(path) => seq![path],
        None => Seq::empty(),
    }) + seq!["/usr/local/bin/codex-desktop"@, "/usr/bin/codex-desktop"@] + (match home {
        Some(home) => home_places(home),
        None => Seq::empty(),
    })
}

fn push_place(out: &mut Vec<String>, place: String)
    ensures
        texts(final(out)@) == texts(old(out)@).push(place@),
{
    let ghost before = texts(out@);
    let ghost new = place@;
    out.push(place);
    assert(texts(out@) =~= before.push(new));
}

fn push_images(out: &mut Vec<String>, dir: &str)
    ensures
        texts(final(out)@) == texts(old(out)@) + image_names(dir@),
{
    let ghost before = texts(out@);
    push_place(out, join_path(dir, "Codex.AppImage"));
    push_place(out, join_path(dir, "codex.AppImage"));
    push_place(out, join_path(dir, "Codex-Desktop.AppImage"));
    assert(texts(out@) =~= before + image_names(dir@));
}

/// The places where the program may be, best first. `from_path` is where the
/// search path has it, `home` the home directory.
pub fn candidate_codex_desktop_launchers(from_path: Option<&str>, home: Option<&str>) -> (r: Vec<
    String,
>)
    ensures
        texts(r@) == places(opt_chars(from_path), opt_chars(home)),
{
    let mut out: Vec<String> = Vec::new();
    assert(texts(out@) =~= Seq::<Seq<char>>::empty());
    if let Some(path) = from_path {
        push_place(&mut out, path.to_owned());
    }
    let ghost front = texts(out@);
    push_place(&mut out, "/usr/local/bin/codex-desktop".to_owned());
    push_place(&mut out, "/usr/bin/codex-desktop".to_owned());
    let ghost system = texts(out@);
    if let Some(home) = home {
        let local = join_path(join_path(home, ".local").as_str(), "bin");
        let cargo = join_path(join_path(home, ".cargo").as_str(), "bin");
        push_place(&mut out, join_path(local.as_str(), "codex-desktop"));
        push_place(&mut out, join_path(cargo.as_str(), "codex-desktop"));
        let dirs = appimage_search_dirs(home);
        assert(dirs.len() == texts(dirs@).len());
        assert(texts(dirs@)[0] == dirs@[0]@);
        assert(texts(dirs@)[1] == dirs@[1]@);
        assert(texts(dirs@)[2] == dirs@[2]@);
        push_images(&mut out, dirs[0].as_str());
        push_images(&mut out, dirs[1].as_str());
        push_images(&mut out, dirs[2].as_str());
        assert(texts(out@) =~= system + home_places(home@));
    }
    assert(texts(out@) =~= places(opt_chars(from_path), opt_chars(home)));
    out
}

/// The places where the directories of the search path may have a program.
pub fn path_candidates(entries: &Vec<String>, program: &str) -> (r: Vec<String>)
    ensures
        texts(r@) == Seq::new(
            entries@.len(),
            |i: int| joined(entries@[i]@, program@),
        ),
{
    let mut out: Vec<String> = Vec::new();
    let mut i: usize = 0;
    while i < entries.len()
        invariant
            i <= entries.len(),
            out.len() == i,
            forall|k: int|
                0 <= k < i ==> (#[trigger] out@[k])@ == joined(entries@[k]@, program@),
        decreases entries.len() - i,
    {
        out.push(join_path(entries[i].as_str(), program));
        i = i + 1;
    }
    assert(texts(out@) =~= Seq::new(entries@.len(), |i: int| joined(entries@[i]@, program@)));
    out
}

/// The first place that can be started. `flags` says of each place whether it
/// can.
pub fn first_executable(flags: &Vec<bool>) -> (r: Option<usize>)
    ensures
        match r {
            Some(i) => i < flags.len() && flags@[i as int] && forall|k: int|
                0 <= k < i ==> !#[trigger] flags@[k],
            None => forall|k: int| 0 <= k < flags.len() ==> !#[trigger] flags@[k],
        },
{
    let mut i: usize = 0;
    while i < flags.len()
        invariant
            i <= flags.len(),
            forall|k: int| 0 <= k < i ==> !#[trigger] flags@[k],
        decreases flags.len() - i,
    {
        if flags[i] {
            return Some(i);
        }
        i = i + 1;
    }
    None
}

/// Whether a file can be started: whether it is a plain file that somebody
/// may execute.
pub fn is_executable(is_file: bool, mode: u32) -> (r: bool)
    ensures
        r == (is_file && mode & 0o111 != 0),
{
    is_file && mode & 0o111 != 0
}

/// The mode of a file once it was made executable.
pub fn executable_mode(mode: u32) -> (r: u32)
    ensures
        r == mode | 0o755,
{
    mode | 0o755
}

/// What was made executable can be started, and no right is taken away.
pub proof fn law_made_executable(mode: u32)
    ensures
        (mode | 0o755) & 0o111 != 0,
        (mode | 0o755) & mode == mode,
{
    assert((mode | 0o755u32) & 0o111u32 != 0) by (bit_vector);
    assert((mode | 0o755u32) & mode == mode) by (bit_vector);
}

/// What to do to open the program.
#[derive(Debug, PartialEq, Eq)]
pub enum LaunchPlan {
    /// Start the program at this place.
    Open(String),
    /// Download the image at this URL, install it and start it.
    Download(String),
    /// Say that the URL names no image.
    Refuse(String),
    /// Say how the program can be had.
    Explain,
}

/// What is said of a URL that names no image.
pub open spec fn refusal_text(url: Seq<char>) -> Seq<char> {
    "--download-url must point to a .AppImage you trust; got "@ + url
        + ".\nFor .deb/.rpm packages, install them with your distro's package manager and re-run `codex app`."@
}

/// Decides how to open the program. `found` is where it is installed,
/// `download_url` where it may be downloaded.
pub fn plan_launch(found: Option<&str>, download_url: Option<&str>) -> (r: LaunchPlan)
    ensures
        match (found, download_url) {
            (Some(place), _) => r matches LaunchPlan::Open(p) && p@ == place@,
            (None, Some(url)) => if is_image_url(url@) {
                r matches LaunchPlan::Download(u) && u@ == url@
            } else {
                r matches LaunchPlan::Refuse(why) && why@ == refusal_text(url@)
            },
            (None, None) => r is Explain,
        },
{
    match found {
        Some(place) => LaunchPlan::Open(place.to_owned()),
        None => match download_url {
            Some(url) => if looks_like_appimage_url(url) {
                LaunchPlan::Download(url.to_owned())
            } else {
                let mut why = "--download-url must point to a .AppImage you trust; got ".to_owned();
                why.append(url);
                why.append(
                    ".\nFor .deb/.rpm packages, install them with your distro's package manager and re-run `codex app`.",
                );
                LaunchPlan::Refuse(why)
            },
            None => LaunchPlan::Explain,
        },
    }
}

/// The directory that images are installed in.
pub fn appimage_install_dir(home: &str) -> (r: String)
    ensures
        r@ == joined(joined(home@, ".local"@), "bin"@),
{
    join_path(join_path(home, ".local").as_str(), "bin")
}

/// The place that an image is installed at.
pub fn install_place(home: &str) -> (r: String)
    ensures
        r@ == joined(joined(joined(home@, ".local"@), "bin"@), "Codex.AppImage"@),
{
    join_path(appimage_install_dir(home).as_str(), "Codex.AppImage")
}

/// An image that was installed is looked for where it was installed.
pub proof fn law_installed_is_looked_for(from_path: Option<Seq<char>>, home: Seq<char>)
    ensures
        places(from_path, Some(home)).contains(
            joined(joined(joined(home, ".local"@), "bin"@), "Codex.AppImage"@),
        ),
{
    let all = places(from_path, Some(home));
    let n: int = if from_path is Some {
        1
    } else {
        0
    };
    let tail = home_places(home);
    assert(tail[5] == image_names(image_dirs(home)[1])[0]);
    assert(all[n + 2 + 5] == tail[5]);
}

proof fn lemma_query(front: Seq<char>, back: Seq<char>, pos: int)
    requires
        !front.contains('?'),
        0 <= pos <= front.len(),
    ensures
        query_start(front, pos) == front.len(),
        query_start(front.push('?') + back, pos) == front.len(),
    decreases front.len() - pos,
{
    let all = front.push('?') + back;
    assert(all[front.len() as int] == '?');
    if pos < front.len() {
        assert(front.contains(front[pos]));
        assert(all[pos] == front[pos]);
        lemma_query(front, back, pos + 1);
    }
}

/// A URL names an image exactly where what stands before its query ends in
/// `.appimage`, in capitals or not; the query itself does not matter.
pub proof fn law_image_url(front: Seq<char>, suffix: Seq<char>, query: Seq<char>, other: Seq<char>)
    requires
        !front.contains('?'),
        !other.contains('?'),
        ascii_lower(suffix) == ".appimage"@,
    ensures
        is_image_url(front + suffix),
        is_image_url((front + suffix).push('?') + query),
        is_image_url(other.push('?') + query) == is_image_url(other),
        is_image_url(other) ==> other.len() >= 9 && ascii_lower(other.skip(other.len() - 9))
            == ".appimage"@,
{
    reveal_strlit(".appimage");
    assert(".appimage"@.len() == 9);
    let url = front + suffix;
    assert forall|i: int| 0 <= i < suffix.len() implies suffix[i] != '?' by {
        assert(ascii_lower(suffix)[i] != '?');
    }
    assert forall|i: int| 0 <= i < url.len() implies url[i] != '?' by {
        if i < front.len() {
            assert(front.contains(front[i]));
        } else {
            assert(url[i] == suffix[i - front.len()]);
        }
    }
    lemma_image_url(url, query);
    lemma_image_url(other, query);
    assert(ascii_lower(url).skip(url.len() - 9) =~= ascii_lower(suffix));
    assert(ascii_lower(url).subrange(url.len() - 9, url.len() as int) =~= ascii_lower(suffix));
    if is_image_url(other) {
        assert(ascii_lower(other.skip(other.len() - 9)) =~= ".appimage"@);
    }
}

proof fn lemma_image_url(url: Seq<char>, query: Seq<char>)
    requires
        !url.contains('?'),
    ensures
        is_image_url(url) == text_ends(ascii_lower(url), ".appimage"@),
        is_image_url(url.push('?') + query) == text_ends(ascii_lower(url), ".appimage"@),
{
    let lower = ascii_lower(url);
    let all = url.push('?') + query;
    assert forall|i: int| 0 <= i < lower.len() implies lower[i] != '?' by {
        assert(url.contains(url[i]));
    }
    assert(ascii_lower(all) =~= lower.push('?') + ascii_lower(query));
    lemma_query(lower, ascii_lower(query), 0);
    assert(lower.take(lower.len() as int) =~= lower);
    assert(ascii_lower(all).take(lower.len() as int) =~= lower);
}

/// Where the program is looked for, in order, below a home directory that
/// does not end in a slash: what the search path gives comes first, the two
/// places of the system next, and the places of the user last.
pub proof fn law_places(path: Seq<char>, home: Seq<char>)
    requires
        home.len() > 0,
        home.last() != '/',
    ensures
        places(None, None) == seq!["/usr/local/bin/codex-desktop"@, "/usr/bin/codex-desktop"@],
        places(Some(path), None) == seq![path] + places(None, None),
        places(None, Some(home)) == seq![
            "/usr/local/bin/codex-desktop"@,
            "/usr/bin/codex-desktop"@,
            home + "/.local/bin/codex-desktop"@,
            home + "/.cargo/bin/codex-desktop"@,
            home + "/Applications/Codex.AppImage"@,
            home + "/Applications/codex.AppImage"@,
            home + "/Applications/Codex-Desktop.AppImage"@,
            home + "/.local/bin/Codex.AppImage"@,
            home + "/.local/bin/codex.AppImage"@,
            home + "/.local/bin/Codex-Desktop.AppImage"@,
            home + "/.local/share/applications/Codex.AppImage"@,
            home + "/.local/share/applications/codex.AppImage"@,
            home + "/.local/share/applications/Codex-Desktop.AppImage"@,
        ],
        places(Some(path), Some(home)) == seq![path] + places(None, Some(home)),
        image_dirs(home) == seq![
            home + "/Applications"@,
            home + "/.local/bin"@,
            home + "/.local/share/applications"@,
        ],
{
    lemma_dirs(home);
    lemma_images(home + "/Applications"@, home, "/Applications"@);
    lemma_images(home + "/.local/bin"@, home, "/.local/bin"@);
    lemma_images(home + "/.local/share/applications"@, home, "/.local/share/applications"@);
    assert("/Applications"@ + "/Codex.AppImage"@ =~= "/Applications/Codex.AppImage"@) by {
        reveal_strlit("/Applications");
        reveal_strlit("/Codex.AppImage");
        reveal_strlit("/Applications/Codex.AppImage");
    }
    assert("/Applications"@ + "/codex.AppImage"@ =~= "/Applications/codex.AppImage"@) by {
        reveal_strlit("/Applications");
        reveal_strlit("/codex.AppImage");
        reveal_strlit("/Applications/codex.AppImage");
    }
    assert("/Applications"@ + "/Codex-Desktop.AppImage"@
        =~= "/Applications/Codex-Desktop.AppImage"@) by {
        reveal_strlit("/Applications");
        reveal_strlit("/Codex-Desktop.AppImage");
        reveal_strlit("/Applications/Codex-Desktop.AppImage");
    }
    assert("/.local/bin"@ + "/Codex.AppImage"@ =~= "/.local/bin/Codex.AppImage"@) by {
        reveal_strlit("/.local/bin");
        reveal_strlit("/Codex.AppImage");
        reveal_strlit("/.local/bin/Codex.AppImage");
    }
    assert("/.local/bin"@ + "/codex.AppImage"@ =~= "/.local/bin/codex.AppImage"@) by {
        reveal_strlit("/.local/bin");
        reveal_strlit("/codex.AppImage");
        reveal_strlit("/.local/bin/codex.AppImage");
    }
    assert("/.local/bin"@ + "/Codex-Desktop.AppImage"@
        =~= "/.local/bin/Codex-Desktop.AppImage"@) by {
        reveal_strlit("/.local/bin");
        reveal_strlit("/Codex-Desktop.AppImage");
        reveal_strlit("/.local/bin/Codex-Desktop.AppImage");
    }
    assert("/.local/share/applications"@ + "/Codex.AppImage"@
        =~= "/.local/share/applications/Codex.AppImage"@) by {
        reveal_strlit("/.local/share/applications");
        reveal_strlit("/Codex.AppImage");
        reveal_strlit("/.local/share/applications/Codex.AppImage");
    }
    assert("/.local/share/applications"@ + "/codex.AppImage"@
        =~= "/.local/share/applications/codex.AppImage"@) by {
        reveal_strlit("/.local/share/applications");
        reveal_strlit("/codex.AppImage");
        reveal_strlit("/.local/share/applications/codex.AppImage");
    }
    assert("/.local/share/applications"@ + "/Codex-Desktop.AppImage"@
        =~= "/.local/share/applications/Codex-Desktop.AppImage"@) by {
        reveal_strlit("/.local/share/applications");
        reveal_strlit("/Codex-Desktop.AppImage");
        reveal_strlit("/.local/share/applications/Codex-Desktop.AppImage");
    }
    assert(home_places(home).len() == 11);
}

proof fn lemma_dirs(home: Seq<char>)
    requires
        home.len() > 0,
        home.last() != '/',
    ensures
        image_dirs(home) == seq![
            home + "/Applications"@,
            home + "/.local/bin"@,
            home + "/.local/share/applications"@,
        ],
        joined(joined(joined(home, ".local"@), "bin"@), "codex-desktop"@) == home
            + "/.local/bin/codex-desktop"@,
        joined(joined(joined(home, ".cargo"@), "bin"@), "codex-desktop"@) == home
            + "/.cargo/bin/codex-desktop"@,
{
    reveal_strlit("Applications");
    reveal_strlit(".local");
    reveal_strlit(".cargo");
    reveal_strlit("bin");
    reveal_strlit("share");
    reveal_strlit("applications");
    reveal_strlit("codex-desktop");
    reveal_strlit("/Applications");
    reveal_strlit("/.local/bin");
    reveal_strlit("/.local/share/applications");
    reveal_strlit("/.local/bin/codex-desktop");
    reveal_strlit("/.cargo/bin/codex-desktop");
    let local = joined(home, ".local"@);
    let cargo = joined(home, ".cargo"@);
    assert(local.last() == 'l' && cargo.last() == 'o');
    assert(joined(home, "Applications"@) =~= home + "/Applications"@);
    assert(joined(local, "bin"@) =~= home + "/.local/bin"@);
    let share = joined(local, "share"@);
    assert(share.last() == 'e');
    assert(joined(share, "applications"@) =~= home + "/.local/share/applications"@);
    let bin = joined(local, "bin"@);
    assert(bin.last() == 'n');
    assert(joined(bin, "codex-desktop"@) =~= home + "/.local/bin/codex-desktop"@);
    let tools = joined(cargo, "bin"@);
    assert(tools.last() == 'n');
    assert(joined(tools, "codex-desktop"@) =~= home + "/.cargo/bin/codex-desktop"@);
}

proof fn lemma_images(dir: Seq<char>, home: Seq<char>, below: Seq<char>)
    requires
        dir == home + below,
        below == "/Applications"@ || below == "/.local/bin"@ || below
            == "/.local/share/applications"@,
    ensures
        image_names(dir) == seq![
            home + (below + "/Codex.AppImage"@),
            home + (below + "/codex.AppImage"@),
            home + (below + "/Codex-Desktop.AppImage"@),
        ],
{
    reveal_strlit("/Applications");
    reveal_strlit("/.local/bin");
    reveal_strlit("/.local/share/applications");
    reveal_strlit("Codex.AppImage");
    reveal_strlit("codex.AppImage");
    reveal_strlit("Codex-Desktop.AppImage");
    reveal_strlit("/Codex.AppImage");
    reveal_strlit("/codex.AppImage");
    reveal_strlit("/Codex-Desktop.AppImage");
    assert(dir.len() > 0);
    assert(dir.last() == below.last());
    assert(dir.last() != '/');
    assert(joined(dir, "Codex.AppImage"@) =~= home + (below + "/Codex.AppImage"@));
    assert(joined(dir, "codex.AppImage"@) =~= home + (below + "/codex.AppImage"@));
    assert(joined(dir, "Codex-Desktop.AppImage"@) =~= home + (below + "/Codex-Desktop.AppImage"@));
}

/// The rights that a file gains by being made executable: its owner may do
/// everything, all others read and execute, and nothing else is added.
pub proof fn law_rights_gained(mode: u32)
    ensures
        (mode | 0o755) & 0o777 == (mode & 0o022) | 0o755,
        (mode | 0o755) & !0o777u32 == mode & !0o777u32,
{
    assert((mode | 0o755) & 0o777 == (mode & 0o022) | 0o755) by (bit_vector);
    assert((mode | 0o755) & !0o777u32 == mode & !0o777u32) by (bit_vector);
}

/// What is said of a URL that names no image names that URL.
pub proof fn law_refusal_text(url: Seq<char>)
    ensures
        refusal_text(url) == "--download-url must point to a .AppImage you trust; got "@ + url
            + ".\nFor .deb/.rpm packages, install them with your distro's package manager and re-run `codex app`."@,
{
}

/// The names of the program and of its image.
pub proof fn law_program_names()
    ensures
        DESKTOP_BINARY@ == "codex-desktop"@,
        IMAGE_NAME@ == "Codex.AppImage"@,
{
}

} // verus!
