//! The command palette: which files and commands a query offers, and what the
//! window does for the one that is picked.
use crate::agent::capabilities::texts;
use crate::paths::{file_name, file_name_of, law_file_name};
use crate::text::{
    chars_at, chars_contain, chars_of, law_contains, law_starts_and_ends, same_text, text_contains,
    text_starts,
};
use vstd::prelude::*;

verus! {

/// How many directories deep files are collected.
pub const FILE_WALK_DEPTH: usize = 5;

/// How many files are collected.
pub const MAX_FILES: usize = 1024;

/// What a row of the palette stands for.
#[derive(Debug, PartialEq, Eq)]
pub enum CommandPaletteAction {
    /// Open the file at this path.
    OpenFile(String),
    /// Switch the setting of this name.
    Toggle(&'static str),
    /// Nothing.
    NoOp,
}

/// What a row of the palette stands for, with strings taken by their
/// characters.
pub enum ActionView {
    OpenFile(Seq<char>),
    Toggle(Seq<char>),
    NoOp,
}

impl CommandPaletteAction {
    /// What the row stands for.
    pub open spec fn view(&self) -> ActionView {
        match self {
            CommandPaletteAction::OpenFile(path) => ActionView::OpenFile(path@),
            CommandPaletteAction::Toggle(name) => ActionView::Toggle(name@),
            CommandPaletteAction::NoOp => ActionView::NoOp,
        }
    }
}

impl Clone for CommandPaletteAction {
    fn clone(&self) -> (r: Self)
        ensures
            r@ == self@,
    {
        match self {
            CommandPaletteAction::OpenFile(path) => CommandPaletteAction::OpenFile(path.clone()),
            CommandPaletteAction::Toggle(name) => CommandPaletteAction::Toggle(name),
            CommandPaletteAction::NoOp => CommandPaletteAction::NoOp,
        }
    }
}

/// What the palette offers.
#[derive(Debug, Clone, Copy, PartialEq, Eq, Structural)]
pub enum PaletteMode {
    Files,
    Commands,
}

/// A string in small letters.
pub uninterp spec fn lowercase(s: Seq<char>) -> Seq<char>;

/// Calls `str::to_lowercase`, which replaces capitals by small letters as
/// Unicode has them. The result depends on the string alone.
#[verifier::external_body]
pub(crate) fn to_lower(s: &str) -> (r: String)
    ensures
        r@ == lowercase(s@),
{
    s.to_lowercase()
}

/// How well a file matches a query.
#[derive(Debug, Clone, Copy, PartialEq, Eq, Structural)]
pub enum MatchRank {
    /// Its name begins with the query.
    Prefix,
    /// Its path has the query elsewhere.
    Substring,
    /// It does not match.
    NoMatch,
}

/// How well a file matches, by its path, its name and the query in small
/// letters.
pub open spec fn rank_of(path: Seq<char>, name: Seq<char>, query: Seq<char>) -> MatchRank {
    if text_starts(name, query) {
        MatchRank::Prefix
    } else if text_contains(path, query) {
        MatchRank::Substring
    } else {
        MatchRank::NoMatch
    }
}

/// How well a file matches, by its path, its name and the query in small
/// letters.
pub fn match_rank(path: &str, name: &str, query: &str) -> (r: MatchRank)
    ensures
        r == rank_of(path@, name@, query@),
{
    let query_chars = chars_of(query);
    if chars_at(&chars_of(name), 0, &query_chars) {
        MatchRank::Prefix
    } else if chars_contain(&chars_of(path), &query_chars) {
        MatchRank::Substring
    } else {
        MatchRank::NoMatch
    }
}

/// The name of a file in small letters, empty where it has none.
pub open spec fn lower_name(path: Seq<char>) -> Seq<char> {
    match file_name_of(path) {
        Some(name) => lowercase(name),
        None => Seq::empty(),
    }
}

/// How well a file matches a query.
pub open spec fn file_rank(path: Seq<char>, query: Seq<char>) -> MatchRank {
    rank_of(lowercase(path), lower_name(path), lowercase(query))
}

fn rank_file(path: &str, query_lower: &str, Ghost(query): Ghost<Seq<char>>) -> (r: MatchRank)
    requires
        query_lower@ == lowercase(query),
    ensures
        r == file_rank(path@, query),
{
    let lower = to_lower(path);
    let name = match file_name(path) {
        Some(name) => to_lower(name.as_str()),
        None => String::new(),
    };
    match_rank(lower.as_str(), name.as_str(), query_lower)
}

/// The files of a given rank, in order.
pub open spec fn ranked(files: Seq<Seq<char>>, query: Seq<char>, rank: MatchRank) -> Seq<Seq<char>>
    decreases files.len(),
{
    if files.len() == 0 {
        Seq::empty()
    } else if file_rank(files.last(), query) == rank {
        ranked(files.drop_last(), query, rank).push(files.last())
    } else {
        ranked(files.drop_last(), query, rank)
    }
}

/// The files that a query offers: those whose name begins with it, then those
/// that have it elsewhere in their path, each in order. An empty query offers all.
pub open spec fn offered_files(files: Seq<Seq<char>>, query: Seq<char>) -> Seq<Seq<char>> {
    if query.len() == 0 {
        files
    } else {
        ranked(files, query, MatchRank::Prefix) + ranked(files, query, MatchRank::Substring)
    }
}

fn push_path(out: &mut Vec<String>, path: &String)
    ensures
        texts(final(out)@) == texts(old(out)@).push(path@),
{
    let ghost before = texts(out@);
    out.push(path.clone());
    assert(texts(out@) =~= before.push(path@));
}

/// The files that a query offers.
pub fn filter_files(files: &Vec<String>, query: &str) -> (r: Vec<String>)
    ensures
        texts(r@) == offered_files(texts(files@), query@),
{
    let ghost views = texts(files@);
    let mut prefix: Vec<String> = Vec::new();
    let mut substring: Vec<String> = Vec::new();
    assert(texts(prefix@) =~= Seq::<Seq<char>>::empty());
    assert(texts(substring@) =~= Seq::<Seq<char>>::empty());
    let all = chars_of(query).len() == 0;
    let lower = to_lower(query);
    let mut i: usize = 0;
    assert(views.take(0) =~= Seq::<Seq<char>>::empty());
    while i < files.len()
        invariant
            i <= files.len(),
            views == texts(files@),
            lower@ == lowercase(query@),
            all ==> texts(prefix@) == views.take(i as int),
            all ==> texts(substring@) == Seq::<Seq<char>>::empty(),
            !all ==> texts(prefix@) == ranked(views.take(i as int), query@, MatchRank::Prefix),
            !all ==> texts(substring@) == ranked(
                views.take(i as int),
                query@,
                MatchRank::Substring,
            ),
        decreases files.len() - i,
    {
        let ghost longer = views.take(i + 1);
        assert(longer.drop_last() =~= views.take(i as int));
        assert(longer.last() == files@[i as int]@);
        assert(longer =~= views.take(i as int).push(files@[i as int]@));
        if all {
            push_path(&mut prefix, &files[i]);
        } else {
            match rank_file(files[i].as_str(), lower.as_str(), Ghost(query@)) {
                MatchRank::Prefix => push_path(&mut prefix, &files[i]),
                MatchRank::Substring => push_path(&mut substring, &files[i]),
                MatchRank::NoMatch => {},
            }
        }
        i = i + 1;
    }
    assert(views.take(files@.len() as int) =~= views);
    let ghost first = prefix@;
    let ghost second = substring@;
    prefix.append(&mut substring);
    assert(texts(prefix@) =~= texts(first) + texts(second));
    assert(all ==> texts(first) + texts(second) =~= views);
    prefix
}

/// The commands, in the order in which they are shown.
pub open spec fn command_list() -> Seq<(Seq<char>, ActionView)> {
    seq![
        ("Toggle Vim Mode"@, ActionView::Toggle("vim-mode"@)),
        ("Toggle Sidebar"@, ActionView::Toggle("sidebar"@)),
        ("Toggle Chat Pane"@, ActionView::Toggle("chat-pane"@)),
        ("Open Recent Workspace\u{2026}"@, ActionView::NoOp),
        ("Quit"@, ActionView::Toggle("quit"@)),
    ]
}

/// The names and actions of a run of commands.
pub open spec fn command_views(s: Seq<(&'static str, CommandPaletteAction)>) -> Seq<
    (Seq<char>, ActionView),
> {
    Seq::new(s.len(), |i: int| (s[i].0@, s[i].1@))
}

/// The commands, in the order in which they are shown.
pub fn default_commands() -> (r: Vec<(&'static str, CommandPaletteAction)>)
    ensures
        command_views(r@) == command_list(),
{
    let mut out: Vec<(&'static str, CommandPaletteAction)> = Vec::new();
    out.push(("Toggle Vim Mode", CommandPaletteAction::Toggle("vim-mode")));
    out.push(("Toggle Sidebar", CommandPaletteAction::Toggle("sidebar")));
    out.push(("Toggle Chat Pane", CommandPaletteAction::Toggle("chat-pane")));
    out.push(("Open Recent Workspace\u{2026}", CommandPaletteAction::NoOp));
    out.push(("Quit", CommandPaletteAction::Toggle("quit")));
    assert(command_views(out@) =~= command_list());
    out
}

/// Whether a query offers a command, by its name and the query in small
/// letters.
pub fn name_matches(name: &str, query: &str) -> (r: bool)
    ensures
        r == text_contains(name@, query@),
{
    chars_contain(&chars_of(name), &chars_of(query))
}

/// The commands that a query offers: those whose names have it, in capitals
/// or not, in order. An empty query offers all.
pub open spec fn offered_commands(
    commands: Seq<(Seq<char>, ActionView)>,
    query: Seq<char>,
) -> Seq<(Seq<char>, ActionView)>
    decreases commands.len(),
{
    if commands.len() == 0 {
        Seq::empty()
    } else if query.len() == 0 || text_contains(
        lowercase(commands.last().0),
        lowercase(query),
    ) {
        offered_commands(commands.drop_last(), query).push(commands.last())
    } else {
        offered_commands(commands.drop_last(), query)
    }
}

/// The commands that a query offers.
pub fn filter_commands(commands: &Vec<(&'static str, CommandPaletteAction)>, query: &str) -> (r:
    Vec<(&'static str, CommandPaletteAction)>)
    ensures
        command_views(r@) == offered_commands(command_views(commands@), query@),
{
    let ghost views = command_views(commands@);
    let mut out: Vec<(&'static str, CommandPaletteAction)> = Vec::new();
    assert(command_views(out@) =~= Seq::<(Seq<char>, ActionView)>::empty());
    let all = chars_of(query).len() == 0;
    let lower = to_lower(query);
    let mut i: usize = 0;
    assert(views.take(0) =~= Seq::<(Seq<char>, ActionView)>::empty());
    while i < commands.len()
        invariant
            i <= commands.len(),
            views == command_views(commands@),
            all == (query@.len() == 0),
            lower@ == lowercase(query@),
            command_views(out@) == offered_commands(views.take(i as int), query@),
        decreases commands.len() - i,
    {
        let ghost longer = views.take(i + 1);
        let ghost before = command_views(out@);
        assert(longer.drop_last() =~= views.take(i as int));
        assert(longer.last() == views[i as int]);
        let name: &'static str = commands[i].0;
        if all || name_matches(to_lower(name).as_str(), lower.as_str()) {
            out.push((name, commands[i].1.clone()));
            assert(command_views(out@) =~= before.push(views[i as int]));
        }
        i = i + 1;
    }
    assert(views.take(commands@.len() as int) =~= views);
    out
}

/// The rows of the palette: what is shown, and what each row stands for.
pub open spec fn row_views(s: Seq<(String, CommandPaletteAction)>) -> Seq<(Seq<char>, ActionView)> {
    Seq::new(s.len(), |i: int| (s[i].0@, s[i].1@))
}

/// The rows that a query gives.
pub open spec fn palette_view(
    mode: PaletteMode,
    files: Seq<Seq<char>>,
    query: Seq<char>,
) -> Seq<(Seq<char>, ActionView)> {
    match mode {
        PaletteMode::Files => offered_files(files, query).map_values(
            |path: Seq<char>| (path, ActionView::OpenFile(path)),
        ),
        PaletteMode::Commands => offered_commands(command_list(), query),
    }
}

/// The rows that a query gives.
pub fn palette_rows(mode: PaletteMode, files: &Vec<String>, query: &str) -> (r: Vec<
    (String, CommandPaletteAction),
>)
    ensures
        row_views(r@) == palette_view(mode, texts(files@), query@),
{
    let mut out: Vec<(String, CommandPaletteAction)> = Vec::new();
    match mode {
        PaletteMode::Files => {
            let found = filter_files(files, query);
            let mut i: usize = 0;
            while i < found.len()
                invariant
                    i <= found.len(),
                    out.len() == i,
                    forall|k: int|
                        0 <= k < i ==> (#[trigger] out@[k]).0@ == found@[k]@ && out@[k].1@
                            == ActionView::OpenFile(found@[k]@),
                decreases found.len() - i,
            {
                out.push((found[i].clone(), CommandPaletteAction::OpenFile(found[i].clone())));
                i = i + 1;
            }
            proof {
                let views = texts(found@);
                assert(row_views(out@) =~= views.map_values(
                    |path: Seq<char>| (path, ActionView::OpenFile(path)),
                ));
            }
        },
        PaletteMode::Commands => {
            let commands = default_commands();
            let found = filter_commands(&commands, query);
            let mut i: usize = 0;
            while i < found.len()
                invariant
                    i <= found.len(),
                    out.len() == i,
                    forall|k: int|
                        0 <= k < i ==> (#[trigger] out@[k]).0@ == found@[k].0@ && out@[k].1@
                            == found@[k].1@,
                decreases found.len() - i,
            {
                out.push((found[i].0.to_owned(), found[i].1.clone()));
                i = i + 1;
            }
            assert(row_views(out@) =~= command_views(found@));
        },
    }
    out
}

/// The action of a row that was activated.
pub fn activated(rows: &Vec<(String, CommandPaletteAction)>, index: usize) -> (r: Option<
    CommandPaletteAction,
>)
    ensures
        match r {
            Some(action) => index < rows.len() && action@ == rows@[index as int].1@,
            None => index >= rows.len(),
        },
{
    if index < rows.len() {
        Some(rows[index].1.clone())
    } else {
        None
    }
}

/// What the window does.
#[derive(Debug, PartialEq, Eq)]
pub enum WindowCommand {
    /// Open the file at this path in a tab.
    Open(String),
    /// Switch modal editing on or off in every tab, and say so.
    SetVim { on: bool, toast: &'static str },
    /// Show or hide the sidebar.
    ToggleSidebar,
    /// Show or hide the chat.
    ToggleChat,
    /// Close the window.
    Close,
    /// Nothing.
    Nothing,
}

/// Whether any tab has modal editing on.
pub open spec fn any_on(tabs: Seq<bool>) -> bool {
    exists|i: int| 0 <= i < tabs.len() && #[trigger] tabs[i]
}

/// Whether `command` is what the window does for an action.
pub open spec fn is_command(command: WindowCommand, action: ActionView, vim: Seq<bool>) -> bool {
    match action {
        ActionView::OpenFile(path) => command matches WindowCommand::Open(p) && p@ == path,
        ActionView::Toggle(name) => if name == "vim-mode"@ {
            command matches WindowCommand::SetVim { on, toast } && on == !any_on(vim) && toast@ == (
            if on {
                "Vim mode: ON"@
            } else {
                "Vim mode: OFF"@
            })
        } else if name == "sidebar"@ {
            command is ToggleSidebar
        } else if name == "chat-pane"@ {
            command is ToggleChat
        } else if name == "quit"@ {
            command is Close
        } else {
            command is Nothing
        },
        ActionView::NoOp => command is Nothing,
    }
}

/// Decides what the window does for an action. `vim` says of each tab whether
/// modal editing is on.
pub fn window_command(action: &CommandPaletteAction, vim: &Vec<bool>) -> (r: WindowCommand)
    ensures
        is_command(r, action@, vim@),
{
    match action {
        CommandPaletteAction::OpenFile(path) => WindowCommand::Open(path.clone()),
        CommandPaletteAction::Toggle(name) => if same_text(name, "vim-mode") {
            let mut any = false;
            let mut i: usize = 0;
            while i < vim.len()
                invariant
                    i <= vim.len(),
                    any == any_on(vim@.take(i as int)),
                decreases vim.len() - i,
            {
                proof {
                    let front = vim@.take(i as int);
                    let wider = vim@.take(i + 1);
                    if any_on(front) {
                        let w = choose|w: int| 0 <= w < front.len() && #[trigger] front[w];
                        assert(wider[w]);
                    }
                    if vim@[i as int] {
                        assert(wider[i as int]);
                    }
                    if any_on(wider) {
                        let w = choose|w: int| 0 <= w < wider.len() && #[trigger] wider[w];
                        if w < i {
                            assert(front[w]);
                        }
                    }
                }
                any = any || vim[i];
                i = i + 1;
            }
            assert(vim@.take(vim@.len() as int) =~= vim@);
            let on = !any;
            WindowCommand::SetVim {
                on,
                toast: if on {
                    "Vim mode: ON"
                } else {
                    "Vim mode: OFF"
                },
            }
        } else if same_text(name, "sidebar") {
            WindowCommand::ToggleSidebar
        } else if same_text(name, "chat-pane") {
            WindowCommand::ToggleChat
        } else if same_text(name, "quit") {
            WindowCommand::Close
        } else {
            WindowCommand::Nothing
        },
        CommandPaletteAction::NoOp => WindowCommand::Nothing,
    }
}

proof fn lemma_ranked(files: Seq<Seq<char>>, query: Seq<char>, rank: MatchRank, file: Seq<char>)
    ensures
        ranked(files, query, rank).contains(file) <==> files.contains(file) && file_rank(file, query)
            == rank,
        ranked(files, query, rank).len() <= files.len(),
    decreases files.len(),
{
    if files.len() > 0 {
        let front = files.drop_last();
        let kept = ranked(front, query, rank);
        let now = ranked(files, query, rank);
        lemma_ranked(front, query, rank, file);
        if front.contains(file) {
            let w = choose|w: int| 0 <= w < front.len() && front[w] == file;
            assert(files[w] == file);
        }
        if files.contains(file) {
            let w = choose|w: int| 0 <= w < files.len() && files[w] == file;
            if w < front.len() {
                assert(front[w] == file);
            }
        }
        if file_rank(files.last(), query) == rank {
            assert(now[now.len() - 1] == files.last());
            assert(now =~= kept.push(files.last()));
            if kept.contains(file) {
                let w = choose|w: int| 0 <= w < kept.len() && kept[w] == file;
                assert(now[w] == file);
            }
            if now.contains(file) {
                let w = choose|w: int| 0 <= w < now.len() && now[w] == file;
                if w < kept.len() {
                    assert(kept[w] == file);
                }
            }
            assert(files[files.len() - 1] == files.last());
        }
    }
}

/// A query offers exactly the files that match it, and the better matches
/// stand in front.
pub proof fn law_filter_offers_matches(
    files: Seq<Seq<char>>,
    query: Seq<char>,
    file: Seq<char>,
)
    requires
        query.len() > 0,
    ensures
        offered_files(files, query).contains(file) <==> files.contains(file) && !(file_rank(
            file,
            query,
        ) is NoMatch),
        forall|i: int, j: int|
            0 <= i < j < offered_files(files, query).len() && file_rank(
                #[trigger] offered_files(files, query)[j],
                query,
            ) is Prefix ==> file_rank(#[trigger] offered_files(files, query)[i], query) is Prefix,
{
    let first = ranked(files, query, MatchRank::Prefix);
    let second = ranked(files, query, MatchRank::Substring);
    let all = offered_files(files, query);
    lemma_ranked(files, query, MatchRank::Prefix, file);
    lemma_ranked(files, query, MatchRank::Substring, file);
    if first.contains(file) {
        let w = choose|w: int| 0 <= w < first.len() && first[w] == file;
        assert(all[w] == file);
    }
    if second.contains(file) {
        let w = choose|w: int| 0 <= w < second.len() && second[w] == file;
        assert(all[first.len() + w] == file);
    }
    if all.contains(file) {
        let w = choose|w: int| 0 <= w < all.len() && all[w] == file;
        if w < first.len() {
            assert(first[w] == file);
        } else {
            assert(second[w - first.len()] == file);
        }
    }
    assert forall|i: int, j: int|
        0 <= i < j < all.len() && file_rank(#[trigger] all[j], query) is Prefix implies file_rank(
        #[trigger] all[i],
        query,
    ) is Prefix by {
        if i < first.len() {
            lemma_ranked(files, query, MatchRank::Prefix, first[i]);
            assert(first.contains(first[i]));
        } else {
            lemma_ranked(files, query, MatchRank::Substring, second[j - first.len()]);
            assert(second.contains(second[j - first.len()]));
        }
    }
}

/// How well a file matches: best where its name begins with the query, in
/// capitals or not, then where its path has the query anywhere, and else not
/// at all.
pub proof fn law_file_rank(
    dir: Seq<char>,
    name: Seq<char>,
    query: Seq<char>,
    front: Seq<char>,
    back: Seq<char>,
)
    requires
        !name.contains('/'),
        name.len() > 0,
        name != "."@,
        name != ".."@,
    ensures
        lowercase(name) == lowercase(query) + back ==> file_rank(dir + "/"@ + name, query)
            == MatchRank::Prefix && file_rank(name, query) == MatchRank::Prefix,
        file_rank(dir + "/"@ + name, query) is Prefix ==> lowercase(query).is_prefix_of(
            lowercase(name),
        ),
        lowercase(dir + "/"@ + name) == front + lowercase(query) + back ==> !(file_rank(
            dir + "/"@ + name,
            query,
        ) is NoMatch),
        file_rank(dir + "/"@ + name, query) is Substring ==> exists|a: Seq<char>, b: Seq<char>|
            lowercase(dir + "/"@ + name) == #[trigger] (a + lowercase(query) + b),
{
    let path = dir + "/"@ + name;
    law_file_name(dir, name);
    law_starts_and_ends(back, lowercase(query), lowercase(name));
    law_contains(front, lowercase(query), back, lowercase(path));
    if text_starts(lowercase(name), lowercase(query)) {
        assert(lowercase(name).subrange(0, lowercase(query).len() as int) =~= lowercase(query));
    }
}

/// Each row of the palette opens the file that it shows, or does what its
/// command does; the commands and their order are fixed.
pub proof fn law_rows(files: Seq<Seq<char>>, query: Seq<char>, i: int)
    requires
        0 <= i < palette_view(PaletteMode::Files, files, query).len(),
    ensures
        palette_view(PaletteMode::Files, files, query)[i].1 == ActionView::OpenFile(
            palette_view(PaletteMode::Files, files, query)[i].0,
        ),
        palette_view(PaletteMode::Files, files, query)[i].0 == offered_files(files, query)[i],
        palette_view(PaletteMode::Files, files, Seq::empty()).len() == files.len(),
        offered_files(files, Seq::empty()) == files,
        palette_view(PaletteMode::Commands, files, Seq::empty()) == seq![
            ("Toggle Vim Mode"@, ActionView::Toggle("vim-mode"@)),
            ("Toggle Sidebar"@, ActionView::Toggle("sidebar"@)),
            ("Toggle Chat Pane"@, ActionView::Toggle("chat-pane"@)),
            ("Open Recent Workspace\u{2026}"@, ActionView::NoOp),
            ("Quit"@, ActionView::Toggle("quit"@)),
        ],
{
    lemma_all_offered(command_list());
}

proof fn lemma_all_offered(commands: Seq<(Seq<char>, ActionView)>)
    ensures
        offered_commands(commands, Seq::empty()) == commands,
    decreases commands.len(),
{
    if commands.len() > 0 {
        lemma_all_offered(commands.drop_last());
        assert(commands =~= commands.drop_last().push(commands.last()));
    }
}

/// A query offers commands one by one, in order: each whose name has the
/// query in it, in capitals or not, and no other.
pub proof fn law_filter_commands(
    front: Seq<(Seq<char>, ActionView)>,
    command: (Seq<char>, ActionView),
    back: Seq<(Seq<char>, ActionView)>,
    query: Seq<char>,
    a: Seq<char>,
    b: Seq<char>,
)
    ensures
        offered_commands(front + back, query) == offered_commands(front, query) + offered_commands(
            back,
            query,
        ),
        lowercase(command.0) == a + lowercase(query) + b ==> offered_commands(
            seq![command],
            query,
        ) == seq![command],
        offered_commands(seq![command], query).len() > 0 && query.len() > 0 ==> exists|
            x: Seq<char>,
            y: Seq<char>,
        |
            lowercase(command.0) == #[trigger] (x + lowercase(query) + y),
        offered_commands(seq![command], query).len() <= 1,
    decreases back.len(),
{
    let one = seq![command];
    assert(one.drop_last() =~= Seq::<(Seq<char>, ActionView)>::empty());
    assert(offered_commands(one.drop_last(), query).len() == 0);
    law_contains(a, lowercase(query), b, lowercase(command.0));
    assert(Seq::<(Seq<char>, ActionView)>::empty().push(command) =~= one);
    if back.len() == 0 {
        assert(front + back =~= front);
        assert(offered_commands(front, query) + offered_commands(back, query)
            =~= offered_commands(front, query));
    } else {
        law_filter_commands(front, command, back.drop_last(), query, a, b);
        assert((front + back).drop_last() =~= front + back.drop_last());
        let left = offered_commands(front, query);
        let right = offered_commands(back.drop_last(), query);
        assert((left + right).push(back.last()) =~= left + right.push(back.last()));
    }
}

/// The files of a rank are offered one by one, in the order in which they
/// came: each file of that rank, as often as it is there.
pub proof fn law_ranked_in_order(
    front: Seq<Seq<char>>,
    file: Seq<char>,
    back: Seq<Seq<char>>,
    query: Seq<char>,
    rank: MatchRank,
)
    ensures
        ranked(front + back, query, rank) == ranked(front, query, rank) + ranked(back, query, rank),
        file_rank(file, query) == rank ==> ranked(seq![file], query, rank) == seq![file],
        file_rank(file, query) != rank ==> ranked(seq![file], query, rank) == Seq::<
            Seq<char>,
        >::empty(),
        query.len() > 0 ==> offered_files(front, query) == ranked(front, query, MatchRank::Prefix)
            + ranked(front, query, MatchRank::Substring),
    decreases back.len(),
{
    let one = seq![file];
    assert(one.drop_last() =~= Seq::<Seq<char>>::empty());
    assert(ranked(one.drop_last(), query, rank) == Seq::<Seq<char>>::empty());
    assert(Seq::<Seq<char>>::empty().push(file) =~= one);
    if back.len() == 0 {
        assert(front + back =~= front);
        assert(ranked(front, query, rank) + ranked(back, query, rank) =~= ranked(
            front,
            query,
            rank,
        ));
    } else {
        law_ranked_in_order(front, file, back.drop_last(), query, rank);
        assert((front + back).drop_last() =~= front + back.drop_last());
        let left = ranked(front, query, rank);
        let right = ranked(back.drop_last(), query, rank);
        assert((left + right).push(back.last()) =~= left + right.push(back.last()));
    }
}

/// What the window does for each action. Modal editing is switched on where
/// no tab has it on, and off where any has, and the two say so; a name that
/// is not known does nothing.
pub proof fn law_window_commands(command: WindowCommand, tabs: Seq<bool>, name: Seq<char>)
    ensures
        is_command(command, ActionView::OpenFile(name), tabs) ==> (command matches
            WindowCommand::Open(p) && p@ == name),
        is_command(command, ActionView::Toggle("vim-mode"@), tabs) ==> (command matches
            WindowCommand::SetVim { on, toast } && (on <==> forall|i: int|
            0 <= i < tabs.len() ==> !#[trigger] tabs[i]) && (on ==> toast@ == "Vim mode: ON"@) && (
            !on ==> toast@ == "Vim mode: OFF"@)),
        is_command(command, ActionView::Toggle("sidebar"@), tabs) ==> command is ToggleSidebar,
        is_command(command, ActionView::Toggle("chat-pane"@), tabs) ==> command is ToggleChat,
        is_command(command, ActionView::Toggle("quit"@), tabs) ==> command is Close,
        is_command(command, ActionView::NoOp, tabs) ==> command is Nothing,
        name != "vim-mode"@ && name != "sidebar"@ && name != "chat-pane"@ && name != "quit"@
            && is_command(command, ActionView::Toggle(name), tabs) ==> command is Nothing,
{
    reveal_strlit("vim-mode");
    reveal_strlit("sidebar");
    reveal_strlit("chat-pane");
    reveal_strlit("quit");
    assert("vim-mode"@.len() == 8 && "sidebar"@.len() == 7 && "chat-pane"@.len() == 9
        && "quit"@.len() == 4);
}

/// The walk for the palette goes five directories deep and stops at 1024
/// files.
pub proof fn law_walk_limits()
    ensures
        FILE_WALK_DEPTH == 5,
        MAX_FILES == 1024,
{
}

} // verus!
