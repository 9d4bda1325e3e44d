use codex_desktop::agent::envelope::{IncomingServerNotification, KnownVariantRegistry};
use codex_desktop::conformance::{
    default_schema_version, default_timeout, ConformanceFixture, ExpectedEvent, Match, RespondWith,
    ScenarioInput, ScenarioOutcome, ScenarioRun, Verdict,
};
use codex_desktop::content_search::{
    build_matcher, default_max_matches, default_max_per_file, search_pattern, trim_line,
    MatcherError, SearchCaps, SearchOptions,
};
use codex_desktop::desktop::file_walk::{relative_path, EntryKind, FileWalk};
use codex_desktop::desktop::palette::{
    activated, default_commands, filter_commands, filter_files, match_rank, name_matches,
    palette_rows, window_command, CommandPaletteAction, MatchRank, PaletteMode, WindowCommand,
};
use codex_desktop::desktop::sidebar::{
    icon_name, order_by_name, order_entries, EntryOrder, SidebarEntry,
};
use codex_desktop::drift_log::{split_log, DriftCounters, DriftRecord, DriftSummary};
use codex_desktop::json::Json;
use codex_desktop::launcher::{
    appimage_install_dir, appimage_search_dirs, candidate_codex_desktop_launchers,
    executable_mode, first_executable, install_place, is_executable, looks_like_appimage_url,
    path_candidates, plan_launch, LaunchPlan,
};
use codex_desktop::paths::{display_name, file_name, file_stem, join_path};
use codex_desktop::text::{
    decimal_string, hex_byte, is_less, parse_usize, same_text, trim,
};
use grep_searcher::sinks::UTF8;
use grep_searcher::Searcher;

#[test]
fn appimage_url_detection_accepts_plain_url() {
    assert!(looks_like_appimage_url("https://example.com/codex/Codex.AppImage"));
}

#[test]
fn appimage_url_detection_is_case_insensitive() {
    assert!(looks_like_appimage_url("https://example.com/Codex.appimage"));
}

#[test]
fn appimage_url_detection_strips_query_string() {
    assert!(looks_like_appimage_url("https://example.com/Codex.AppImage?token=abc"));
}

#[test]
fn appimage_url_detection_rejects_other_extensions() {
    assert_eq!(looks_like_appimage_url("https://example.com/codex/Codex.dmg"), false);
    assert_eq!(looks_like_appimage_url("https://example.com/codex/Codex.deb"), false);
    assert_eq!(looks_like_appimage_url("https://example.com/x?f=Codex.AppImage"), false);
    assert_eq!(looks_like_appimage_url(""), false);
}

#[test]
fn launchers_are_looked_for_in_order() {
    let got = candidate_codex_desktop_launchers(Some("/opt/codex-desktop"), Some("/home/u"));
    assert_eq!(got[0], "/opt/codex-desktop");
    assert_eq!(got[1], "/usr/local/bin/codex-desktop");
    assert_eq!(got[2], "/usr/bin/codex-desktop");
    assert_eq!(got[3], "/home/u/.local/bin/codex-desktop");
    assert_eq!(got[4], "/home/u/.cargo/bin/codex-desktop");
    assert_eq!(got[5], "/home/u/Applications/Codex.AppImage");
    assert_eq!(got.len(), 14);
    assert_eq!(got[13], "/home/u/.local/share/applications/Codex-Desktop.AppImage");
    assert_eq!(candidate_codex_desktop_launchers(None, None).len(), 2);
    assert_eq!(appimage_search_dirs("/h")[2], "/h/.local/share/applications");
}

#[test]
fn an_installed_image_is_found_again() {
    let place = install_place("/home/u");
    assert_eq!(place, "/home/u/.local/bin/Codex.AppImage");
    assert_eq!(appimage_install_dir("/home/u"), "/home/u/.local/bin");
    assert!(candidate_codex_desktop_launchers(None, Some("/home/u")).contains(&place));
}

#[test]
fn the_first_executable_is_taken() {
    assert_eq!(first_executable(&vec![false, true, true]), Some(1));
    assert_eq!(first_executable(&vec![false]), None);
    assert_eq!(
        path_candidates(&vec!["/bin".into(), "/usr/bin/".into()], "x"),
        vec!["/bin/x".to_owned(), "/usr/bin/x".to_owned()]
    );
    assert!(is_executable(true, 0o644 | 0o010));
    assert!(!is_executable(true, 0o644));
    assert!(!is_executable(false, 0o755));
    assert_eq!(executable_mode(0o100600), 0o100755);
}

#[test]
fn a_launch_is_planned() {
    assert_eq!(plan_launch(Some("/x"), Some("u")), LaunchPlan::Open("/x".into()));
    let url = "https://example.com/Codex.AppImage";
    assert_eq!(plan_launch(None, Some(url)), LaunchPlan::Download(url.into()));
    match plan_launch(None, Some("https://example.com/x.deb")) {
        LaunchPlan::Refuse(why) => {
            assert!(why.starts_with(
                "--download-url must point to a .AppImage you trust; got https://example.com/x.deb.\nFor .deb/.rpm"
            ));
        }
        other => panic!("unexpected {other:?}"),
    }
    assert_eq!(plan_launch(None, None), LaunchPlan::Explain);
}

#[test]
fn trim_line_caps_at_max() {
    let long = "a".repeat(500);
    let out = trim_line(&long, 240);
    assert!(out.ends_with('\u{2026}'));
    assert!(out.chars().count() <= 241);
}

#[test]
fn short_lines_are_shown_whole() {
    assert_eq!(trim_line("ab\r\n", 2), "ab");
    assert_eq!(trim_line("abc\n", 2), "ab\u{2026}");
    assert_eq!(trim_line("", 0), "");
}

fn options(query: &str, max_matches: usize, max_per_file: usize) -> SearchOptions {
    SearchOptions {
        query: query.into(),
        case_sensitive: true,
        regex: false,
        whole_word: false,
        max_matches,
        max_per_file,
    }
}

fn search(opts: &SearchOptions, files: &[(&str, &str)]) -> (Vec<(String, u64, String)>, bool) {
    let matcher =
        build_matcher(&opts.query, opts.case_sensitive, opts.regex, opts.whole_word).unwrap();
    let mut caps = SearchCaps::new(opts);
    let mut out = Vec::new();
    for (path, content) in files {
        caps.begin_file();
        let res = Searcher::new().search_slice(
            &matcher,
            content.as_bytes(),
            UTF8(|line_number, line| match caps.offer((*path).to_owned(), line_number, line) {
                Some(m) => {
                    out.push((m.path, m.line_number, m.preview));
                    caps.reported();
                    Ok(true)
                }
                None => Ok(false),
            }),
        );
        if !caps.goes_on(res.is_ok()) {
            break;
        }
    }
    assert_eq!(caps.total(), out.len());
    (out, caps.capped())
}

#[test]
fn finds_substring_in_temp_dir() {
    let (matches, _) = search(
        &options("lorem", 1024, 200),
        &[("a.txt", "hello world\nlorem ipsum\n"), ("b.txt", "no match here\n")],
    );
    assert_eq!(matches.len(), 1);
    assert_eq!(matches[0].1, 2);
    assert!(matches[0].2.contains("lorem"));
}

#[test]
fn case_insensitive_search() {
    let mut opts = options("hello", 10, 10);
    opts.case_sensitive = false;
    let (matches, _) = search(&opts, &[("a.txt", "HELLO\n")]);
    assert_eq!(matches.len(), 1);
}

#[test]
fn whole_word_excludes_partial_match() {
    let mut opts = options("test", 10, 10);
    opts.case_sensitive = false;
    opts.whole_word = true;
    let (matches, _) = search(&opts, &[("a.txt", "tested\ntest\n")]);
    assert_eq!(matches.len(), 1);
    assert_eq!(matches[0].1, 2);
}

#[test]
fn a_cap_that_is_hit_on_the_last_match_of_a_file_is_signalled() {
    let files = [("a.txt", "x\nx\n"), ("b.txt", "x\nx\n")];
    let (matches, capped) = search(&options("x", 2, 10), &files);
    assert_eq!(matches.len(), 2);
    assert!(capped);
    let (matches, capped) = search(&options("x", 0, 10), &files);
    assert!(matches.is_empty());
    assert!(capped);
    let (_, capped) = search(&options("x", 5, 10), &files);
    assert!(!capped);
}

#[test]
fn cap_signals_capped_atomic() {
    let (matches, capped) = search(&options("x", 2, 10), &[("a.txt", "x\nx\nx\nx\nx\n")]);
    assert_eq!(matches.len(), 2);
    assert!(capped);
}

#[test]
fn each_file_has_its_own_bound() {
    let files = [("a", "x\nx\nx\n"), ("b", "x\nx\n"), ("c", "x\n")];
    let (matches, capped) = search(&options("x", 100, 2), &files);
    assert_eq!(matches.len(), 5);
    assert!(!capped);
    let (few, _) = search(&options("x", 3, 2), &files);
    assert_eq!(few.len(), 3);
}

#[test]
fn queries_are_taken_literally() {
    assert_eq!(search_pattern("a.b*", false, false), "a\\.b\\*");
    assert_eq!(search_pattern("a.b*", true, false), "a.b*");
    assert_eq!(search_pattern("x-y", false, true), "\\bx\\-y\\b");
    let (matches, _) = search(&options("a.b", 10, 10), &[("f", "axb\na.b\n")]);
    assert_eq!(matches.len(), 1);
    assert_eq!(matches[0].1, 2);
    assert!(matches!(build_matcher("(", true, true, false), Err(MatcherError::BadPattern(_))));
    assert!(build_matcher("(", true, false, false).is_ok());
    assert_eq!(default_max_matches(), 1024);
    assert_eq!(default_max_per_file(), 200);
}

#[test]
fn record_and_summary_round_trip() {
    let mut log = DriftCounters::new();
    log.record("thread/whatever");
    log.record("thread/whatever");
    log.record("agent/oddTool");
    let summary = log.summary();
    assert_eq!(summary.total, 3);
    assert_eq!(summary.io_errors, 0);
    assert_eq!(
        summary.by_method,
        vec![("agent/oddTool".to_string(), 1), ("thread/whatever".to_string(), 2)]
    );
    log.fail();
    assert_eq!(log.summary().io_errors, 1);
    assert_eq!(log.summary().total, 3);
    assert_eq!(log.count("thread/whatever"), 2);
    assert_eq!(log.count("x"), 0);
}

fn replay_text(text: &str) -> DriftSummary {
    let lines = split_log(text)
        .iter()
        .map(|line| {
            let v: serde_json::Value = serde_json::from_str(line).ok()?;
            Some(v.get("method")?.as_str()?.to_owned())
        })
        .collect();
    DriftSummary::replay(&lines)
}

#[test]
fn replay_aggregates_existing_file() {
    let mut text = String::new();
    for _ in 0..5 {
        text.push_str("{\"ts_unix_ms\":1,\"method\":\"thread/x\",\"params\":null}\n");
    }
    for _ in 0..3 {
        text.push_str("{\"ts_unix_ms\":1,\"method\":\"agent/y\",\"params\":{}}\n");
    }
    let summary = replay_text(&text);
    assert_eq!(summary.total, summary.by_method.iter().map(|(_, n)| n).sum::<u64>());
    assert_eq!(summary.total, 8);
    assert_eq!(summary.io_errors, 0);
    assert_eq!(
        summary.by_method,
        vec![("agent/y".to_string(), 3), ("thread/x".to_string(), 5)]
    );
}

#[test]
fn replay_missing_file_returns_empty_summary() {
    assert_eq!(DriftSummary::replay(&Vec::new()), DriftSummary::default());
    assert_eq!(DriftSummary::default().total, 0);
}

#[test]
fn replay_counts_malformed_lines_as_io_errors() {
    let summary = replay_text(
        "{\"ts_unix_ms\":1,\"method\":\"a/b\",\"params\":null}\nthis is not json\n{also not json}\n",
    );
    assert_eq!(summary.total, 1);
    assert_eq!(summary.io_errors, 2);
    assert_eq!(summary.by_method, vec![("a/b".to_string(), 1)]);
}

#[test]
fn logs_are_split_into_lines() {
    assert_eq!(split_log("a\r\n\n  b \n c"), vec!["a".to_owned(), "b".into(), "c".into()]);
    assert!(split_log(" \n\n").is_empty());
    let record =
        DriftRecord { ts_unix_ms: 1, method: "m".into(), params: Json::Null };
    assert_eq!(record.method, "m");
}

fn fixture(expected: &[&str]) -> ConformanceFixture {
    ConformanceFixture {
        schema_version: default_schema_version(),
        description: "happy path".into(),
        input: ScenarioInput { prompt: "x".into(), network_disabled: false, attachments: vec![] },
        expected_events: expected
            .iter()
            .map(|m| ExpectedEvent {
                method: (*m).into(),
                match_: Some(Match { params: None }),
                respond_with: Some(RespondWith { decision: "approved".into() }),
            })
            .collect(),
        strict: false,
        timeout_ms: default_timeout(),
        tags: vec![],
    }
}

fn known(method: &str) -> IncomingServerNotification {
    let registry = KnownVariantRegistry::new().with_method(method);
    IncomingServerNotification::classify(method, Json::Null, &registry)
}

fn unknown(method: &str) -> IncomingServerNotification {
    IncomingServerNotification::classify(method, Json::Null, &KnownVariantRegistry::new())
}

#[test]
fn extra_unknown_notifications_fail_exactly_where_strict() {
    for strict in [false, true] {
        let scenario = ConformanceFixture {
            strict,
            ..fixture(&["thread/started", "turn/completed"])
        };
        let mut run = ScenarioRun::new(&scenario);
        assert_eq!(run.observe(&unknown("thread/started")), Verdict::GoOn);
        assert_eq!(run.observe(&known("agent/other")), Verdict::GoOn);
        let verdict = run.observe(&unknown("agent/odd"));
        if strict {
            assert_eq!(verdict, Verdict::Refused);
            let report = run.refused("agent/odd");
            assert_eq!(
                report.outcome,
                ScenarioOutcome::Failed(
                    "unexpected unknown notification in strict scenario: \"agent/odd\"".into()
                )
            );
            assert_eq!(report.observed_methods.len(), 3);
        } else {
            assert_eq!(verdict, Verdict::GoOn);
            assert_eq!(run.observe(&known("turn/completed")), Verdict::Passed);
        }
    }
}

#[test]
fn runner_passes_when_methods_match() {
    let mut run = ScenarioRun::new(&fixture(&["thread/started", "turn/completed"]));
    assert_eq!(run.observe(&known("thread/started")), Verdict::GoOn);
    assert_eq!(run.observe(&known("agent/message_delta")), Verdict::GoOn);
    assert_eq!(run.observe(&known("turn/completed")), Verdict::Passed);
    let report = run.passed();
    assert_eq!(report.outcome, ScenarioOutcome::Pass);
    assert_eq!(report.observed_methods.len(), 3);
}

#[test]
fn runner_times_out_when_stream_idle() {
    let idle = ScenarioRun::new(&fixture(&["thread/started"])).timed_out();
    assert_eq!(idle.outcome, ScenarioOutcome::TimedOut);
    assert!(idle.observed_methods.is_empty());
    let mut run = ScenarioRun::new(&fixture(&["a", "b\"", "c"]));
    run.observe(&known("b\""));
    run.observe(&known("a"));
    assert_eq!(
        run.ended().outcome,
        ScenarioOutcome::Failed(
            "stream ended before expected events drained; remaining: [\"b\\\"\", \"c\"]".into()
        )
    );
    assert_eq!(default_schema_version(), 1);
    assert_eq!(default_timeout(), 30_000);
}

fn paths(list: &[&str]) -> Vec<String> {
    list.iter().map(|s| (*s).to_owned()).collect()
}

#[test]
fn substring_filter_orders_prefix_matches_first() {
    let files = paths(&["src/lib.rs", "src/main.rs", "README.md"]);
    let m = filter_files(&files, "li");
    assert_eq!(m[0], "src/lib.rs");
    let m = filter_files(&paths(&["src/a.rs", "rs.txt", "x/rs"]), "rs");
    assert_eq!(m, paths(&["rs.txt", "x/rs", "src/a.rs"]));
    let m = filter_files(&paths(&["lib/a.rs", "src/lib.rs"]), "li");
    assert_eq!(m, paths(&["src/lib.rs", "lib/a.rs"]));
}

#[test]
fn empty_query_returns_all() {
    let m = filter_files(&paths(&["a", "b"]), "");
    assert_eq!(m.len(), 2);
}

#[test]
fn case_insensitive_match() {
    let m = filter_files(&paths(&["README.md"]), "readme");
    assert_eq!(m.len(), 1);
    assert_eq!(filter_files(&paths(&["\u{c9}t\u{e9}.md"]), "\u{e9}T\u{c9}").len(), 1);
    assert_eq!(match_rank("src/lib.rs", "lib.rs", "li"), MatchRank::Prefix);
    assert_eq!(match_rank("src/lib.rs", "lib.rs", "c/l"), MatchRank::Substring);
    assert_eq!(match_rank("src/lib.rs", "lib.rs", "zz"), MatchRank::NoMatch);
}

#[test]
fn commands_list_is_non_empty() {
    assert!(default_commands().len() >= 4);
}

#[test]
fn commands_filter_by_name() {
    let cmds = default_commands();
    let m = filter_commands(&cmds, "vim");
    assert_eq!(m.len(), 1);
    assert_eq!(m[0].0, "Toggle Vim Mode");
    assert_eq!(filter_commands(&cmds, "").len(), 5);
    assert_eq!(filter_commands(&cmds, "TOGGLE").len(), 3);
    assert!(name_matches("quit", "ui"));
}

#[test]
fn rows_open_files_and_run_commands() {
    let rows = palette_rows(PaletteMode::Files, &paths(&["a.rs", "b.rs"]), "b");
    assert_eq!(rows.len(), 1);
    assert_eq!(activated(&rows, 0), Some(CommandPaletteAction::OpenFile("b.rs".into())));
    assert_eq!(activated(&rows, 1), None);
    let rows = palette_rows(PaletteMode::Commands, &paths(&[]), "quit");
    assert_eq!(rows[0].0, "Quit");
    assert_eq!(rows[0].1, CommandPaletteAction::Toggle("quit"));
}

#[test]
fn the_window_does_what_was_picked() {
    let toggle = |name: &'static str, vim: Vec<bool>| {
        window_command(&CommandPaletteAction::Toggle(name), &vim)
    };
    assert_eq!(
        toggle("vim-mode", vec![false, false]),
        WindowCommand::SetVim { on: true, toast: "Vim mode: ON" }
    );
    assert_eq!(
        toggle("vim-mode", vec![false, true]),
        WindowCommand::SetVim { on: false, toast: "Vim mode: OFF" }
    );
    assert_eq!(toggle("sidebar", vec![]), WindowCommand::ToggleSidebar);
    assert_eq!(toggle("chat-pane", vec![]), WindowCommand::ToggleChat);
    assert_eq!(toggle("quit", vec![]), WindowCommand::Close);
    assert_eq!(toggle("other", vec![]), WindowCommand::Nothing);
    assert_eq!(window_command(&CommandPaletteAction::NoOp, &vec![]), WindowCommand::Nothing);
    assert_eq!(
        window_command(&CommandPaletteAction::OpenFile("p".into()), &vec![]),
        WindowCommand::Open("p".into())
    );
}

fn walk(max_depth: usize, cap: usize) -> Vec<String> {
    let list = |path: &[String]| -> Vec<(&str, EntryKind)> {
        match path.join("/").as_str() {
            "" => vec![
                ("sub", EntryKind::Dir),
                ("a.txt", EntryKind::File),
                (".git", EntryKind::Dir),
                (".hidden", EntryKind::File),
                ("link", EntryKind::Other),
            ],
            "sub" => vec![("b.txt", EntryKind::File), ("deep", EntryKind::Dir)],
            "sub/deep" => vec![("c.txt", EntryKind::File)],
            other => panic!("unexpected directory {other}"),
        }
    };
    let mut walk = FileWalk::new(max_depth, cap);
    while let Some(dir) = walk.next_dir() {
        for (name, kind) in list(&dir.path) {
            if !walk.take(&dir, name, kind) {
                break;
            }
        }
    }
    walk.finish().iter().map(relative_path).collect()
}

#[test]
fn collect_files_respects_cap_and_depth() {
    assert_eq!(walk(5, 1024), paths(&["a.txt", "sub/b.txt", "sub/deep/c.txt"]));
    assert_eq!(walk(2, 1024), paths(&["a.txt", "sub/b.txt"]));
    assert_eq!(walk(1, 1024), paths(&["a.txt"]));
    assert_eq!(walk(5, 1), paths(&["a.txt"]));
    assert!(walk(5, 0).is_empty());
}

#[test]
fn paths_are_ordered_by_name() {
    let mut walk = FileWalk::new(5, 10);
    let root = walk.next_dir().unwrap();
    walk.take(&root, "a.txt", EntryKind::File);
    walk.take(&root, "a", EntryKind::Dir);
    let sub = walk.next_dir().unwrap();
    walk.take(&sub, "z", EntryKind::File);
    let got: Vec<String> = walk.finish().iter().map(relative_path).collect();
    assert_eq!(got, paths(&["a/z", "a.txt"]));
}

fn entry(is_dir: bool, name: &str) -> SidebarEntry {
    SidebarEntry { is_dir, name: name.into() }
}

#[test]
fn directories_come_first() {
    assert_eq!(order_entries(&entry(true, "z"), &entry(false, "a")), EntryOrder::Smaller);
    assert_eq!(order_entries(&entry(false, "a"), &entry(true, "z")), EntryOrder::Larger);
    assert_eq!(order_entries(&entry(false, "B"), &entry(false, "a")), EntryOrder::Larger);
    assert_eq!(order_entries(&entry(false, "A"), &entry(false, "a")), EntryOrder::Equal);
    assert_eq!(order_by_name(true, "a", true, "b"), EntryOrder::Smaller);
    assert_eq!(icon_name(true), "folder-symbolic");
    assert_eq!(icon_name(false), "text-x-generic-symbolic");
}

#[test]
fn paths_are_taken_apart() {
    assert_eq!(file_name("a/b.rs"), Some("b.rs".into()));
    assert_eq!(file_name("a/b/./"), Some("b".into()));
    assert_eq!(file_name("a/.."), None);
    assert_eq!(file_name("/"), None);
    assert_eq!(file_name("."), None);
    assert_eq!(display_name("/"), "/");
    assert_eq!(display_name("/x/y"), "y");
    assert_eq!(file_stem("a.tar.gz"), "a.tar");
    assert_eq!(file_stem(".rc"), ".rc");
    assert_eq!(join_path("/a", "b"), "/a/b");
    assert_eq!(join_path("/a/", "b"), "/a/b");
    assert_eq!(join_path("/a", "/b"), "/b");
    assert_eq!(join_path("", "b"), "b");
    for (base, rel) in [("/a", "b"), ("a/", "b"), ("", "b"), ("a", "/b"), ("a", "")] {
        let joined = std::path::Path::new(base).join(rel);
        assert_eq!(join_path(base, rel), joined.to_str().unwrap());
    }
    for p in ["", "a", "a/b", "a/", "a/.", "./a", "..", "a/..", "/", "//x//"] {
        let name = std::path::Path::new(p).file_name().map(|n| n.to_str().unwrap().to_owned());
        assert_eq!(file_name(p), name, "path {p:?}");
    }
}

#[test]
fn text_helpers_agree_with_std() {
    for s in ["", " a ", "\u{3000}x\u{85}", "\u{200b}y", "\t\n"] {
        assert_eq!(trim(s), s.trim());
    }
    for n in [0u64, 9, 10, 12345, u64::MAX] {
        assert_eq!(decimal_string(n), n.to_string());
        let chars: Vec<char> = n.to_string().chars().collect();
        assert_eq!(parse_usize(&chars), n.to_string().parse::<usize>().ok());
    }
    for s in ["+7", "-7", "", "+", "0x1", "99999999999999999999999"] {
        let chars: Vec<char> = s.chars().collect();
        assert_eq!(parse_usize(&chars), s.parse::<usize>().ok(), "{s}");
    }
    for (a, b) in [("a", "b"), ("a", "aa"), ("", "a"), ("\u{e9}", "z"), ("b", "a"), ("a", "a")] {
        assert_eq!(is_less(a, b), a < b);
        assert_eq!(same_text(a, b), a == b);
    }
    assert_eq!(hex_byte(0x0A), "0A");
    assert_eq!(hex_byte(0xFE), "FE");
}
