use grep_searcher::{Searcher, SearcherBuilder, Sink, SinkContext, SinkMatch};
use mikmik_tools::glob_tool::{
    answer as glob_answer, compile, full_pattern_of, is_wanted, no_directory, pattern_failure,
    permission_text as glob_permission_text, Entry, GlobTool, MAX_RESULTS,
};
use mikmik_tools::globbing::is_portable;
use mikmik_tools::grep_tool::{
    answer, answer_single, ask_order, default_output_mode, extensions_for_type, file_glob,
    matcher, passes_filters, passes_given, permission_text, regex_failure, render, settings,
    sort_hits, visit, Collect, FileHits, GrepTool, Mode, Visit,
};
use mikmik_tools::paths::{
    extension_of, file_name_of, join_path, path_comes_no_later, path_extension_of, path_lies_in,
};
use mikmik_tools::walking::{is_walked, walk_settings};

/// Feeds a search into the collector.
struct Feed {
    collect: Collect,
}

impl Sink for Feed {
    type Error = std::io::Error;

    fn matched(&mut self, _: &Searcher, found: &SinkMatch<'_>) -> Result<bool, std::io::Error> {
        let lines: Vec<Vec<u8>> = found.lines().map(|line| line.to_vec()).collect();
        Ok(self.collect.matched(found.line_number(), &lines))
    }

    fn context(&mut self, _: &Searcher, line: &SinkContext<'_>) -> Result<bool, std::io::Error> {
        Ok(self.collect.context(line.line_number(), line.bytes()))
    }

    fn context_break(&mut self, _: &Searcher) -> Result<bool, std::io::Error> {
        Ok(self.collect.context_break())
    }
}

fn search(path: &str, bytes: &[u8], mode: Mode, numbers: bool, context: usize) -> Option<FileHits> {
    let expression = matcher("NEEDLE", false, false).expect("a good expression");
    let mut searcher = SearcherBuilder::new()
        .line_number(true)
        .before_context(context)
        .after_context(context)
        .build();
    let mut feed = Feed { collect: Collect::new(path, mode, numbers) };
    searcher.search_slice(expression.compiled(), bytes, &mut feed).expect("a search");
    feed.collect.finish()
}

fn hits(paths: &[&str], mode: Mode) -> Vec<FileHits> {
    paths.iter().filter_map(|p| search(p, b"NEEDLE\n", mode, true, 0)).collect()
}

#[test]
fn a_file_that_is_not_utf8_is_still_searched() {
    let found = search("latin1.txt", b"caf\xe9 NEEDLE here\nsecond line\n", Mode::Content, true, 0)
        .expect("a match");
    assert_eq!(found.count, 1);
    let out = render(&vec![found], Mode::Content, 250);
    assert!(out.contains("latin1.txt"), "{out}");
    assert!(out.contains("NEEDLE here"), "{out}");
}

#[test]
fn context_lines_come_out_around_the_match() {
    let found =
        search("a.txt", b"one\ntwo\nNEEDLE\nfour\nfive\n", Mode::Content, true, 1).expect("a match");
    let out = render(&vec![found], Mode::Content, 250);
    let numbers: Vec<&str> = out.lines().filter_map(|line| line.rsplit(':').nth(1)).collect();
    assert_eq!(numbers, vec!["2", "3", "4"], "{out}");
    assert!(out.contains("two"), "{out}");
    assert!(!out.contains("five"), "context reached too far: {out}");
}

#[test]
fn content_mode_carries_the_line_number_and_can_drop_it() {
    let with = search("a.txt", b"first\nNEEDLE\n", Mode::Content, true, 0).expect("a match");
    assert!(render(&vec![with], Mode::Content, 250).ends_with("a.txt:2:NEEDLE"));
    let without = search("a.txt", b"first\nNEEDLE\n", Mode::Content, false, 0).expect("a match");
    assert!(render(&vec![without], Mode::Content, 250).ends_with("a.txt:NEEDLE"));
}

#[test]
fn count_mode_counts_every_match_in_the_file() {
    let found =
        search("a.txt", b"NEEDLE\nx\nNEEDLE\nNEEDLE\n", Mode::Count, true, 0).expect("a match");
    let out = render(&vec![found], Mode::Count, 250);
    assert!(out.ends_with(":3"), "{out}");
}

#[test]
fn the_result_order_does_not_depend_on_the_disk() {
    let mode = Mode::FilesWithMatches;
    let first = answer("NEEDLE", "/d", hits(&["c.txt", "a.txt", "b.txt", "d.txt", "e.txt"], mode), mode, 250);
    let second = answer("NEEDLE", "/d", hits(&["e.txt", "d.txt", "c.txt", "b.txt", "a.txt"], mode), mode, 250);
    assert_eq!(first.content, second.content);
    let names: Vec<&str> = first.content.lines().collect();
    assert_eq!(names, vec!["a.txt", "b.txt", "c.txt", "d.txt", "e.txt"]);
    let sorted: Vec<String> =
        sort_hits(hits(&["b", "a"], mode)).into_iter().map(|h| h.path).collect();
    assert_eq!(sorted, vec!["a".to_string(), "b".to_string()]);
}

#[test]
fn a_glob_that_cannot_be_read_is_refused() {
    let refused = file_glob(&Some("a[".to_string())).expect_err("an unusable glob");
    assert!(refused.is_error, "{}", refused.content);
    assert!(refused.content.contains("Invalid glob"), "{}", refused.content);
}

#[test]
fn a_glob_filters_the_files_that_are_searched() {
    let glob = file_glob(&Some("*.rs".to_string())).expect("a good glob");
    assert!(passes_filters("/d/b.rs", &vec![], &glob));
    assert!(!passes_filters("/d/a.txt", &vec![], &glob));
    assert!(passes_filters("/d/a.txt", &vec![], &None));
    assert!(!passes_given("/d/a.txt", &vec![], Some(false)));
    assert!(passes_given("/d/a.rs", &extensions_for_type("rust"), None));
    assert!(!passes_given("/d/a.py", &extensions_for_type("rust"), None));
}

#[test]
fn head_limit_bounds_the_files_reported() {
    let mode = Mode::FilesWithMatches;
    let out = answer("NEEDLE", "/d", hits(&["a.txt", "b.txt", "c.txt", "d.txt"], mode), mode, 2);
    assert_eq!(out.content.lines().count(), 2, "{}", out.content);
}

#[test]
fn a_single_named_file_answers_without_its_own_path_on_every_line() {
    let found = search("/d/a.txt", b"first\nNEEDLE\n", Mode::Content, true, 0);
    let result = answer_single("/d/a.txt", &found, Mode::Content);
    assert!(!result.is_error, "{}", result.content);
    assert_eq!(result.content, "2:NEEDLE");
}

#[test]
fn an_expression_that_cannot_be_read_is_refused() {
    let refused = matcher("(", false, false).expect_err("an unusable expression");
    assert!(refused.is_error, "{}", refused.content);
    assert!(regex_failure("unclosed").content.contains("unclosed"));
}

#[test]
fn case_can_be_ignored() {
    let expression = matcher("needle", true, false).expect("a good expression");
    let mut feed = Feed { collect: Collect::new("a.txt", Mode::Count, true) };
    SearcherBuilder::new()
        .line_number(true)
        .build()
        .search_slice(expression.compiled(), b"NEEDLE\n", &mut feed)
        .expect("a search");
    assert_eq!(feed.collect.finish().expect("a match").count, 1);
}

#[test]
fn nothing_found_is_said() {
    let none = answer("NEEDLE", "/d", Vec::new(), Mode::Content, 250);
    assert!(!none.is_error);
    assert!(none.content.contains("NEEDLE"), "{}", none.content);
    let single = answer_single("/d/a.txt", &None, Mode::Content);
    assert!(!single.is_error);
    assert!(permission_text("NEEDLE", "/d").contains("NEEDLE"));
}

#[test]
fn settings_have_their_defaults() {
    assert_eq!(default_output_mode(), "files_with_matches");
    let s = settings("content", None, None, None);
    assert_eq!(s.mode, Mode::Content);
    assert_eq!(s.context_lines, 0);
    assert!(s.show_line_numbers);
    assert_eq!(Mode::parse("nonsense"), Mode::FilesWithMatches);
    let s = settings("count", Some(3), Some(2), Some(false));
    assert_eq!(s.mode, Mode::Count);
    assert_eq!(s.head_limit, 3);
    assert_eq!(s.context_lines, 2);
    assert!(!s.show_line_numbers);
    assert_eq!(GrepTool.name(), "Grep");
}

#[test]
fn pattern_semantics_are_unchanged() {
    let recursive = compile("/d", "**/*.rs").expect("a good pattern");
    assert!(is_wanted(&recursive, "/d/top.rs"));
    assert!(is_wanted(&recursive, "/d/src/lib.rs"));

    let shallow = compile("/d", "*.rs").expect("a good pattern");
    assert!(is_wanted(&shallow, "/d/top.rs"));
    assert!(!is_wanted(&shallow, "/d/src/lib.rs"), "one level only");
}

#[test]
fn files_are_listed_with_the_newest_first() {
    let entries = vec![
        Entry { path: "/d/old".to_string(), modified: 1 },
        Entry { path: "/d/new".to_string(), modified: 3 },
        Entry { path: "/d/mid".to_string(), modified: 2 },
    ];
    let out = glob_answer("*", "/d", 3, entries).content;
    let new = out.find("/d/new").expect("new");
    let mid = out.find("/d/mid").expect("mid");
    let old = out.find("/d/old").expect("old");
    assert!(new < mid && mid < old, "{out}");
}

#[test]
fn files_of_one_time_are_listed_by_name() {
    let entries = |paths: [&str; 3]| {
        paths
            .into_iter()
            .map(|path| Entry { path: path.to_string(), modified: 7 })
            .collect::<Vec<Entry>>()
    };
    let one = glob_answer("*", "/d", 3, entries(["/d/b", "/d/c", "/d/a"])).content;
    let other = glob_answer("*", "/d", 3, entries(["/d/c", "/d/a", "/d/b"])).content;
    assert_eq!(one, "/d/a\n/d/b\n/d/c\n");
    assert_eq!(one, other);
}

#[test]
fn a_pattern_that_matches_nothing_or_cannot_be_read_is_said() {
    let none = glob_answer("*.xyz", "/d", 0, Vec::new());
    assert!(!none.is_error);
    assert!(none.content.contains("*.xyz"), "{}", none.content);
    assert!(compile("/d", "a[").is_err());
    assert!(pattern_failure("why").content.contains("why"));
    assert!(no_directory("/nowhere").content.contains("/nowhere"));
    assert_eq!(full_pattern_of("/d", "*.rs"), "/d/*.rs");
    assert!(glob_permission_text("*.rs", "/d").contains("*.rs"));
    assert_eq!(GlobTool.name(), "Glob");
    assert!(MAX_RESULTS > 0);
}

#[test]
fn the_git_directory_is_never_walked() {
    assert!(!is_walked(".git"));
    assert!(is_walked(".github"));
    assert!(is_walked("src"));
    assert!(walk_settings(false).standard_filters);
    assert!(!walk_settings(true).standard_filters);
    assert!(!walk_settings(false).hidden);
}

#[test]
fn paths_are_taken_apart_at_their_slashes() {
    assert_eq!(extension_of("a.tar.gz").as_deref(), Some("gz"));
    assert_eq!(extension_of(".bashrc"), None);
    assert_eq!(join_path("/a", "b"), "/a/b");
    assert_eq!(join_path("/a", "/b"), "/b");
    assert_eq!(file_name_of("/a/b.txt").as_deref(), Some("b.txt"));
    assert_eq!(file_name_of("/"), None);
    assert_eq!(path_extension_of("/a/b.txt").as_deref(), Some("txt"));
    assert!(path_lies_in("/a/b/c", "/a/b"));
    assert!(!path_lies_in("/a/bc", "/a/b"));
    assert!(path_comes_no_later("/a/b", "/a/c"));
    let any = compile("/d", "*").expect("a pattern");
    assert!(is_wanted(&any, "/d/a\\b") == (std::path::MAIN_SEPARATOR == '/'));
    assert!(is_portable("/a/b") && !is_portable("a\\b"));
}

#[test]
fn a_file_outside_the_workspace_waits_for_the_walk_to_end() {
    assert_eq!(visit(true, true, true), Visit::Search);
    assert_eq!(visit(true, true, false), Visit::Defer);
    assert_eq!(visit(true, false, true), Visit::Skip);
    assert_eq!(visit(false, true, true), Visit::Skip);
}

#[test]
fn files_are_asked_about_in_path_order() {
    let paths = ["/b/x.rs", "/a-b/x.rs", "/a/y.rs", "/a/x.rs"].map(String::from).to_vec();
    assert_eq!(ask_order(paths), ["/a/x.rs", "/a/y.rs", "/a-b/x.rs", "/b/x.rs"]);
}
