use mikmik_tools::output_filter::guard::never_worse;
use mikmik_tools::output_filter::tee::{
    cap_content, command_slug, display_path, display_shell_path, full_hint, plan_recovery,
    recover_hint, sanitize_slug, short_hash, stale_files, tail_hint, tee_file_name, Recovery,
    MAX_FILE_SIZE,
};
use mikmik_tools::output_filter::toml_filter::{
    apply_filter, apply_filter_with_info, build_match_set, command_matches_filter, compile_file,
    find_filter_in, match_patterns_in, CompiledFilter, Lossiness, MatchOutputRule, ReplaceRule,
    TomlFilterDef, TomlFilterFile,
};
use mikmik_tools::output_filter::{estimate_tokens, filter_command_output, strip_ansi, truncate};

fn text(value: &toml::Value) -> Result<String, String> {
    value.as_str().map(str::to_string).ok_or_else(|| "a text is needed".to_string())
}

fn texts(value: &toml::Value) -> Result<Vec<String>, String> {
    value.as_array().ok_or("a list is needed")?.iter().map(text).collect()
}

fn count(value: &toml::Value) -> Result<Option<usize>, String> {
    Ok(Some(value.as_integer().ok_or("a number is needed")? as usize))
}

fn flag(value: &toml::Value) -> Result<bool, String> {
    value.as_bool().ok_or_else(|| "a flag is needed".to_string())
}

fn definition(table: &toml::Table) -> Result<TomlFilterDef, String> {
    let mut def = TomlFilterDef {
        description: None,
        match_command: String::new(),
        strip_ansi: false,
        replace: Vec::new(),
        match_output: Vec::new(),
        strip_lines_matching: Vec::new(),
        keep_lines_matching: Vec::new(),
        truncate_lines_at: None,
        head_lines: None,
        tail_lines: None,
        max_lines: None,
        on_empty: None,
        filter_stderr: false,
    };
    for (key, value) in table {
        match key.as_str() {
            "description" => def.description = Some(text(value)?),
            "match_command" => def.match_command = text(value)?,
            "strip_ansi" => def.strip_ansi = flag(value)?,
            "strip_lines_matching" => def.strip_lines_matching = texts(value)?,
            "keep_lines_matching" => def.keep_lines_matching = texts(value)?,
            "truncate_lines_at" => def.truncate_lines_at = count(value)?,
            "head_lines" => def.head_lines = count(value)?,
            "tail_lines" => def.tail_lines = count(value)?,
            "max_lines" => def.max_lines = count(value)?,
            "on_empty" => def.on_empty = Some(text(value)?),
            "filter_stderr" => def.filter_stderr = flag(value)?,
            "replace" => {
                for rule in value.as_array().ok_or("a list is needed")? {
                    def.replace.push(ReplaceRule {
                        pattern: text(&rule["pattern"])?,
                        replacement: text(&rule["replacement"])?,
                    });
                }
            }
            "match_output" => {
                for rule in value.as_array().ok_or("a list is needed")? {
                    def.match_output.push(MatchOutputRule {
                        pattern: text(&rule["pattern"])?,
                        message: text(&rule["message"])?,
                        unless: rule.get("unless").map(text).transpose()?,
                    });
                }
            }
            other => return Err(format!("unknown field {other}")),
        }
    }
    Ok(def)
}

fn read_file(source: &str) -> Result<TomlFilterFile, String> {
    let table: toml::Table = source.parse().map_err(|e: toml::de::Error| e.to_string())?;
    let version = table["schema_version"].as_integer().ok_or("no version")? as u32;
    let mut filters = Vec::new();
    for (name, value) in table["filters"].as_table().ok_or("no filters")? {
        filters.push((name.clone(), definition(value.as_table().ok_or("no table")?)?));
    }
    Ok(TomlFilterFile { schema_version: version, filters })
}

fn parse_and_compile(source: &str, name: &str) -> Result<Vec<CompiledFilter>, String> {
    Ok(compile_file(&read_file(source)?, name)?.0)
}

fn make_filters(source: &str) -> Vec<CompiledFilter> {
    parse_and_compile(source, "test").expect("test TOML should be valid")
}

fn first_filter(source: &str) -> CompiledFilter {
    make_filters(source).into_iter().next().expect("expected at least one filter")
}

fn loss_of(source: &str, input: &str) -> Lossiness {
    apply_filter_with_info(&first_filter(source), input).1
}

const SOME_FILTERS: &str = r#"
schema_version = 1
[filters.make]
match_command = "^make\\b"
strip_lines_matching = ["^make\\[\\d+\\]:"]
on_empty = "make: ok"
[filters.terraform-plan]
match_command = "^terraform\\s+plan"
strip_lines_matching = ["^Refreshing state"]
"#;

/// Run the filters of [`SOME_FILTERS`], behind their pre-check.
fn run_filters(command: &str, raw: &str) -> String {
    let file = read_file(SOME_FILTERS).expect("valid");
    let set = build_match_set(&match_patterns_in(&file));
    filter_command_output(&set, &make_filters(SOME_FILTERS), command, raw)
}

#[test]
fn strip_ansi_removes_codes() {
    assert_eq!(strip_ansi("\x1b[31mError\x1b[0m"), "Error");
}

#[test]
fn truncate_unicode_safe() {
    assert_eq!(truncate("hello", 10), "hello");
    assert_eq!(truncate("日本語xyz", 5), "日本...");
    assert_eq!(truncate("abcdef", 2), "...");
}

#[test]
fn estimate_tokens_is_bytes_over_four() {
    assert_eq!(estimate_tokens("hello world"), 3);
    assert_eq!(estimate_tokens(""), 0);
}

#[test]
fn unmatched_command_passes_through() {
    let raw = "some random output\nwith lines";
    assert_eq!(run_filters("frobnicate --xyz", raw), raw);
}

#[test]
fn matched_command_is_filtered() {
    let raw = "make[1]: Entering directory '/x'\ngcc -c foo.c\nmake[1]: Leaving directory '/x'";
    let out = run_filters("make all", raw);
    assert!(!out.contains("Entering directory"));
    assert!(out.contains("gcc -c foo.c"));
}

#[test]
fn never_worse_reverts_growth() {
    // A tiny output a filter could only pad; guard keeps it raw.
    let raw = "ok";
    assert_eq!(run_filters("make all", raw), raw);
}

#[test]
fn sanitize_slug_basic() {
    assert_eq!(sanitize_slug("cargo_test"), "cargo_test");
    assert_eq!(sanitize_slug("cargo-test"), "cargo-test");
}

#[test]
fn sanitize_slug_shortens_long() {
    let long = format!("grep_0_{}", "a".repeat(50));
    let short = sanitize_slug(&long);
    assert!(
        short.len() < 24,
        "long slug should shorten, got '{}'",
        short
    );
    assert!(short.starts_with("grep_0_a"));
    // Deterministic and collision-free across distinct slugs.
    assert_eq!(sanitize_slug(&long), short);
    let other = sanitize_slug(&format!("grep_1_{}", "a".repeat(50)));
    assert_ne!(other, short);
}

#[test]
fn command_slug_first_token() {
    assert_eq!(command_slug("cargo test --all"), "cargo");
    assert_eq!(command_slug(""), "cmd");
}

#[test]
fn cap_content_truncates_on_boundary() {
    let japanese = "\u{6F22}".repeat(333); // 999 bytes of 3-byte chars
    let capped = cap_content(&japanese, 998);
    assert!(capped.contains("--- truncated at 998 bytes ---"));
    assert!(capped.starts_with(&"\u{6F22}".repeat(332)));
}

#[test]
fn cap_content_keeps_small() {
    assert_eq!(cap_content("small", 100), "small");
}

#[test]
fn display_shell_path_quotes_spaces() {
    let path = "/tmp/mikmik/Application Support/123_go_test.log";
    assert_eq!(
        display_shell_path(path, '/'),
        "\"/tmp/mikmik/Application Support/123_go_test.log\""
    );
}

#[test]
fn display_shell_path_keeps_simple() {
    let path = "/tmp/mikmik/tee/123_cargo_test.log";
    assert_eq!(
        display_shell_path(path, '/'),
        "/tmp/mikmik/tee/123_cargo_test.log"
    );
}

#[test]
fn full_hint_format() {
    let hint = full_hint("/tmp/mikmik/tee/123_cargo_test.log", '/');
    assert!(hint.starts_with("[full output: "));
    assert!(hint.ends_with(']'));
    assert!(hint.contains("123_cargo_test.log"));
}

#[test]
fn tail_hint_format() {
    let hint = tail_hint("/tmp/mikmik/tee/123_make.log", '/', 22);
    assert!(hint.starts_with("[see remaining: tail -n +22 "));
    assert!(hint.ends_with(']'));
}

#[test]
fn plan_lossless_success_recovers_nothing() {
    assert!(matches!(
        plan_recovery("x".repeat(1000).as_str(), 0, &Lossiness::Lossless),
        Recovery::Nothing
    ));
}

#[test]
fn plan_lossless_failure_takes_full() {
    let raw = "x".repeat(1000);
    assert!(matches!(
        plan_recovery(&raw, 1, &Lossiness::Lossless),
        Recovery::Full(_)
    ));
}

#[test]
fn plan_whole_takes_full() {
    let raw = "x".repeat(1000);
    assert!(matches!(
        plan_recovery(&raw, 0, &Lossiness::Whole),
        Recovery::Full(_)
    ));
}

#[test]
fn plan_tail_takes_tail() {
    let loss = Lossiness::Tail {
        tee_payload: "a\nb\nc".to_string(),
        tail_offset: 3,
    };
    assert!(matches!(
        plan_recovery("ignored", 0, &loss),
        Recovery::Tail { offset: 3, .. }
    ));
}

#[test]
fn recover_hint_skips_small_payload() {
    // Below MIN_TEE_SIZE, no file is written even on failure.
    assert!(recover_hint("tiny", "cargo test", 1, &Lossiness::Lossless).is_none());
}

#[test]
fn recover_hint_lossless_success_none() {
    let raw = "x".repeat(1000);
    assert!(recover_hint(&raw, "cargo test", 0, &Lossiness::Lossless).is_none());
}

#[test]
fn command_matches_filter_agrees_with_find_matching_filter() {
    let file = read_file(SOME_FILTERS).expect("valid");
    let set = build_match_set(&match_patterns_in(&file));
    let filters = make_filters(SOME_FILTERS);
    for cmd in ["make all", "terraform plan", "frobnicate xyz", "cd /tmp"] {
        assert_eq!(
            command_matches_filter(&set, cmd),
            find_filter_in(cmd, &filters).is_some(),
            "match-set disagreed with registry for {cmd:?}"
        );
    }
}

#[test]
fn test_loss_head_lines_is_tail() {
    let toml = "schema_version = 1\n[filters.f]\nmatch_command = \"^cmd\"\nhead_lines = 2\n";
    let (out, loss) = apply_filter_with_info(&first_filter(toml), "a\nb\nc\nd\ne");
    assert!(out.starts_with("a\nb\n"));
    match loss {
        Lossiness::Tail {
            tee_payload,
            tail_offset,
        } => {
            assert_eq!(tail_offset, 3);
            let recovered: Vec<&str> = tee_payload.lines().skip(tail_offset - 1).collect();
            assert_eq!(recovered, vec!["c", "d", "e"]);
        }
        other => panic!("expected Tail, got {:?}", other),
    }
}

#[test]
fn test_loss_max_lines_is_tail() {
    let toml = "schema_version = 1\n[filters.f]\nmatch_command = \"^cmd\"\nmax_lines = 2\n";
    match loss_of(toml, "a\nb\nc\nd\ne") {
        Lossiness::Tail {
            tee_payload,
            tail_offset,
        } => {
            assert_eq!(tail_offset, 3);
            let recovered: Vec<&str> = tee_payload.lines().skip(tail_offset - 1).collect();
            assert_eq!(recovered, vec!["c", "d", "e"]);
        }
        other => panic!("expected Tail, got {:?}", other),
    }
}

#[test]
fn test_loss_tail_lines_is_whole() {
    let toml = "schema_version = 1\n[filters.f]\nmatch_command = \"^cmd\"\ntail_lines = 2\n";
    assert_eq!(loss_of(toml, "a\nb\nc\nd\ne"), Lossiness::Whole);
}

#[test]
fn test_loss_head_then_max_is_whole() {
    let toml = "schema_version = 1\n[filters.f]\nmatch_command = \"^cmd\"\nhead_lines = 2\nmax_lines = 2\n";
    assert_eq!(loss_of(toml, "a\nb\nc\nd\ne"), Lossiness::Whole);
}

#[test]
fn test_loss_truncate_lines_at_is_whole() {
    let toml =
        "schema_version = 1\n[filters.f]\nmatch_command = \"^cmd\"\ntruncate_lines_at = 3\n";
    assert_eq!(loss_of(toml, "abcdefgh\nshort"), Lossiness::Whole);
}

#[test]
fn test_loss_match_output_is_whole() {
    let toml = "schema_version = 1\n[filters.f]\nmatch_command = \"^cmd\"\n[[filters.f.match_output]]\npattern = \"ok\"\nmessage = \"all good\"\n";
    let (out, loss) = apply_filter_with_info(&first_filter(toml), "everything ok here\nmore");
    assert_eq!(out, "all good");
    assert_eq!(loss, Lossiness::Whole);
}

#[test]
fn test_loss_strip_only_is_none() {
    let toml = "schema_version = 1\n[filters.f]\nmatch_command = \"^cmd\"\nstrip_lines_matching = [\"^noise\"]\n";
    let (out, loss) = apply_filter_with_info(&first_filter(toml), "keep\nnoise line\nkeep2");
    assert_eq!(out, "keep\nkeep2");
    assert_eq!(loss, Lossiness::Lossless);
}

#[test]
fn test_loss_no_truncation_is_none() {
    let toml = "schema_version = 1\n[filters.f]\nmatch_command = \"^cmd\"\nhead_lines = 10\n";
    assert_eq!(loss_of(toml, "a\nb\nc"), Lossiness::Lossless);
}

#[test]
fn test_apply_filter_wrapper_matches_with_info() {
    let toml = "schema_version = 1\n[filters.f]\nmatch_command = \"^cmd\"\nhead_lines = 2\n";
    let f = first_filter(toml);
    let input = "a\nb\nc\nd";
    assert_eq!(apply_filter(&f, input), apply_filter_with_info(&f, input).0);
}

#[test]
fn test_strip_ansi_removes_codes() {
    let f = first_filter(
        "schema_version = 1\n[filters.f]\nmatch_command = \"^cmd\"\nstrip_ansi = true\n",
    );
    assert_eq!(
        apply_filter(&f, "\x1b[31mError\x1b[0m\nnormal"),
        "Error\nnormal"
    );
}

#[test]
fn test_strip_lines_matching_basic() {
    let f = first_filter("schema_version = 1\n[filters.f]\nmatch_command = \"^cmd\"\nstrip_lines_matching = [\"^noise\", \"^verbose\"]\n");
    let out = apply_filter(&f, "noise line\nkeep this\nverbose stuff\nalso keep");
    assert_eq!(out, "keep this\nalso keep");
}

#[test]
fn test_keep_lines_matching_basic() {
    let f = first_filter("schema_version = 1\n[filters.f]\nmatch_command = \"^cmd\"\nkeep_lines_matching = [\"^PASS\", \"^FAIL\"]\n");
    let out = apply_filter(&f, "PASS test_a\nsome noise\nFAIL test_b\nmore noise");
    assert_eq!(out, "PASS test_a\nFAIL test_b");
}

#[test]
fn test_truncate_lines_at_unicode_safe() {
    let f = first_filter(
        "schema_version = 1\n[filters.f]\nmatch_command = \"^cmd\"\ntruncate_lines_at = 5\n",
    );
    assert_eq!(apply_filter(&f, "hello\n日本語xyz"), "hello\n日本...");
}

#[test]
fn test_head_lines() {
    let f = first_filter(
        "schema_version = 1\n[filters.f]\nmatch_command = \"^cmd\"\nhead_lines = 2\n",
    );
    let out = apply_filter(&f, "a\nb\nc\nd\ne");
    assert!(out.starts_with("a\nb\n"));
    assert!(out.contains("3 lines omitted"));
}

#[test]
fn test_tail_lines() {
    let f = first_filter(
        "schema_version = 1\n[filters.f]\nmatch_command = \"^cmd\"\ntail_lines = 2\n",
    );
    let out = apply_filter(&f, "a\nb\nc\nd\ne");
    assert!(out.contains("3 lines omitted"));
    assert!(out.ends_with("d\ne"));
}

#[test]
fn test_head_and_tail_combined() {
    let f = first_filter("schema_version = 1\n[filters.f]\nmatch_command = \"^cmd\"\nhead_lines = 2\ntail_lines = 2\n");
    let out = apply_filter(&f, "a\nb\nc\nd\ne\nf");
    assert!(out.starts_with("a\nb\n"));
    assert!(out.contains("2 lines omitted"));
    assert!(out.ends_with("e\nf"));
}

#[test]
fn test_max_lines_counts_omit_message() {
    let f = first_filter(
        "schema_version = 1\n[filters.f]\nmatch_command = \"^cmd\"\nmax_lines = 3\n",
    );
    let out = apply_filter(&f, "a\nb\nc\nd\ne");
    assert_eq!(out.lines().count(), 4);
    assert!(out.contains("lines truncated"));
}

#[test]
fn test_on_empty_when_all_filtered() {
    let f = first_filter("schema_version = 1\n[filters.f]\nmatch_command = \"^cmd\"\nstrip_lines_matching = [\".*\"]\non_empty = \"nothing left\"\n");
    assert_eq!(apply_filter(&f, "line1\nline2"), "nothing left");
}

#[test]
fn test_replace_backreferences() {
    let f = first_filter("schema_version = 1\n[filters.f]\nmatch_command = \"^cmd\"\nreplace = [\n  { pattern = \"(\\\\w+):(\\\\w+)\", replacement = \"$2:$1\" },\n]\n");
    assert_eq!(apply_filter(&f, "hello:world"), "world:hello");
}

#[test]
fn test_match_output_unless_blocks_when_errors_present() {
    let f = first_filter("schema_version = 1\n[filters.f]\nmatch_command = \"^rsync\"\nmatch_output = [\n  { pattern = \"total size is\", message = \"ok (synced)\", unless = \"error|failed\" },\n]\n");
    let out = apply_filter(
        &f,
        "rsync: [sender] error\ntotal size is 1000  speedup is 3.33\n",
    );
    assert_ne!(out.trim(), "ok (synced)");
    assert!(out.contains("error"));
}

#[test]
fn test_mutual_exclusion_strip_keep_errors() {
    let result = make_filters("schema_version = 1\n[filters.f]\nmatch_command = \"^cmd\"\nstrip_lines_matching = [\"a\"]\nkeep_lines_matching = [\"b\"]\n");
    assert!(result.is_empty());
}

#[test]
fn test_invalid_regex_returns_err() {
    assert!(
        make_filters("schema_version = 1\n[filters.f]\nmatch_command = \"[\"\n").is_empty()
    );
}

#[test]
fn test_schema_version_mismatch_errors() {
    assert!(parse_and_compile(
        "schema_version = 99\n[filters.f]\nmatch_command = \"^cmd\"\n",
        "test"
    )
    .is_err());
}

#[test]
fn test_unknown_field_typo_errors() {
    assert!(parse_and_compile(
        "schema_version = 1\n[filters.f]\nmatch_command = \"^cmd\"\nstrip_ansi_typo = true\n",
        "test"
    )
    .is_err());
}

#[test]
fn test_empty_filter_passthrough() {
    let f = first_filter("schema_version = 1\n[filters.f]\nmatch_command = \"^cmd\"\n");
    let input = "line1\nline2\nline3";
    assert_eq!(apply_filter(&f, input), input);
}

#[test]
fn test_find_filter_matches_terraform() {
    let filters = make_filters(SOME_FILTERS);
    let found = find_filter_in("terraform plan -out=tfplan", &filters);
    assert_eq!(found.map(|f| f.name.as_str()), Some("terraform-plan"));
}

#[test]
fn test_find_filter_no_match_returns_none() {
    let filters = make_filters(SOME_FILTERS);
    assert!(find_filter_in("kubectl get pods", &filters).is_none());
}

#[test]
fn a_pattern_that_cannot_be_read_is_left_out_of_the_match_set() {
    let set = build_match_set(&vec!["[".to_string(), "^make".to_string()]);
    assert!(command_matches_filter(&set, "make all"));
    assert!(!command_matches_filter(&set, "[ -f x ]"));
    assert!(!command_matches_filter(&None, "make all"));
}

#[test]
fn a_filter_that_does_not_compile_is_a_warning_and_not_a_failure() {
    let file = read_file("schema_version = 1\n[filters.bad]\nmatch_command = \"[\"\n[filters.good]\nmatch_command = \"^ls\"\n").expect("valid");
    let (filters, warnings) = compile_file(&file, "test").expect("the file is readable");
    assert_eq!(filters.len(), 1);
    assert_eq!(filters[0].name, "good");
    assert_eq!(warnings.len(), 1);
    assert!(warnings[0].contains("bad"), "{}", warnings[0]);
}

#[test]
fn the_shorter_text_wins() {
    assert_eq!(never_worse("ok", "something much longer than that"), "ok");
    assert_eq!(never_worse("a long output of a command", "short"), "short");
}

#[test]
fn a_small_enough_output_is_kept_whole_for_recovery() {
    let raw = "line\n".repeat(200);
    let kept = recover_hint(&raw, "cargo test --all", 1, &Lossiness::Lossless).expect("a failure is kept");
    assert_eq!(kept.slug, "cargo");
    assert_eq!(kept.content, cap_content(&raw, MAX_FILE_SIZE));
    assert_eq!(kept.tail_offset, None);
    assert_eq!(kept.file_name(1_700_000_000), tee_file_name(1_700_000_000, "cargo"));
    assert!(kept.hint("~/x.log", '/').starts_with("[full output: "));
}

#[test]
fn a_cut_tail_is_recovered_from_its_offset() {
    let loss = Lossiness::Tail { tee_payload: "line\n".repeat(200), tail_offset: 7 };
    let kept = recover_hint("ignored", "make", 0, &loss).expect("a cut tail is kept");
    assert_eq!(kept.tail_offset, Some(7));
    assert!(kept.hint("/t/x.log", '/').starts_with("[see remaining: tail -n +7 "));
}

#[test]
fn only_the_oldest_files_are_stale() {
    let names: Vec<String> = (0..25).map(|i| format!("{:010}_test.log", 1_000_000 + i)).collect();
    let stale = stale_files(&names, 20);
    assert_eq!(stale.len(), 5);
    assert!(stale.contains(&format!("{:010}_test.log", 1_000_000)));
    assert!(!stale.contains(&format!("{:010}_test.log", 1_000_024)));
    assert!(stale_files(&names, 25).is_empty());
}

#[test]
fn a_path_below_home_is_shown_from_there() {
    assert_eq!(display_path("/home/me/x.log", Some("x.log")), "~/x.log");
    assert_eq!(display_path("/tmp/x.log", None), "/tmp/x.log");
}

#[test]
fn a_hash_is_short_and_depends_on_the_text() {
    assert_eq!(short_hash("a"), "ca9781");
    assert_ne!(short_hash("a"), short_hash("b"));
    assert_eq!(short_hash("a"), short_hash("a"));
}

#[test]
fn what_was_cut_can_be_read_from_the_payload() {
    let (out, loss) = apply_filter_with_info(
        &first_filter("schema_version = 1\n[filters.f]\nmatch_command = \"^cmd\"\nhead_lines = 1\n"),
        "a\nb",
    );
    assert!(out.contains("1 lines omitted"), "{out}");
    assert_eq!(
        loss,
        Lossiness::Tail { tee_payload: "a\nb".to_string(), tail_offset: 2 }
    );
}

#[test]
fn without_a_pre_check_nothing_is_filtered() {
    let raw = "make[1]: Entering directory '/x'\nmake[1]: Leaving directory '/x'";
    assert_eq!(filter_command_output(&None, &make_filters(SOME_FILTERS), "make all", raw), raw);
    assert_ne!(run_filters("make all", raw), raw);
}

#[test]
fn truncating_twice_changes_nothing() {
    for length in 0..6 {
        let once = truncate("abcdefgh", length);
        assert_eq!(truncate(&once, length), once);
    }
}

#[test]
fn a_compiled_file_keeps_descriptions_and_stderr() {
    let filters = make_filters(
        "schema_version = 1\n[filters.a]\nmatch_command = \"^a\"\ndescription = \"d\"\nfilter_stderr = true\n[filters.b]\nmatch_command = \"^b\"\n",
    );
    assert_eq!(filters[0].description.as_deref(), Some("d"));
    assert!(filters[0].filter_stderr);
    assert_eq!(filters[1].description, None);
    assert!(!filters[1].filter_stderr);
}
