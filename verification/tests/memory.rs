use mikmik_tools::learn_tool::{refuse_empty as refuse_empty_lesson, LearnTool};
use mikmik_tools::memory_append::{
    append_entry, body_after_frontmatter, clip, normalise, parse_entries, render, uncreated,
    unwritten, AppendConfig, Appended, Entry, Masked,
};
use mikmik_tools::memory_backend::sqlite::{
    build_fts_query, build_record_report, hit_from_row, import_row, kind_for_filename,
    prompt_block, record, row_for, IndexRow, Recorded, SqliteBackend,
};
use mikmik_tools::memory_backend::file::FileBackend;
use mikmik_tools::memory_backend::{backend_for, Backend};
use mikmik_tools::memory_guard::refuse_secret_write;
use mikmik_tools::memory_tool::{
    answer, files_wanted, refuse_empty, MatchingFile, MemoryTool, DEFAULT_MAX_FILES,
    MAX_FILES_LIMIT,
};

const CONFIG: AppendConfig = AppendConfig {
    filename: "notes.md",
    frontmatter: "---\nname: Notes\ndescription: d\ntype: project\n---\n",
    max_item_chars: 2000,
    max_context_chars: 400,
    cap: 100,
    noun: "note",
};

fn plain(text: &str) -> Masked {
    Masked { text: text.to_string(), classes: Vec::new() }
}

/// A file that lessons are appended to.
struct Notes {
    written: String,
}

impl Notes {
    fn learn(&mut self, lesson: &Masked, topic: Option<&str>, context: &Option<Masked>) -> Appended {
        let appended = append_entry(
            &self.written,
            "/memory/notes.md",
            &CONFIG,
            lesson,
            "2026-01-01",
            topic,
            context,
        );
        if let Some(content) = &appended.content {
            self.written = content.clone();
        }
        appended
    }

    fn say(&mut self, lesson: &str) -> Appended {
        self.learn(&plain(lesson), None, &None)
    }
}

fn notes() -> Notes {
    Notes { written: String::new() }
}

#[test]
fn parsing_what_was_rendered_gives_the_same_entries() {
    let entries = vec![
        Entry {
            text: "## 2026-01-01\nthird".to_string(),
            key: "third".to_string(),
        },
        Entry {
            text: "## 2026-01-01\nsecond".to_string(),
            key: "second".to_string(),
        },
        Entry {
            text: "## 2026-01-01\nfirst".to_string(),
            key: "first".to_string(),
        },
    ];
    let rendered = render(CONFIG.frontmatter, &entries);
    let parsed = parse_entries(body_after_frontmatter(&rendered));
    assert_eq!(parsed.len(), 3);
    assert_eq!(parsed[0].key, "third");
    assert_eq!(parsed[2].key, "first");
}

#[test]
fn normalise_collapses_case_and_whitespace() {
    assert_eq!(normalise("  Cargo   RUNS here "), "cargo runs here");
}

#[test]
fn clip_keeps_a_character_boundary_and_marks_the_cut() {
    let long = "é".repeat(10);
    let clipped = clip(&long, 4);
    assert!(clipped.ends_with('…'));
    assert_eq!(clipped.chars().filter(|c| *c == 'é').count(), 4);
}

#[test]
fn a_lesson_lands_in_a_file_the_scan_can_index() {
    let mut f = notes();
    let result = f.say("Cargo commands run from src-rust.");
    assert!(result.report.contains("/memory/notes.md"), "{}", result.report);
    assert!(f.written.starts_with("---\nname: Notes\n"), "{}", f.written);
    assert!(f.written.contains("Cargo commands run from src-rust."));
}

#[test]
fn the_newest_lesson_comes_first() {
    let mut f = notes();
    f.say("first lesson");
    f.say("second lesson");
    let first = f.written.find("second lesson").expect("newest missing");
    let second = f.written.find("first lesson").expect("oldest missing");
    assert!(first < second, "the oldest lesson was on top:\n{}", f.written);
    assert_eq!(f.written.matches("name: Notes").count(), 1);
}

#[test]
fn the_same_lesson_is_not_recorded_twice() {
    let mut f = notes();
    f.say("Cargo commands run from src-rust.");
    let again = f.say("  cargo COMMANDS   run from src-rust.  ");
    assert!(again.content.is_none());
    assert!(again.report.contains("Already recorded"), "{}", again.report);
    assert_eq!(f.written.matches("run from src-rust").count(), 1, "{}", f.written);
}

#[test]
fn a_lesson_of_several_lines_is_not_recorded_twice() {
    let mut f = notes();
    let lesson = "Build from src-rust.\nNever from the root.";
    assert!(f.say(lesson).content.is_some());
    let again = f.say(lesson);
    assert!(again.content.is_none());
    assert!(again.report.contains("Already recorded"), "{}", again.report);

    // Case, spacing and where the lines break make no new lesson.
    assert!(f.say("build FROM src-rust.  never\nfrom the root.").content.is_none());
    assert_eq!(f.written.matches("src-rust").count(), 1, "{}", f.written);

    // A lesson that begins alike and ends otherwise is a new one.
    let mut g = notes();
    assert!(g.say("Two things:\nfirst.").content.is_some());
    assert!(g.say("Two things:\nsecond.").content.is_some());
    assert!(g.say("two things: SECOND.").content.is_none());

    // However its lines end.
    let mut h = notes();
    assert!(h.say("one\r\ntwo\r\n").content.is_some());
    assert!(h.say("one\r\ntwo\r\n").content.is_none());
    assert!(h.say("One two").content.is_none());
}

#[test]
fn a_recorded_lesson_is_found_under_any_topic_and_context() {
    let mut f = notes();
    let lesson = "One line.\nAnother line.";
    let context = Some(plain("said\nin passing"));
    f.learn(&plain(lesson), Some("a topic\nof two lines"), &context);
    let again = f.learn(&plain(lesson), Some("elsewhere"), &None);
    assert!(again.content.is_none(), "{}", f.written);
    assert!(f.written.contains("a topic of two lines"), "{}", f.written);
}

#[test]
fn what_is_recorded_in_between_makes_no_difference() {
    let mut f = notes();
    let lesson = "One line.\nAnother line.";
    f.learn(&plain(lesson), Some("topic"), &Some(plain("why")));
    f.say("something else");
    f.say("a third thing\nof two lines");
    let before = f.written.clone();
    assert!(f.say("one LINE.\n\nanother line.").content.is_none(), "{}", f.written);
    assert!(f.say("A third thing of two lines").content.is_none(), "{}", f.written);
    assert_eq!(f.written, before);
}

#[test]
fn a_bare_heading_stays_a_heading() {
    let mut f = Notes { written: format!("{}\n## \n\n## 2026-01-01\nkept\n", CONFIG.frontmatter) };
    f.say("new");
    assert_eq!(parse_entries(body_after_frontmatter(&f.written)).len(), 3, "{}", f.written);
    f.say("newer");
    assert_eq!(parse_entries(body_after_frontmatter(&f.written)).len(), 4, "{}", f.written);
}

#[test]
fn a_file_that_cannot_be_written_says_why() {
    let made = uncreated("/memory", "denied");
    assert!(made.is_error);
    assert_eq!(made.content, "Failed to create /memory: denied");
    assert_eq!(unwritten("/memory/notes.md", "full").content, "Failed to write /memory/notes.md: full");
}

#[test]
fn the_oldest_lesson_drops_at_the_cap() {
    let mut f = notes();
    for i in 0..CONFIG.cap {
        f.say(&format!("lesson number {i}"));
    }
    assert!(f.written.contains("lesson number 0"));

    let result = f.say("one lesson too many");
    assert!(result.report.contains("oldest dropped"), "{}", result.report);
    assert!(!f.written.contains("lesson number 0"), "the cap did not fire");
    assert!(f.written.contains("one lesson too many"));
    assert_eq!(f.written.matches("\n## ").count(), CONFIG.cap);
}

#[test]
fn a_long_lesson_is_clipped() {
    let clipped = clip(&"x".repeat(CONFIG.max_item_chars + 500), CONFIG.max_item_chars);
    let mut f = notes();
    f.say(&clipped);
    assert!(f.written.contains('…'), "nothing was clipped");
    assert!(f.written.matches('x').count() <= CONFIG.max_item_chars);
}

#[test]
fn a_credential_in_a_lesson_is_masked() {
    let mut f = notes();
    let masked = Masked {
        text: "the deploy token is [REDACTED]".to_string(),
        classes: vec!["github".to_string()],
    };
    let result = f.learn(&masked, None, &None);
    assert!(result.report.contains("masked"), "{}", result.report);
    assert!(f.written.contains("[REDACTED]"), "{}", f.written);
}

#[test]
fn a_topic_and_a_context_are_both_kept() {
    let mut f = notes();
    f.learn(
        &plain("The release workflow refuses a tag it has already seen."),
        Some("releases"),
        &Some(plain("found while tagging")),
    );
    assert!(f.written.contains("— releases"), "{}", f.written);
    assert!(f.written.contains("_context: found while tagging_"), "{}", f.written);
}

#[test]
fn an_empty_lesson_is_rejected() {
    assert!(refuse_empty_lesson("   ").is_some_and(|r| r.is_error));
    assert!(refuse_empty_lesson("something").is_none());
    assert_eq!(LearnTool.name(), "Learn");
}

// ---------------------------------------------------------------------------
// Engines
// ---------------------------------------------------------------------------

#[test]
fn the_setting_selects_the_engine() {
    assert!(matches!(backend_for(&Some("sqlite".to_string()), "/m"), Backend::Sqlite(_)));
    assert!(matches!(backend_for(&Some("file".to_string()), "/m"), Backend::File(_)));
    assert!(matches!(backend_for(&None, "/m"), Backend::File(_)));
    assert_eq!(SqliteBackend::new("/m".to_string()).db_path(), "/m/memory.db");
    let hit = FileBackend::new("/m".to_string()).hit("a.md", "body", 7);
    assert_eq!(hit.title, "a.md");
    assert_eq!(hit.modified_secs, 7);
}

#[test]
fn a_search_matches_any_of_its_words() {
    assert_eq!(build_fts_query("cargo  test"), "\"cargo\" OR \"test\"");
    assert_eq!(build_fts_query("say \"hi\" \""), "\"say\" OR \"hi\"");
    assert_eq!(build_fts_query("  "), "");
}

#[test]
fn the_same_text_has_the_same_key_whatever_its_case() {
    let a = row_for("lesson", "lesson", "one lesson", &None);
    let b = row_for("lesson", "lesson", "  ONE   lesson ", &None);
    assert_eq!(a.norm_key, b.norm_key);
    assert_eq!(a.title, "lesson");
    let c = row_for("lesson", "lesson", "x", &Some(" build ".to_string()));
    assert_eq!(c.title, "build");
    assert_eq!(row_for("lesson", "lesson", "x", &Some("  ".to_string())).title, "lesson");
}

#[test]
fn a_markdown_file_is_imported_under_its_kind() {
    assert_eq!(kind_for_filename("learned.md"), "lesson");
    assert_eq!(kind_for_filename("facts.md"), "fact");
    assert_eq!(kind_for_filename("session-notes.md"), "session_note");
    assert_eq!(kind_for_filename("deploy.md"), "topic");
    let row = import_row("/m/learned.md", "the relay binds 8350", &None, &None).expect("a row");
    assert_eq!(row.kind, "lesson");
    assert_eq!(row.title, "learned.md");
    let named = import_row("/m/x.md", "b", &Some("Named".to_string()), &Some("d".to_string()))
        .expect("a row");
    assert_eq!(named.title, "Named");
    assert_eq!(named.description.as_deref(), Some("d"));
    assert!(import_row("/m/x.txt", "b", &None, &None).is_none());
}

#[test]
fn a_recording_says_how_it_went() {
    let masked = vec!["github".to_string(), "aws".to_string()];
    assert_eq!(
        build_record_report("lesson", &masked),
        "Recorded a lesson in the memory database. A credential was masked before writing (github, aws)."
    );
    assert_eq!(
        record("fact", &vec![], &Recorded::New).content,
        "Recorded a fact in the memory database."
    );
    let again = record("lesson", &vec![], &Recorded::Duplicate);
    assert!(!again.is_error);
    assert!(again.content.contains("Already recorded"), "{}", again.content);
    assert!(record("fact", &vec![], &Recorded::Failed("full".to_string())).is_error);
    assert!(record("fact", &vec![], &Recorded::Unopened("locked".to_string())).is_error);
}

#[test]
fn a_row_is_shown_under_its_title_or_its_kind() {
    assert_eq!(hit_from_row(&None, "fact", "b", -5).title, "fact");
    assert_eq!(hit_from_row(&None, "fact", "b", -5).modified_secs, 0);
    assert_eq!(hit_from_row(&Some("T".to_string()), "fact", "b", 9).title, "T");
    assert_eq!(hit_from_row(&Some("T".to_string()), "fact", "b", 9).modified_secs, 9);
}

#[test]
fn the_index_lists_every_memory_with_its_age() {
    assert_eq!(prompt_block("/m/memory.db", &vec![]), "");
    let block = prompt_block(
        "/m/memory.db",
        &vec![
            IndexRow {
                title: Some("Deploy".to_string()),
                description: Some("how".to_string()),
                age: "today".to_string(),
            },
            IndexRow { title: None, description: None, age: "old".to_string() },
        ],
    );
    assert!(block.starts_with("Memory database: /m/memory.db\n"), "{block}");
    assert!(block.ends_with("## Memory Index\n- Deploy (today): how\n-  (old)"), "{block}");
}

// ---------------------------------------------------------------------------
// The guard and the tool
// ---------------------------------------------------------------------------

#[test]
fn a_credential_bound_for_the_memory_directory_is_refused() {
    let message =
        refuse_secret_write("/p/memory/notes.md", "/p/memory", &vec!["github".to_string()])
            .expect("the write should have been refused");
    assert!(message.contains("github"), "{message}");
}

#[test]
fn a_nested_memory_file_is_covered_too() {
    assert!(refuse_secret_write(
        "/p/memory/topics/deploy.md",
        "/p/memory",
        &vec!["github".to_string()]
    )
    .is_some());
}

#[test]
fn the_same_content_is_allowed_anywhere_else() {
    assert!(
        refuse_secret_write("/p/src/main.rs", "/p/memory", &vec!["github".to_string()]).is_none()
    );
    assert!(
        refuse_secret_write("/p/memory2/x.md", "/p/memory", &vec!["github".to_string()]).is_none()
    );
}

#[test]
fn ordinary_memory_content_passes() {
    assert!(refuse_secret_write("/p/memory/notes.md", "/p/memory", &vec![]).is_none());
}

#[test]
fn a_matching_file_comes_back_whole() {
    let result = answer(
        "releases",
        "/p/memory",
        &vec![MatchingFile {
            filename: "deploy.md".to_string(),
            content: "\nTag, then wait for CI.\n".to_string(),
            freshness: String::new(),
        }],
    );
    assert!(!result.is_error, "{}", result.content);
    assert_eq!(result.content, "## deploy.md\n\nTag, then wait for CI.");
}

#[test]
fn an_old_file_is_prefixed_with_its_freshness_note() {
    let result = answer(
        "crates",
        "/p/memory",
        &vec![MatchingFile {
            filename: "layout.md".to_string(),
            content: "old claim".to_string(),
            freshness: "<system-reminder>47 days old</system-reminder>".to_string(),
        }],
    );
    let note_end = result.content.find("</system-reminder>").expect("no freshness note");
    let claim = result.content.find("old claim").expect("body missing");
    assert!(note_end < claim, "the note trailed the claim it qualifies");
    assert!(result.content.contains("47 days old"));
}

#[test]
fn a_query_that_matches_nothing_says_where_to_look() {
    let result = answer("kubernetes", "/p/memory", &vec![]);
    assert!(!result.is_error, "an empty result is not a failure");
    assert!(result.content.contains("/p/memory"));
}

#[test]
fn an_empty_query_is_rejected() {
    assert!(refuse_empty("   ").is_some_and(|r| r.is_error));
    assert!(refuse_empty("x").is_none());
    assert_eq!(MemoryTool.name(), "Memory");
}

#[test]
fn the_number_of_files_is_bounded() {
    assert_eq!(files_wanted(None), DEFAULT_MAX_FILES);
    assert_eq!(files_wanted(Some(0)), 1);
    assert_eq!(files_wanted(Some(7)), 7);
    assert_eq!(files_wanted(Some(100)), MAX_FILES_LIMIT);
}
