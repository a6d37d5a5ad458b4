use mikmik_tools::edit_flow::{next_edit_phase, EditPhase};
use mikmik_tools::edit_guard::{
    check, count_newlines, describe_failed_match, match_line_ranges, record_applied_edit,
    record_written_file, remap_seen_lines, EditGuard, FileSnapshots, LineRange,
};
use mikmik_tools::file_edit::{
    permission_text as edit_permission_text, plan_edit, success, unread, unwritten, validate,
    FileEditTool, PlannedEdit,
};
use mikmik_tools::file_read::{
    before_reading, permission_text as read_permission_text, show, unreadable, FileReadTool, Found,
};
use mikmik_tools::line_endings::{render, replace_preserving_eol, to_lf, LineEnding};

fn range(start: usize, end: usize) -> LineRange {
    LineRange { start, span: end - start }
}

fn lines(from: usize, to: usize) -> Option<Vec<usize>> {
    Some((from..=to).collect())
}

#[test]
fn a_multi_line_needle_reports_every_line_it_covers() {
    let content = "one\ntwo\nthree\nfour\n";
    assert_eq!(match_line_ranges(content, "two", false), vec![range(2, 2)]);
    assert_eq!(
        match_line_ranges(content, "two\nthree", false),
        vec![range(2, 3)],
        "a needle spanning two lines must report both"
    );
    assert_eq!(match_line_ranges(content, "missing", false), Vec::new());
}

#[test]
fn replace_all_reports_every_occurrence() {
    let content = "x\ny\nx\ny\nx\n";
    assert_eq!(
        match_line_ranges(content, "x", true),
        vec![range(1, 1), range(3, 3), range(5, 5)]
    );
    assert_eq!(match_line_ranges(content, "x", false), vec![range(1, 1)]);
}

#[test]
fn an_edit_to_a_changed_file_is_refused() {
    let mut store = FileSnapshots::new();
    store.record("/tmp/a.rs", "let x = 1;\n", None);

    let refusal = check(
        &store,
        EditGuard::Stale,
        "/tmp/a.rs",
        "let y = 2;\nlet x = 1;\n",
        "let x = 1;",
        false,
    );
    assert!(
        refusal.is_some_and(|r| r.message.contains("changed after this session read it")),
        "a changed file was accepted"
    );
}

#[test]
fn an_edit_to_the_file_that_was_read_is_allowed() {
    let mut store = FileSnapshots::new();
    store.record("/tmp/a.rs", "let x = 1;\n", None);

    assert!(check(&store, EditGuard::Stale, "/tmp/a.rs", "let x = 1;\n", "let x = 1;", false)
        .is_none());
}

#[test]
fn a_line_ending_rewrite_does_not_read_as_a_changed_file() {
    let mut store = FileSnapshots::new();
    store.record("/tmp/a.rs", "a\nb\n", None);

    assert!(check(&store, EditGuard::Stale, "/tmp/a.rs", "a\r\nb\r\n", "a", false).is_none());
}

#[test]
fn a_file_this_session_never_read_is_not_guarded() {
    let store = FileSnapshots::new();
    assert!(
        check(&store, EditGuard::Strict, "/tmp/unread.rs", "anything\n", "any", false).is_none()
    );
}

#[test]
fn the_off_level_checks_nothing() {
    let mut store = FileSnapshots::new();
    store.record("/tmp/a.rs", "old\n", None);
    assert!(check(
        &store,
        EditGuard::Off,
        "/tmp/a.rs",
        "completely different\n",
        "different",
        false
    )
    .is_none());
}

#[test]
fn an_edit_to_a_line_that_was_never_displayed_is_refused() {
    let mut store = FileSnapshots::new();
    let content = "one\ntwo\nthree\nfour\nfive\n";
    store.record("/tmp/a.rs", content, lines(1, 2));

    let refusal = check(&store, EditGuard::Strict, "/tmp/a.rs", content, "four", false)
        .expect("blind edit accepted");
    assert!(refusal.message.contains("never displayed"), "{}", refusal.message);
    assert!(
        refusal.message.contains("4: four"),
        "the error must quote the line, got {}",
        refusal.message
    );
}

#[test]
fn an_edit_inside_the_displayed_range_is_allowed() {
    let mut store = FileSnapshots::new();
    let content = "one\ntwo\nthree\n";
    store.record("/tmp/a.rs", content, lines(1, 3));

    assert!(check(&store, EditGuard::Strict, "/tmp/a.rs", content, "two", false).is_none());
}

#[test]
fn the_stale_level_allows_an_undisplayed_line() {
    let mut store = FileSnapshots::new();
    let content = "one\ntwo\nthree\n";
    store.record("/tmp/a.rs", content, lines(1, 1));

    assert!(check(&store, EditGuard::Stale, "/tmp/a.rs", content, "three", false).is_none());
}

#[test]
fn a_repeated_failure_says_something_new_the_third_time() {
    let mut store = FileSnapshots::new();
    let plain = "old_string not found";

    assert_eq!(
        describe_failed_match(&mut store, EditGuard::Stale, "/tmp/a.rs", "foo", plain),
        plain
    );
    assert_eq!(
        describe_failed_match(&mut store, EditGuard::Stale, "/tmp/a.rs", "foo", plain),
        plain
    );
    let third = describe_failed_match(&mut store, EditGuard::Stale, "/tmp/a.rs", "foo", plain);
    assert!(third.contains("attempt 3"), "{third}");
    assert!(third.contains("Read"), "{third}");
}

#[test]
fn the_off_level_never_escalates() {
    let mut store = FileSnapshots::new();
    let plain = "old_string not found";
    for _ in 0..5 {
        assert_eq!(
            describe_failed_match(&mut store, EditGuard::Off, "/tmp/a.rs", "foo", plain),
            plain
        );
    }
}

#[test]
fn an_applied_edit_keeps_the_record_usable() {
    let mut store = FileSnapshots::new();
    let before = "one\ntwo\nthree\n";
    let after = "one\nTWO\nEXTRA\nthree\n";
    store.record("a.rs", before, lines(1, 3));

    record_applied_edit(
        &mut store,
        "a.rs",
        before,
        after,
        "two",
        "TWO\nEXTRA",
        1,
        &Some(after.to_string()),
    );

    assert!(
        store.snapshot("a.rs").is_some(),
        "the record was dropped, so the assertions below prove nothing"
    );
    assert!(check(&store, EditGuard::Strict, "a.rs", after, "TWO", false).is_none());
    assert!(check(&store, EditGuard::Strict, "a.rs", after, "three", false).is_none());
    assert!(check(&store, EditGuard::Strict, "a.rs", after, "EXTRA\nthree", false).is_none());
}

#[test]
fn a_formatter_rewriting_the_file_does_not_leave_a_stale_record() {
    let mut store = FileSnapshots::new();
    let written = "one\nTWO\n";
    let formatted = "one\nTWO;\n";
    store.record("a.rs", "one\ntwo\n", lines(1, 2));

    record_applied_edit(
        &mut store,
        "a.rs",
        "one\ntwo\n",
        written,
        "two",
        "TWO",
        1,
        &Some(formatted.to_string()),
    );

    assert!(
        check(&store, EditGuard::Stale, "a.rs", formatted, "TWO;", false).is_none(),
        "the next edit reads as stale because the record predates the formatter"
    );
}

#[test]
fn a_multi_replacement_edit_drops_the_record() {
    let mut store = FileSnapshots::new();
    store.record("a.rs", "x\nx\n", lines(1, 2));

    record_applied_edit(
        &mut store,
        "a.rs",
        "x\nx\n",
        "y\ny\n",
        "x",
        "y",
        2,
        &Some("y\ny\n".to_string()),
    );
    assert!(store.snapshot("a.rs").is_none());
}

#[test]
fn a_successful_edit_clears_the_failure_counter() {
    let mut store = FileSnapshots::new();
    let plain = "nope";
    describe_failed_match(&mut store, EditGuard::Stale, "a.rs", "foo", plain);
    describe_failed_match(&mut store, EditGuard::Stale, "a.rs", "foo", plain);

    record_applied_edit(
        &mut store,
        "a.rs",
        "a\n",
        "b\n",
        "a",
        "b",
        1,
        &Some("b\n".to_string()),
    );

    assert_eq!(
        describe_failed_match(&mut store, EditGuard::Stale, "a.rs", "foo", plain),
        plain,
        "the counter survived a successful edit"
    );
}

#[test]
fn a_written_file_is_recorded_from_disk() {
    let mut store = FileSnapshots::new();

    record_written_file(&mut store, "new.rs", &Some("fn main() {}\n".to_string()));

    let snapshot = store.snapshot("new.rs").expect("the write recorded nothing");
    assert_eq!(snapshot.text, "fn main() {}\n");
    assert!(
        (1..=500).all(|line| snapshot.saw(line)),
        "the model wrote this file, so no line is withheld from it"
    );
}

#[test]
fn a_file_that_could_not_be_read_back_is_forgotten() {
    let mut store = FileSnapshots::new();
    store.record("a.rs", "old\n", None);
    record_written_file(&mut store, "a.rs", &None);
    assert!(store.snapshot("a.rs").is_none());
}

#[test]
fn lines_below_an_edit_move_with_it() {
    let mut store = FileSnapshots::new();
    store.record("a.rs", "one\ntwo\nthree\n", Some(vec![1, 3]));
    let mapped = remap_seen_lines(&store, "a.rs", "one\ntwo\nthree\n", "two", "2a\n2b")
        .expect("one occurrence can be followed");
    for line in [1, 2, 3, 4] {
        assert!(mapped.contains(&line), "{line} is seen: {mapped:?}");
    }
    assert_eq!(count_newlines("a\nb\n"), 2);
}

// ---------------------------------------------------------------------------
// The edit tool
// ---------------------------------------------------------------------------

/// A file with what a session knows of it.
struct Session {
    store: FileSnapshots,
    guard: EditGuard,
    content: String,
}

impl Session {
    fn new(guard: EditGuard, content: &str) -> Session {
        Session { store: FileSnapshots::new(), guard, content: content.to_string() }
    }

    fn read(&mut self, offset: Option<usize>, limit: Option<usize>) {
        let outcome = show("a.rs", &self.content, offset, limit);
        assert!(!outcome.result.is_error, "{}", outcome.result.content);
        if let Some(displayed) = outcome.displayed {
            self.store.record("a.rs", &self.content, displayed);
        }
    }

    fn edit(&mut self, old: &str, new: &str) -> Result<PlannedEdit, String> {
        if let Some(refused) = validate(old, new) {
            return Err(refused.content);
        }
        let planned =
            plan_edit(&mut self.store, self.guard, "a.rs", &self.content, old, new, false)?;
        record_applied_edit(
            &mut self.store,
            "a.rs",
            &self.content,
            &planned.content,
            &planned.old_string,
            &planned.new_string,
            planned.replacements,
            &Some(planned.content.clone()),
        );
        self.content = planned.content.clone();
        Ok(planned)
    }
}

#[test]
fn edit_crlf_file_preserves_crlf() {
    let mut session = Session::new(EditGuard::Off, "line one\r\nline two\r\nline three\r\n");
    session.edit("line two", "LINE TWO").expect("edit failed");
    let after = session.content;
    assert_eq!(after, "line one\r\nLINE TWO\r\nline three\r\n");
    assert_eq!(after.matches('\n').count(), after.matches("\r\n").count());
}

#[test]
fn edit_lf_file_stays_lf() {
    let mut session = Session::new(EditGuard::Off, "line one\nline two\nline three\n");
    session.edit("line two", "LINE TWO").expect("edit failed");
    let after = session.content;
    assert_eq!(after, "line one\nLINE TWO\nline three\n");
    assert!(!after.contains('\r'), "LF file gained a CR: {:?}", after);
}

fn read_then_change(guard: EditGuard) -> Session {
    let mut session = Session::new(guard, "let a = 1;\nlet b = 2;\n");
    session.read(None, None);
    session.content = "let a = 1;\nlet b = 99;\nlet c = 3;\n".to_string();
    session
}

#[test]
fn the_guard_refuses_an_edit_to_a_file_that_changed_after_the_read() {
    let mut session = read_then_change(EditGuard::Stale);
    let error = session.edit("let a = 1;", "let a = 7;").expect_err("accepted");
    assert!(error.contains("changed after"), "{error}");
    assert_eq!(session.content, "let a = 1;\nlet b = 99;\nlet c = 3;\n");
}

#[test]
fn the_default_lets_the_same_edit_through() {
    let mut session = read_then_change(EditGuard::Off);
    session.edit("let a = 1;", "let a = 7;").expect("refused");
    assert!(session.content.contains("let a = 7;"));
}

#[test]
fn strict_refuses_an_edit_to_a_line_the_read_never_showed() {
    let mut session = Session::new(EditGuard::Strict, "one\ntwo\nthree\nfour\nfive\n");
    session.read(Some(1), Some(2));

    let blind = session.edit("four", "FOUR").expect_err("accepted");
    assert!(blind.contains("4: four"), "{blind}");

    session.edit("two", "TWO").expect("a line the read did show is still editable");
}

#[test]
fn a_second_edit_after_the_first_is_not_refused_as_stale() {
    let mut session = Session::new(EditGuard::Strict, "one\ntwo\nthree\n");
    session.read(None, None);
    for (old, new) in [("one", "ONE"), ("three", "THREE")] {
        session.edit(old, new).unwrap_or_else(|e| panic!("editing {old}: {e}"));
    }
    assert_eq!(session.content, "ONE\ntwo\nTHREE\n");
}

#[test]
fn an_edit_that_writes_the_same_bytes_is_refused() {
    let mut session = Session::new(EditGuard::Off, "one\ntwo\n");
    let error = session.edit("one\ntwo", "one\r\ntwo").expect_err("accepted");
    assert!(error.contains("byte for byte"), "{error}");
}

#[test]
fn a_third_identical_failure_says_to_read_instead() {
    let mut session = Session::new(EditGuard::Stale, "one\n");
    let first = session.edit("nowhere", "somewhere").expect_err("accepted");
    assert!(!first.contains("attempt 3"), "{first}");
    let second = session.edit("nowhere", "somewhere").expect_err("accepted");
    assert!(!second.contains("attempt 3"), "{second}");
    let third = session.edit("nowhere", "somewhere").expect_err("accepted");
    assert!(third.contains("attempt 3"), "{third}");
}

#[test]
fn an_edit_has_to_change_something() {
    assert!(validate("a", "a").is_some_and(|r| r.is_error));
    assert!(validate("a", "b").is_none());
}

#[test]
fn an_ambiguous_edit_is_refused_unless_all_are_meant() {
    let mut store = FileSnapshots::new();
    let error = plan_edit(&mut store, EditGuard::Off, "a", "x\nx\n", "x", "y", false)
        .expect_err("two occurrences");
    assert!(error.contains('2'), "{error}");
    let planned = plan_edit(&mut store, EditGuard::Off, "a", "x\nx\n", "x", "y", true)
        .expect("all occurrences");
    assert_eq!(planned.content, "y\ny\n");
    assert_eq!(planned.replacements, 2);
}

#[test]
fn a_success_says_how_many_places_changed() {
    let one = success("/a.rs", 1, &None);
    let two = success("/a.rs", 2, &Some("note".to_string()));
    assert!(!one.is_error && !two.is_error);
    assert!(one.content.contains("1 replacement"), "{}", one.content);
    assert!(!one.content.contains("replacements"), "{}", one.content);
    assert!(two.content.contains("2 replacements"), "{}", two.content);
    assert!(two.content.contains("note"), "{}", two.content);
    assert_eq!(two.metadata.expect("metadata").unsigned_of("replacements"), Some(2));
}

// ---------------------------------------------------------------------------
// Line endings
// ---------------------------------------------------------------------------

#[test]
fn the_dominant_line_ending_is_detected() {
    assert_eq!(LineEnding::detect("a\r\nb\r\nc\n"), LineEnding::Crlf);
    assert_eq!(LineEnding::detect("a\nb\n"), LineEnding::Lf);
    assert_eq!(LineEnding::detect(""), LineEnding::Lf);
    assert_eq!(to_lf("a\r\nb\n"), "a\nb\n");
    assert_eq!(render("a\nb\n", LineEnding::Crlf), "a\r\nb\r\n");
}

#[test]
fn replacing_every_place_reads_as_a_plain_replacement() {
    let content = "one\r\ntwo\r\none\r\n";
    let out = replace_preserving_eol(content, "one\n", "a\nb\n", LineEnding::Crlf, true);
    assert_eq!(out, "a\r\nb\r\ntwo\r\na\r\nb\r\n");
    assert_eq!(to_lf(&out), to_lf(content).replace("one\n", "a\nb\n"));
}

#[test]
fn a_replacement_keeps_the_lines_it_does_not_touch() {
    assert_eq!(
        replace_preserving_eol("a\r\nb\r\n", "b", "x\ny", LineEnding::Crlf, false),
        "a\r\nx\r\ny\r\n"
    );
}

// ---------------------------------------------------------------------------
// The read tool
// ---------------------------------------------------------------------------

#[test]
fn a_whole_read_withholds_nothing_and_a_part_names_its_lines() {
    let whole = show("/a", "one\ntwo\n", None, None);
    assert!(matches!(whole.displayed, Some(None)));
    let part = show("/a", "one\ntwo\nthree\n", Some(2), Some(1));
    assert_eq!(part.displayed, Some(Some(vec![2])));
    assert!(part.result.content.contains("two"), "{}", part.result.content);
    assert!(!part.result.content.contains("three\n"), "{}", part.result.content);
}

#[test]
fn a_limit_past_the_end_shows_the_rest() {
    let rest = show("/a", "a\nb\nc\n", Some(2), Some(usize::MAX));
    assert_eq!(rest.result.content, "2\tb\n3\tc\n");
    assert_eq!(rest.displayed, Some(Some(vec![2, 3])));
}

#[test]
fn a_file_that_cannot_be_edited_says_why() {
    assert_eq!(unread("/a", "gone").content, "Failed to read file /a: gone");
    assert_eq!(unwritten("/a", "full").content, "Failed to write file /a: full");
    assert!(unread("/a", "gone").is_error && unwritten("/a", "full").is_error);
    assert_eq!(edit_permission_text("/a"), "Edit /a");
    assert_eq!(read_permission_text("/a"), "Read /a");
}

#[test]
fn what_cannot_be_read_says_why() {
    assert!(before_reading("/missing", Found::Nothing).is_some_and(|r| r.is_error));
    assert!(before_reading("/dir", Found::Directory).is_some_and(|r| r.is_error));
    assert!(before_reading("/file", Found::File).is_none());
    assert!(unreadable("/bin", true, "x").is_error);
    assert!(unreadable("/bin", false, "denied").content.contains("denied"));
    assert_eq!(FileReadTool.name(), "Read");
    assert!(FileReadTool.self_gates());
    assert!(FileEditTool.self_gates());
}

#[test]
fn an_edit_goes_through_its_phases_in_order() {
    let mut phase = EditPhase::Strings;
    let mut all = vec![phase];
    while phase != EditPhase::Over {
        phase = next_edit_phase(phase, true);
        all.push(phase);
    }
    assert_eq!(
        all,
        vec![
            EditPhase::Strings,
            EditPhase::Path,
            EditPhase::Permission,
            EditPhase::Read,
            EditPhase::Plan,
            EditPhase::Credentials,
            EditPhase::Write,
            EditPhase::History,
            EditPhase::Format,
            EditPhase::Remember,
            EditPhase::Report,
            EditPhase::Over,
        ]
    );
}

#[test]
fn a_refused_edit_writes_nothing_and_a_written_one_is_remembered() {
    for phase in [
        EditPhase::Strings,
        EditPhase::Path,
        EditPhase::Permission,
        EditPhase::Read,
        EditPhase::Plan,
        EditPhase::Credentials,
        EditPhase::Write,
    ] {
        assert_eq!(next_edit_phase(phase, false), EditPhase::Over);
    }
    assert_eq!(next_edit_phase(EditPhase::History, false), EditPhase::Format);
    assert_eq!(next_edit_phase(EditPhase::Format, false), EditPhase::Remember);
    assert_eq!(next_edit_phase(EditPhase::Remember, false), EditPhase::Report);
}
