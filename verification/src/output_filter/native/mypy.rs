//! mypy type-checking output filter, grouping errors by file.
use vstd::prelude::*;
use crate::output_filter::native::issues::{
    all_blocks, distinct, distinct_of, files, files_of, findings, group, group_text, render_blocks,
    reports, top_codes, top_codes_line, Diagnostic, Finding, Issue, Report, Style,
};
use crate::output_filter::native::tsc::number_or_zero;
use crate::pattern::{regex_captures, regex_error, Expression};
use crate::text::{
    contains, count, decimal, has, is_blank, kept_one_more, lines, lines_of, mapped_one_more,
    parse_count, same, starts_with, trim, trimmed, views, views_push,
};

verus! {

pub const MYPY_CLEAN: &'static str = "mypy: No issues found";

/// `file.py:12: error: Message [error-code]`, with an optional column.
pub const MYPY_DIAG: &'static str =
    "^(.+?):(\\d+)(?::\\d+)?: (error|warning|note): (.+?)(?:\\s+\\[(.+)\\])?$";

/// The diagnostic that the groups of a match make up.
pub open spec fn finding(caps: Seq<Option<Seq<char>>>) -> Finding {
    Finding {
        file: group_text(caps, 1),
        line: number_or_zero(group_text(caps, 2)),
        kind: group_text(caps, 3),
        code: group_text(caps, 5),
        message: group_text(caps, 4),
    }
}

/// The diagnostic that the groups of a match make up.
pub fn diagnostic(caps: &Vec<Option<String>>) -> (d: Diagnostic)
    ensures
        d@ == finding(crate::pattern::groups(caps@)),
{
    let line: usize = match parse_count(&group(caps, 2)) {
        Some(n) => n,
        None => 0,
    };
    Diagnostic {
        file: group(caps, 1),
        line,
        kind: group(caps, 3),
        code: group(caps, 5),
        message: group(caps, 4),
    }
}

/// The diagnostic a line reads as.
pub open spec fn read(line: Seq<char>) -> Option<Finding> {
    if regex_error(MYPY_DIAG@) is None && regex_captures(MYPY_DIAG@, line) is Some {
        Some(finding(regex_captures(MYPY_DIAG@, line)->0))
    } else {
        None
    }
}

/// What each line reads as.
pub fn read_lines(all: &Vec<String>) -> (out: Vec<Option<Diagnostic>>)
    ensures
        findings(out@) == views(all@).map_values(|line: Seq<char>| read(line)),
{
    let compiled = Expression::compile(MYPY_DIAG);
    let mut out: Vec<Option<Diagnostic>> = Vec::new();
    let mut i: usize = 0;
    while i < all.len()
        invariant
            i <= all@.len(),
            match compiled {
                Ok(p) => p@ == MYPY_DIAG@ && regex_error(MYPY_DIAG@) is None,
                Err(_) => regex_error(MYPY_DIAG@) is Some,
            },
            out@.len() == i,
            forall|j: int|
                0 <= j < i ==> findings(out@)[j] == read((#[trigger] all@[j])@),
        decreases all.len() - i,
    {
        let found = match &compiled {
            Ok(p) => match p.captures(&all[i]) {
                Some(caps) => Some(diagnostic(&caps)),
                None => None,
            },
            Err(_) => None,
        };
        let ghost before = out@;
        out.push(found);
        assert forall|j: int| 0 <= j < i + 1 implies findings(out@)[j] == read(
            (#[trigger] all@[j])@,
        ) by {
            if j < i {
                assert(out@[j] == before[j]);
                assert(findings(out@)[j] == findings(before)[j]);
            }
        }
        i += 1;
    }
    assert(findings(out@) =~= views(all@).map_values(|line: Seq<char>| read(line))) by {
        assert forall|j: int| 0 <= j < out@.len() implies findings(out@)[j] == views(
            all@,
        ).map_values(|line: Seq<char>| read(line))[j] by {
            assert(views(all@)[j] == all@[j]@);
        }
    }
    out
}

/// Whether a line is mypy's own summary.
pub open spec fn skippable(line: Seq<char>) -> bool {
    ("Found "@.is_prefix_of(line) && contains(line, " error"@)) || "Success:"@.is_prefix_of(line)
}

pub fn is_skippable(line: &str) -> (r: bool)
    ensures
        r == skippable(line@),
{
    (starts_with(line, "Found ") && has(line, " error")) || starts_with(line, "Success:")
}

/// What has been collected so far: the errors, and the lines that name no file.
#[verifier::ext_equal]
pub struct Collected {
    pub errors: Seq<Report>,
    pub fileless: Seq<Seq<char>>,
}

/// Whether a line was read as a note about the given file.
pub open spec fn notes(found: Option<Finding>, file: Seq<char>) -> bool {
    found matches Some(d) && d.kind == "note"@ && d.file == file
}

/// What a note adds: context to the last error where that is in the same file,
/// else a line of its own.
pub open spec fn with_note(c: Collected, d: Finding, line: Seq<char>) -> Collected {
    if c.errors.len() > 0 && c.errors.last().file == d.file {
        let last = c.errors.last();
        Collected {
            errors: c.errors.drop_last().push(
                Report { context: last.context.push(d.message), ..last },
            ),
            fileless: c.fileless,
        }
    } else {
        Collected { errors: c.errors, fileless: c.fileless.push(line) }
    }
}

/// The first position at or after `from` that is no note about `file`.
pub open spec fn notes_end(found: Seq<Option<Finding>>, file: Seq<char>, from: int) -> int
    decreases found.len() - from,
{
    if 0 <= from < found.len() && notes(found[from], file) {
        notes_end(found, file, from + 1)
    } else {
        from
    }
}

pub proof fn notes_end_bounds(found: Seq<Option<Finding>>, file: Seq<char>, from: int)
    requires
        0 <= from <= found.len(),
    ensures
        from <= notes_end(found, file, from) <= found.len(),
    decreases found.len() - from,
{
    if from < found.len() && notes(found[from], file) {
        notes_end_bounds(found, file, from + 1);
    }
}

/// The messages of the diagnostics `from..to`.
pub open spec fn messages(found: Seq<Option<Finding>>, from: int, to: int) -> Seq<Seq<char>> {
    Seq::new((to - from) as nat, |i: int| found[from + i]->0.message)
}

/// The error a diagnostic reports, with the notes that follow it.
pub open spec fn error_at(found: Seq<Option<Finding>>, at: int) -> Report {
    let d = found[at]->0;
    Report {
        file: d.file,
        line: d.line,
        code: d.code,
        message: d.message,
        context: messages(found, at + 1, notes_end(found, d.file, at + 1)),
    }
}

/// Everything collected once the lines from `from` on have been read.
pub open spec fn collected(
    all: Seq<Seq<char>>,
    found: Seq<Option<Finding>>,
    from: int,
    c: Collected,
) -> Collected
    decreases found.len() - from,
    via collected_shrinks
{
    if from < 0 || from >= found.len() {
        c
    } else if skippable(all[from]) {
        collected(all, found, from + 1, c)
    } else {
        match found[from] {
            None => if contains(all[from], "error:"@) && trimmed(all[from]).len() > 0 {
                collected(
                    all,
                    found,
                    from + 1,
                    Collected { fileless: c.fileless.push(all[from]), ..c },
                )
            } else {
                collected(all, found, from + 1, c)
            },
            Some(d) => if d.kind == "note"@ {
                collected(all, found, from + 1, with_note(c, d, all[from]))
            } else {
                collected(
                    all,
                    found,
                    notes_end(found, d.file, from + 1),
                    Collected { errors: c.errors.push(error_at(found, from)), ..c },
                )
            },
        }
    }
}

#[via_fn]
proof fn collected_shrinks(
    all: Seq<Seq<char>>,
    found: Seq<Option<Finding>>,
    from: int,
    c: Collected,
) {
    if 0 <= from < found.len() && found[from] is Some {
        notes_end_bounds(found, found[from]->0.file, from + 1);
    }
}

/// Nothing collected yet.
pub open spec fn nothing() -> Collected {
    Collected { errors: seq![], fileless: seq![] }
}

/// Attach a `note:` line to the preceding error of the same file, or record it
/// as a standalone fileless line.
pub fn absorb_note(
    d: &Diagnostic,
    raw_line: &str,
    errors: &mut Vec<Issue>,
    fileless: &mut Vec<String>,
)
    ensures
        (Collected { errors: reports(final(errors)@), fileless: views(final(fileless)@) })
            == with_note(
            Collected { errors: reports(old(errors)@), fileless: views(old(fileless)@) },
            d@,
            raw_line@,
        ),
{
    broadcast use views_push;

    let ghost before = errors@;
    if errors.len() > 0 {
        let at: usize = errors.len() - 1;
        assert(reports(before).last() == before[at as int]@);
        if same(&errors[at].file, &d.file) {
            if let Some(mut last) = errors.pop() {
                assert(reports(errors@) =~= reports(before).drop_last());
                let ghost kept = errors@;
                last.context_lines.push(d.message.clone());
                errors.push(last);
                assert(reports(errors@) =~= reports(kept).push(last@));
            }
            return;
        }
    }
    fileless.push(raw_line.to_string());
}

/// The notes about `file` from `from` on, and where they end.
pub fn take_notes(file: &str, found: &Vec<Option<Diagnostic>>, from: usize) -> (r: (
    Vec<String>,
    usize,
))
    requires
        from <= found@.len(),
    ensures
        r.1 == notes_end(findings(found@), file@, from as int),
        from <= r.1 <= found@.len(),
        views(r.0@) == messages(findings(found@), from as int, r.1 as int),
{
    let ghost read = findings(found@);
    let ghost end = notes_end(read, file@, from as int);
    let mut out: Vec<String> = Vec::new();
    let mut k: usize = from;
    while k < found.len()
        invariant_except_break
            end == notes_end(read, file@, k as int),
        invariant
            from <= k <= found@.len(),
            read == findings(found@),
            out@.len() == k - from,
            forall|j: int|
                0 <= j < out@.len() ==> (#[trigger] out@[j])@ == read[from + j]->0.message,
        ensures
            k == end,
        decreases found.len() - k,
    {
        assert(read[k as int] == match found@[k as int] {
            Some(d) => Some(d@),
            None => None,
        });
        match &found[k] {
            None => {
                break;
            },
            Some(d) => {
                if same(&d.kind, "note") && same(&d.file, file) {
                    out.push(d.message.clone());
                    k += 1;
                } else {
                    break;
                }
            },
        }
    }
    assert(views(out@) =~= messages(read, from as int, end));
    (out, k)
}

/// The errors with their notes, and the lines that name no file.
pub fn collect(all: &Vec<String>, found: &Vec<Option<Diagnostic>>) -> (r: (
    Vec<Issue>,
    Vec<String>,
))
    requires
        all@.len() == found@.len(),
    ensures
        (Collected { errors: reports(r.0@), fileless: views(r.1@) }) == collected(
            views(all@),
            findings(found@),
            0,
            nothing(),
        ),
{
    broadcast use views_push;

    let ghost text = views(all@);
    let ghost read = findings(found@);
    let mut errors: Vec<Issue> = Vec::new();
    let mut fileless: Vec<String> = Vec::new();
    let mut i: usize = 0;
    assert((Collected { errors: reports(errors@), fileless: views(fileless@) }) =~= nothing());
    while i < all.len()
        invariant
            i <= all@.len(),
            all@.len() == found@.len(),
            text == views(all@),
            read == findings(found@),
            collected(text, read, 0, nothing()) == collected(
                text,
                read,
                i as int,
                (Collected { errors: reports(errors@), fileless: views(fileless@) }),
            ),
        decreases all.len() - i,
    {
        assert(text[i as int] == all@[i as int]@);
        assert(read[i as int] == match found@[i as int] {
            Some(d) => Some(d@),
            None => None,
        });
        let ghost c = Collected { errors: reports(errors@), fileless: views(fileless@) };
        let ghost at = i as int;
        if is_skippable(&all[i]) {
            i += 1;
        } else {
            match &found[i] {
                None => {
                    if has(&all[i], "error:") && !is_blank(&all[i]) {
                        fileless.push(all[i].clone());
                        assert((Collected {
                            errors: reports(errors@),
                            fileless: views(fileless@),
                        }) =~= (Collected { fileless: c.fileless.push(text[at]), ..c }));
                    }
                    i += 1;
                },
                Some(d) => {
                    if same(&d.kind, "note") {
                        absorb_note(d, &all[i], &mut errors, &mut fileless);
                        i += 1;
                    } else {
                        let (context_lines, end) = take_notes(&d.file, found, i + 1);
                        let issue = Issue {
                            file: d.file.clone(),
                            line: d.line,
                            code: d.code.clone(),
                            message: d.message.clone(),
                            context_lines,
                        };
                        let ghost before = errors@;
                        errors.push(issue);
                        assert(issue@ =~= error_at(read, i as int));
                        assert(reports(errors@) =~= reports(before).push(issue@));
                        assert((Collected {
                            errors: reports(errors@),
                            fileless: views(fileless@),
                        }) =~= (Collected { errors: c.errors.push(error_at(read, at)), ..c }));
                        i = end;
                    }
                },
            }
        }
    }
    (errors, fileless)
}

/// The codes of the errors that have one.
pub open spec fn codes(all: Seq<Report>) -> Seq<Seq<char>>
    decreases all.len(),
{
    if all.len() == 0 {
        seq![]
    } else if all.last().code.len() > 0 {
        codes(all.drop_last()).push(all.last().code)
    } else {
        codes(all.drop_last())
    }
}

fn codes_of(all: &Vec<Issue>) -> (out: Vec<String>)
    ensures
        views(out@) == codes(reports(all@)),
{
    broadcast use views_push;

    let ghost model = reports(all@);
    let mut out: Vec<String> = Vec::new();
    let mut i: usize = 0;
    assert(model.take(0) =~= seq![]);
    assert(views(out@) =~= seq![]);
    while i < all.len()
        invariant
            i <= all@.len(),
            model == reports(all@),
            views(out@) == codes(model.take(i as int)),
        decreases all.len() - i,
    {
        let ghost next = model.take(i + 1);
        assert(next.drop_last() =~= model.take(i as int));
        assert(next.last() == all@[i as int]@);
        if !all[i].code.as_str().is_empty() {
            out.push(all[i].code.clone());
        }
        i += 1;
    }
    assert(model.take(model.len() as int) =~= model);
    out
}

/// The lines that name no file, each with its line feed.
pub open spec fn fileless_text(all: Seq<Seq<char>>) -> Seq<char>
    decreases all.len(),
{
    if all.len() == 0 {
        seq![]
    } else {
        fileless_text(all.drop_last()) + all.last() + "\n"@
    }
}

fn render_fileless(all: &Vec<String>) -> (out: String)
    ensures
        out@ == fileless_text(views(all@)),
{
    let ghost model = views(all@);
    let mut out = String::new();
    let mut i: usize = 0;
    assert(model.take(0) =~= seq![]);
    while i < all.len()
        invariant
            i <= all@.len(),
            model == views(all@),
            out@ == fileless_text(model.take(i as int)),
        decreases all.len() - i,
    {
        let ghost next = model.take(i + 1);
        assert(next.drop_last() =~= model.take(i as int));
        assert(next.last() == all@[i as int]@);
        out.push_str(&all[i]);
        out.push_str("\n");
        i += 1;
    }
    assert(model.take(model.len() as int) =~= model);
    out
}

/// The line of codes, or nothing.
pub open spec fn codes_text(all: Seq<Report>) -> Seq<char> {
    match top_codes(codes(all)) {
        Some(line) => line,
        None => seq![],
    }
}

/// The part about the errors, or nothing where there are none.
pub open spec fn errors_text(all: Seq<Report>) -> Seq<char> {
    if all.len() == 0 {
        seq![]
    } else {
        "mypy: "@ + decimal(all.len()) + " errors in "@ + decimal(distinct(files(all)).len())
            + " files\n"@ + codes_text(all) + all_blocks(Style::Bracketed, all)
    }
}

/// The blank line between the two parts, where both are there.
pub open spec fn gap(c: Collected) -> Seq<char> {
    if c.fileless.len() > 0 && c.errors.len() > 0 {
        "\n"@
    } else {
        seq![]
    }
}

/// What is left of what was collected.
pub open spec fn rendered(c: Collected) -> Seq<char> {
    if c.errors.len() == 0 && c.fileless.len() == 0 {
        MYPY_CLEAN@
    } else {
        trimmed(fileless_text(c.fileless) + gap(c) + errors_text(c.errors))
    }
}

/// Compress mypy output whose lines have been read.
pub fn summarize(all: &Vec<String>, found: &Vec<Option<Diagnostic>>) -> (out: String)
    requires
        found@.len() == all@.len(),
    ensures
        out@ == rendered(collected(views(all@), findings(found@), 0, nothing())),
{
    let (errors, fileless) = collect(all, found);
    if errors.len() == 0 && fileless.len() == 0 {
        return MYPY_CLEAN.to_string();
    }
    let mut out = render_fileless(&fileless);
    if fileless.len() > 0 && errors.len() > 0 {
        out.push_str("\n");
    } else {
        assert(out@ + Seq::<char>::empty() =~= out@);
    }
    let mut body = String::new();
    if errors.len() > 0 {
        body = "mypy: ".to_string();
        let n = count(errors.len());
        body.push_str(&n);
        body.push_str(" errors in ");
        let m = count(distinct_of(&files_of(&errors)).len());
        body.push_str(&m);
        body.push_str(" files\n");
        let line = match top_codes_line(&codes_of(&errors)) {
            Some(line) => line,
            None => String::new(),
        };
        body.push_str(&line);
        let blocks = render_blocks(Style::Bracketed, &errors);
        body.push_str(&blocks);
    }
    out.push_str(&body);
    trim(&out)
}

/// What is left of mypy's output.
pub open spec fn summary(output: Seq<char>) -> Seq<char> {
    let all = lines(output);
    rendered(collected(all, all.map_values(|line: Seq<char>| read(line)), 0, nothing()))
}

/// Compress mypy output into a per-file error summary. Every error is kept.
pub fn filter(output: &str) -> (out: String)
    ensures
        out@ == summary(output@),
{
    let all = lines_of(output);
    let found = read_lines(&all);
    assert(findings(found@).len() == found@.len());
    summarize(&all, &found)
}

/// No step of collecting loses an error that was collected before it: what was
/// there stays, in its place, and an error may only gain context.
pub proof fn collecting_keeps_errors(
    all: Seq<Seq<char>>,
    found: Seq<Option<Finding>>,
    from: int,
    c: Collected,
    i: int,
)
    requires
        0 <= i < c.errors.len(),
    ensures
        i < collected(all, found, from, c).errors.len(),
        ({
            let before = c.errors[i];
            let after = collected(all, found, from, c).errors[i];
            &&& after.file == before.file
            &&& after.line == before.line
            &&& after.code == before.code
            &&& after.message == before.message
            &&& before.context.is_prefix_of(after.context)
        }),
    decreases found.len() - from,
{
    if 0 <= from < found.len() {
        let next = if skippable(all[from]) {
            c
        } else {
            match found[from] {
                None => if contains(all[from], "error:"@) && trimmed(all[from]).len() > 0 {
                    Collected { fileless: c.fileless.push(all[from]), ..c }
                } else {
                    c
                },
                Some(d) => if d.kind == "note"@ {
                    with_note(c, d, all[from])
                } else {
                    Collected { errors: c.errors.push(error_at(found, from)), ..c }
                },
            }
        };
        let at = if skippable(all[from]) || found[from] is None || found[from]->0.kind == "note"@ {
            from + 1
        } else {
            notes_end(found, found[from]->0.file, from + 1)
        };
        if found[from] is Some {
            notes_end_bounds(found, found[from]->0.file, from + 1);
        }
        assert(i < next.errors.len());
        assert(next.errors[i].file == c.errors[i].file);
        assert(c.errors[i].context.is_prefix_of(next.errors[i].context));
        collecting_keeps_errors(all, found, at, next, i);
        let after = collected(all, found, from, c).errors[i];
        assert(collected(all, found, from, c) == collected(all, found, at, next));
        assert(c.errors[i].context =~= after.context.take(c.errors[i].context.len() as int)) by {
            let mid = next.errors[i].context;
            assert(mid =~= after.context.take(mid.len() as int));
        }
    } else {
        assert(c.errors[i].context =~= c.errors[i].context.take(
            c.errors[i].context.len() as int,
        ));
    }
}

/// Every line read as an error or a warning is one of the errors collected.
pub proof fn every_diagnostic_is_collected(
    all: Seq<Seq<char>>,
    found: Seq<Option<Finding>>,
    from: int,
    c: Collected,
    i: int,
)
    requires
        0 <= from <= i < found.len(),
        found[i] is Some,
        found[i]->0.kind != "note"@,
        !skippable(all[i]),
    ensures
        exists|k: int|
            0 <= k < collected(all, found, from, c).errors.len() && {
                let r = #[trigger] collected(all, found, from, c).errors[k];
                &&& r.file == found[i]->0.file
                &&& r.line == found[i]->0.line
                &&& r.code == found[i]->0.code
                &&& r.message == found[i]->0.message
            },
    decreases found.len() - from,
{
    let end = collected(all, found, from, c);
    if i == from {
        let d = found[i]->0;
        let next = Collected { errors: c.errors.push(error_at(found, from)), ..c };
        let at = notes_end(found, d.file, from + 1);
        let k = c.errors.len() as int;
        collecting_keeps_errors(all, found, at, next, k);
        assert(end == collected(all, found, at, next));
        assert(next.errors[k] == error_at(found, from));
        assert(end.errors[k].file == d.file);
    } else if skippable(all[from]) {
        every_diagnostic_is_collected(all, found, from + 1, c, i);
    } else {
        match found[from] {
            None => {
                let next = if contains(all[from], "error:"@) && trimmed(all[from]).len() > 0 {
                    Collected { fileless: c.fileless.push(all[from]), ..c }
                } else {
                    c
                };
                every_diagnostic_is_collected(all, found, from + 1, next, i);
                assert(end == collected(all, found, from + 1, next));
            },
            Some(d) => {
                if d.kind == "note"@ {
                    every_diagnostic_is_collected(
                        all,
                        found,
                        from + 1,
                        with_note(c, d, all[from]),
                        i,
                    );
                } else {
                    notes_end_bounds(found, d.file, from + 1);
                    notes_hold_no_error(found, d.file, from + 1, i);
                    let next = Collected { errors: c.errors.push(error_at(found, from)), ..c };
                    let at = notes_end(found, d.file, from + 1);
                    every_diagnostic_is_collected(all, found, at, next, i);
                    assert(end == collected(all, found, at, next));
                }
            },
        }
    }
}

proof fn notes_hold_no_error(found: Seq<Option<Finding>>, file: Seq<char>, from: int, i: int)
    requires
        0 <= from <= i < found.len(),
        found[i] is Some,
        found[i]->0.kind != "note"@,
    ensures
        notes_end(found, file, from) <= i,
    decreases found.len() - from,
{
    if notes(found[from], file) {
        notes_hold_no_error(found, file, from + 1, i);
    }
}

/// The codes are those of the errors that have one, in order.
pub proof fn every_code_is_counted(all: Seq<Report>)
    ensures
        codes(all) == all.filter(|r: Report| r.code.len() > 0).map_values(|r: Report| r.code),
    decreases all.len(),
{
    let keep = |r: Report| r.code.len() > 0;
    kept_one_more(all, keep);
    if all.len() > 0 {
        every_code_is_counted(all.drop_last());
    }
    assert(codes(all) =~= all.filter(keep).map_values(|r: Report| r.code));
}

/// The lines that name no file stand each on a line of its own, in order.
pub proof fn every_fileless_line_is_kept(all: Seq<Seq<char>>)
    ensures
        fileless_text(all) == all.map_values(|line: Seq<char>| line + seq!['\n']).flatten(),
    decreases all.len(),
{
    reveal_strlit("\n");
    assert("\n"@ =~= seq!['\n']);
    let f = |line: Seq<char>| line + seq!['\n'];
    mapped_one_more(all, f);
    if all.len() > 0 {
        every_fileless_line_is_kept(all.drop_last());
        assert(fileless_text(all) =~= all.drop_last().map_values(f).flatten() + f(all.last()));
    }
}

/// The positions from `from` on at which a line was read as an error or a warning.
pub open spec fn error_places(
    all: Seq<Seq<char>>,
    found: Seq<Option<Finding>>,
    from: int,
) -> Seq<int> {
    Seq::new((found.len() - from) as nat, |i: int| from + i).filter(
        |i: int| !skippable(all[i]) && found[i] is Some && found[i]->0.kind != "note"@,
    )
}

proof fn places_go_on(all: Seq<Seq<char>>, found: Seq<Option<Finding>>, from: int)
    requires
        0 <= from < found.len(),
    ensures
        error_places(all, found, from) == (if !skippable(all[from]) && found[from] is Some
            && found[from]->0.kind != "note"@ {
            seq![from]
        } else {
            seq![]
        }) + error_places(all, found, from + 1),
{
    let keep = |i: int| !skippable(all[i]) && found[i] is Some && found[i]->0.kind != "note"@;
    let here = Seq::new((found.len() - from) as nat, |i: int| from + i);
    crate::text::kept_one_less(here, keep);
    assert(here.skip(1) =~= Seq::new((found.len() - (from + 1)) as nat, |i: int| from + 1 + i));
}

proof fn notes_are_no_places(
    all: Seq<Seq<char>>,
    found: Seq<Option<Finding>>,
    file: Seq<char>,
    from: int,
)
    requires
        0 <= from <= found.len(),
    ensures
        error_places(all, found, notes_end(found, file, from)) == error_places(all, found, from),
    decreases found.len() - from,
{
    if from < found.len() && notes(found[from], file) {
        notes_are_no_places(all, found, file, from + 1);
        places_go_on(all, found, from);
        assert(error_places(all, found, from) =~= error_places(all, found, from + 1));
    }
}

/// Whether an error says what was read at a place.
pub open spec fn says(r: Report, d: Finding) -> bool {
    &&& r.file == d.file
    &&& r.line == d.line
    &&& r.code == d.code
    &&& r.message == d.message
}

/// The errors collected are the lines read as errors or warnings: each once, in order,
/// and no others.
pub proof fn the_errors_are_the_lines_read_as_such(
    all: Seq<Seq<char>>,
    found: Seq<Option<Finding>>,
    from: int,
    c: Collected,
)
    requires
        0 <= from <= found.len(),
    ensures
        ({
            let places = error_places(all, found, from);
            let end = collected(all, found, from, c).errors;
            &&& end.len() == c.errors.len() + places.len()
            &&& forall|k: int|
                0 <= k < places.len() ==> says(
                    #[trigger] end[c.errors.len() + k],
                    found[places[k]]->0,
                )
        }),
    decreases found.len() - from,
{
    let places = error_places(all, found, from);
    let end = collected(all, found, from, c).errors;
    if from < found.len() {
        places_go_on(all, found, from);
        let next = if skippable(all[from]) {
            c
        } else {
            match found[from] {
                None => if contains(all[from], "error:"@) && trimmed(all[from]).len() > 0 {
                    Collected { fileless: c.fileless.push(all[from]), ..c }
                } else {
                    c
                },
                Some(d) => if d.kind == "note"@ {
                    with_note(c, d, all[from])
                } else {
                    Collected { errors: c.errors.push(error_at(found, from)), ..c }
                },
            }
        };
        if !skippable(all[from]) && found[from] is Some && found[from]->0.kind != "note"@ {
            let d = found[from]->0;
            let at = notes_end(found, d.file, from + 1);
            notes_end_bounds(found, d.file, from + 1);
            notes_are_no_places(all, found, d.file, from + 1);
            let rest = error_places(all, found, at);
            the_errors_are_the_lines_read_as_such(all, found, at, next);
            collecting_keeps_errors(all, found, at, next, c.errors.len() as int);
            assert(collected(all, found, from, c) == collected(all, found, at, next));
            assert(next.errors[c.errors.len() as int] == error_at(found, from));
            assert(places =~= seq![from] + rest);
            assert forall|k: int| 0 <= k < places.len() implies says(
                #[trigger] end[c.errors.len() + k],
                found[places[k]]->0,
            ) by {
                if k > 0 {
                    assert(places[k] == rest[k - 1]);
                    assert(says(end[next.errors.len() + (k - 1)], found[rest[k - 1]]->0));
                }
            }
        } else {
            assert(places =~= error_places(all, found, from + 1));
            the_errors_are_the_lines_read_as_such(all, found, from + 1, next);
            assert(next.errors.len() == c.errors.len());
            assert(collected(all, found, from, c) == collected(all, found, from + 1, next));
        }
    } else {
        assert(Seq::new((found.len() - from) as nat, |i: int| from + i) =~= seq![]);
        let keep = |i: int| !skippable(all[i]) && found[i] is Some && found[i]->0.kind != "note"@;
        kept_one_more(Seq::<int>::empty(), keep);
        assert(places =~= seq![]);
    }
}

/// The notes about its file that stand directly behind an error are its context, in
/// order, up to the first line that is no such note.
pub proof fn notes_explain_the_error_before_them(
    found: Seq<Option<Finding>>,
    at: int,
    end: int,
)
    requires
        0 <= at < end <= found.len(),
        found[at] is Some,
        forall|i: int|
            at < i < end ==> (#[trigger] found[i]) is Some && found[i]->0.kind == "note"@
                && found[i]->0.file == found[at]->0.file,
        end < found.len() ==> !(found[end] is Some && found[end]->0.kind == "note"@
            && found[end]->0.file == found[at]->0.file),
    ensures
        says(error_at(found, at), found[at]->0),
        error_at(found, at).context == Seq::new(
            (end - at - 1) as nat,
            |i: int| found[at + 1 + i]->0.message,
        ),
{
    notes_end_is(found, found[at]->0.file, at + 1, end);
}

proof fn notes_end_is(found: Seq<Option<Finding>>, file: Seq<char>, from: int, end: int)
    requires
        0 <= from <= end <= found.len(),
        forall|i: int| from <= i < end ==> notes(#[trigger] found[i], file),
        end < found.len() ==> !notes(found[end], file),
    ensures
        notes_end(found, file, from) == end,
    decreases end - from,
{
    if from < end {
        assert(notes(found[from], file));
        notes_end_is(found, file, from + 1, end);
    }
}

/// The positions from `from` on of the lines that speak of an error and were read as
/// nothing.
pub open spec fn fileless_places(
    all: Seq<Seq<char>>,
    found: Seq<Option<Finding>>,
    from: int,
) -> Seq<int> {
    Seq::new((found.len() - from) as nat, |i: int| from + i).filter(
        |i: int|
            !skippable(all[i]) && found[i] is None && contains(all[i], "error:"@) && trimmed(
                all[i],
            ).len() > 0,
    )
}

/// Where no line was read as a note, the lines kept without a file are those that speak
/// of an error and were read as nothing: each once, in order, and no others.
pub proof fn the_fileless_lines_are_kept(
    all: Seq<Seq<char>>,
    found: Seq<Option<Finding>>,
    from: int,
    c: Collected,
)
    requires
        0 <= from <= found.len(),
        forall|i: int|
            0 <= i < found.len() ==> !((#[trigger] found[i]) is Some && found[i]->0.kind
                == "note"@),
    ensures
        collected(all, found, from, c).fileless == c.fileless + fileless_places(
            all,
            found,
            from,
        ).map_values(|i: int| all[i]),
    decreases found.len() - from,
{
    let keep = |i: int|
        !skippable(all[i]) && found[i] is None && contains(all[i], "error:"@) && trimmed(
            all[i],
        ).len() > 0;
    let here = Seq::new((found.len() - from) as nat, |i: int| from + i);
    let end = collected(all, found, from, c);
    if from < found.len() {
        crate::text::kept_one_less(here, keep);
        assert(here.skip(1) =~= Seq::new(
            (found.len() - (from + 1)) as nat,
            |i: int| from + 1 + i,
        ));
        let rest = fileless_places(all, found, from + 1);
        assert(!(found[from] is Some && found[from]->0.kind == "note"@));
        if skippable(all[from]) {
            the_fileless_lines_are_kept(all, found, from + 1, c);
        } else if found[from] is Some {
            let d = found[from]->0;
            let next = Collected { errors: c.errors.push(error_at(found, from)), ..c };
            if from + 1 < found.len() {
                assert(!notes(found[from + 1], d.file));
            }
            assert(notes_end(found, d.file, from + 1) == from + 1);
            the_fileless_lines_are_kept(all, found, from + 1, next);
        } else if keep(from) {
            let next = Collected { fileless: c.fileless.push(all[from]), ..c };
            the_fileless_lines_are_kept(all, found, from + 1, next);
        } else {
            the_fileless_lines_are_kept(all, found, from + 1, c);
        }
        assert(end.fileless =~= c.fileless + fileless_places(all, found, from).map_values(
            |i: int| all[i],
        ));
    } else {
        assert(here =~= seq![]);
        kept_one_more(here, keep);
        assert(end.fileless =~= c.fileless + fileless_places(all, found, from).map_values(
            |i: int| all[i],
        ));
    }
}

/// A line that the expression matches reads as what the groups of the match hold: the
/// file, the line, the kind, the message and the code, which may be none; any other
/// reads as nothing.
pub proof fn a_line_reads_as_its_groups(line: Seq<char>, caps: Seq<Option<Seq<char>>>, n: nat)
    requires
        regex_error(MYPY_DIAG@) is None,
    ensures
        regex_captures(MYPY_DIAG@, line) is None ==> read(line) is None,
        regex_captures(MYPY_DIAG@, line) == Some(caps) && caps.len() == 6 && (forall|i: int|
            0 <= i < 5 ==> (#[trigger] caps[i]) is Some) && caps[2] == Some(decimal(n)) && n
            <= usize::MAX ==> read(line) == Some(
            Finding {
                file: caps[1]->0,
                line: n,
                kind: caps[3]->0,
                code: match caps[5] {
                    Some(code) => code,
                    None => seq![],
                },
                message: caps[4]->0,
            },
        ),
{
    crate::text::a_number_is_read(n, usize::MAX as nat, seq![], 0);
    if regex_captures(MYPY_DIAG@, line) == Some(caps) && caps.len() == 6 && (forall|i: int|
        0 <= i < 5 ==> (#[trigger] caps[i]) is Some) {
        assert(caps[1] is Some && caps[3] is Some && caps[4] is Some);
    }
}

/// What is left is the lines without a file, then what is told of the errors, with a
/// blank line between them where there are both; nothing of either is the clean report.
pub proof fn both_parts_are_told(c: Collected)
    ensures
        c.errors.len() == 0 && c.fileless.len() == 0 ==> rendered(c) == MYPY_CLEAN@,
        c.errors.len() > 0 && c.fileless.len() > 0 ==> rendered(c) == trimmed(
            fileless_text(c.fileless) + "\n"@ + errors_text(c.errors),
        ),
        c.errors.len() == 0 && c.fileless.len() > 0 ==> rendered(c) == trimmed(
            fileless_text(c.fileless),
        ),
        c.errors.len() > 0 && c.fileless.len() == 0 ==> rendered(c) == trimmed(
            errors_text(c.errors),
        ),
        c.errors.len() > 0 ==> errors_text(c.errors) == "mypy: "@ + decimal(c.errors.len())
            + " errors in "@ + decimal(distinct(files(c.errors)).len()) + " files\n"@ + codes_text(
            c.errors,
        ) + all_blocks(Style::Bracketed, c.errors),
{
    let f = fileless_text(c.fileless);
    let e = errors_text(c.errors);
    if c.errors.len() == 0 {
        assert(f + gap(c) + e =~= f);
    }
    if c.fileless.len() == 0 {
        assert(f + gap(c) + e =~= e);
    }
}

} // verus!
