//! TypeScript compiler (tsc) output filter, grouping errors by file and code.
use vstd::prelude::*;
use crate::output_filter::native::issues::{
    all_blocks, distinct, distinct_of, files, files_of, findings, group, group_text, render_blocks,
    reports, top_codes, top_codes_line, Diagnostic, Finding, Issue, Report, Style,
};
use crate::pattern::{regex_captures, regex_error, Expression};
use crate::text::{
    contains, count, decimal, has, kept_one_less, kept_one_more, lines, lines_of, parse_count,
    parsed, starts_with, trim, trimmed, views, views_push,
};

verus! {

/// `file.ts(12,5): error TS2322: Message`
pub const TSC_ERROR: &'static str =
    "^(.+?)\\((\\d+),(\\d+)\\):\\s+(error|warning)\\s+(TS\\d+):\\s+(.+)$";

/// The number a text reads as, or zero.
pub open spec fn number_or_zero(s: Seq<char>) -> nat {
    match parsed(s, usize::MAX as nat) {
        Some(n) => n,
        None => 0,
    }
}

/// The diagnostic that the groups of a match make up.
pub open spec fn finding(caps: Seq<Option<Seq<char>>>) -> Finding {
    Finding {
        file: group_text(caps, 1),
        line: number_or_zero(group_text(caps, 2)),
        kind: group_text(caps, 4),
        code: group_text(caps, 5),
        message: group_text(caps, 6),
    }
}

/// The diagnostic that the groups of a match make up.
pub fn diagnostic(caps: &Vec<Option<String>>) -> (d: Diagnostic)
    ensures
        d@ == finding(crate::pattern::groups(caps@)),
{
    let line: usize = match parse_count(&group(caps, 2)) {
        Some(n) => n,
        None => 0,
    };
    Diagnostic {
        file: group(caps, 1),
        line,
        kind: group(caps, 4),
        code: group(caps, 5),
        message: group(caps, 6),
    }
}

/// The diagnostic a line reads as.
pub open spec fn read(line: Seq<char>) -> Option<Finding> {
    if regex_error(TSC_ERROR@) is None && regex_captures(TSC_ERROR@, line) is Some {
        Some(finding(regex_captures(TSC_ERROR@, line)->0))
    } else {
        None
    }
}

/// What each line reads as.
pub fn read_lines(all: &Vec<String>) -> (out: Vec<Option<Diagnostic>>)
    ensures
        findings(out@) == views(all@).map_values(|line: Seq<char>| read(line)),
{
    let compiled = Expression::compile(TSC_ERROR);
    let mut out: Vec<Option<Diagnostic>> = Vec::new();
    let mut i: usize = 0;
    while i < all.len()
        invariant
            i <= all@.len(),
            match compiled {
                Ok(p) => p@ == TSC_ERROR@ && regex_error(TSC_ERROR@) is None,
                Err(_) => regex_error(TSC_ERROR@) is Some,
            },
            out@.len() == i,
            forall|j: int|
                0 <= j < i ==> findings(out@)[j] == read((#[trigger] all@[j])@),
        decreases all.len() - i,
    {
        let found = match &compiled {
            Ok(p) => match p.captures(&all[i]) {
                Some(caps) => Some(diagnostic(&caps)),
                None => None,
            },
            Err(_) => None,
        };
        let ghost before = out@;
        out.push(found);
        assert forall|j: int| 0 <= j < i + 1 implies findings(out@)[j] == read(
            (#[trigger] all@[j])@,
        ) by {
            if j < i {
                assert(out@[j] == before[j]);
                assert(findings(out@)[j] == findings(before)[j]);
            }
        }
        i += 1;
    }
    assert(findings(out@) =~= views(all@).map_values(|line: Seq<char>| read(line))) by {
        assert forall|j: int| 0 <= j < out@.len() implies findings(out@)[j] == views(
            all@,
        ).map_values(|line: Seq<char>| read(line))[j] by {
            assert(views(all@)[j] == all@[j]@);
        }
    }
    out
}

/// Whether a line continues the error above it: indented, and no error itself.
pub open spec fn continues(line: Seq<char>, found: Option<Finding>) -> bool {
    &&& line.len() > 0
    &&& "  "@.is_prefix_of(line) || "\t"@.is_prefix_of(line)
    &&& found is None
}

/// The first position at or after `from` that continues nothing.
pub open spec fn context_end(all: Seq<Seq<char>>, found: Seq<Option<Finding>>, from: int) -> int
    decreases all.len() - from,
{
    if 0 <= from < all.len() && continues(all[from], found[from]) {
        context_end(all, found, from + 1)
    } else {
        from
    }
}

pub proof fn context_end_bounds(all: Seq<Seq<char>>, found: Seq<Option<Finding>>, from: int)
    requires
        0 <= from <= all.len(),
    ensures
        from <= context_end(all, found, from) <= all.len(),
    decreases all.len() - from,
{
    if from < all.len() && continues(all[from], found[from]) {
        context_end_bounds(all, found, from + 1);
    }
}

/// The lines `from..to`, trimmed.
pub open spec fn context(all: Seq<Seq<char>>, from: int, to: int) -> Seq<Seq<char>> {
    Seq::new((to - from) as nat, |i: int| trimmed(all[from + i]))
}

/// The errors of the lines from `from` on, each with the lines that continue it.
pub open spec fn errors_from(
    all: Seq<Seq<char>>,
    found: Seq<Option<Finding>>,
    from: int,
) -> Seq<Report>
    decreases all.len() - from,
    via errors_from_shrinks
{
    if from < 0 || from >= all.len() {
        seq![]
    } else {
        match found[from] {
            None => errors_from(all, found, from + 1),
            Some(d) => {
                let end = context_end(all, found, from + 1);
                seq![
                    Report {
                        file: d.file,
                        line: d.line,
                        code: d.code,
                        message: d.message,
                        context: context(all, from + 1, end),
                    },
                ] + errors_from(all, found, end)
            },
        }
    }
}

#[via_fn]
proof fn errors_from_shrinks(all: Seq<Seq<char>>, found: Seq<Option<Finding>>, from: int) {
    if 0 <= from < all.len() {
        context_end_bounds(all, found, from + 1);
    }
}

/// Group the lines' diagnostics into errors with their context.
pub fn collect_errors(all: &Vec<String>, found: &Vec<Option<Diagnostic>>) -> (out: Vec<Issue>)
    requires
        all@.len() == found@.len(),
    ensures
        reports(out@) == errors_from(views(all@), findings(found@), 0),
{
    broadcast use views_push;

    let ghost text = views(all@);
    let ghost read = findings(found@);
    let mut out: Vec<Issue> = Vec::new();
    let mut i: usize = 0;
    assert(reports(out@) + errors_from(text, read, 0) =~= errors_from(text, read, 0));
    while i < all.len()
        invariant
            i <= all@.len(),
            all@.len() == found@.len(),
            text == views(all@),
            read == findings(found@),
            reports(out@) + errors_from(text, read, i as int) == errors_from(text, read, 0),
        decreases all.len() - i,
    {
        assert(read[i as int] == match found@[i as int] {
            Some(d) => Some(d@),
            None => None,
        });
        match &found[i] {
            None => {
                i += 1;
            },
            Some(d) => {
                let ghost start = i + 1;
                let ghost end = context_end(text, read, start);
                let mut more: Vec<String> = Vec::new();
                let mut k: usize = i + 1;
                while k < all.len() && !all[k].as_str().is_empty() && (starts_with(&all[k], "  ")
                    || starts_with(&all[k], "\t")) && found[k].is_none()
                    invariant
                        start <= k <= all@.len(),
                        all@.len() == found@.len(),
                        text == views(all@),
                        read == findings(found@),
                        more@.len() == k - start,
                        forall|j: int|
                            0 <= j < more@.len() ==> (#[trigger] more@[j])@ == trimmed(
                                text[start + j],
                            ),
                        end == context_end(text, read, k as int),
                    decreases all.len() - k,
                {
                    assert(read[k as int] is None);
                    assert(text[k as int] == all@[k as int]@);
                    more.push(trim(&all[k]));
                    k += 1;
                }
                assert(k < all@.len() ==> text[k as int] == all@[k as int]@);
                assert(k < all@.len() ==> (read[k as int] is None <==> found@[k as int] is None));
                assert(k == end);
                assert(views(more@) =~= context(text, start, end));
                let issue = Issue {
                    file: d.file.clone(),
                    line: d.line,
                    code: d.code.clone(),
                    message: d.message.clone(),
                    context_lines: more,
                };
                let ghost before = out@;
                out.push(issue);
                assert(reports(out@) =~= reports(before).push(issue@));
                assert(reports(out@) + errors_from(text, read, end) =~= errors_from(
                    text,
                    read,
                    0,
                ));
                i = k;
            },
        }
    }
    assert(reports(out@) =~= errors_from(text, read, 0));
    out
}

/// The codes of the errors, one for each.
pub open spec fn codes(all: Seq<Report>) -> Seq<Seq<char>> {
    Seq::new(all.len(), |i: int| all[i].code)
}

fn codes_of(all: &Vec<Issue>) -> (out: Vec<String>)
    ensures
        views(out@) == codes(reports(all@)),
{
    let mut out: Vec<String> = Vec::new();
    let mut i: usize = 0;
    while i < all.len()
        invariant
            i <= all@.len(),
            out@.len() == i,
            forall|j: int| 0 <= j < i ==> (#[trigger] out@[j])@ == all@[j].code@,
        decreases all.len() - i,
    {
        out.push(all[i].code.clone());
        i += 1;
    }
    assert(views(out@) =~= codes(reports(all@)));
    out
}

/// The line of codes, or nothing.
pub open spec fn codes_text(all: Seq<Report>) -> Seq<char> {
    match top_codes(codes(all)) {
        Some(line) => line,
        None => seq![],
    }
}

/// The summary of the errors of a compilation.
pub open spec fn errors_text(all: Seq<Report>) -> Seq<char> {
    trimmed(
        "TypeScript: "@ + decimal(all.len()) + " errors in "@ + decimal(
            distinct(files(all)).len(),
        ) + " files\n"@ + codes_text(all) + all_blocks(Style::Plain, all),
    )
}

/// What is left of tsc's output, given what its lines were read as.
pub open spec fn summary_of(output: Seq<char>, found: Seq<Option<Finding>>) -> Seq<char> {
    let all = errors_from(lines(output), found, 0);
    if all.len() > 0 {
        errors_text(all)
    } else if contains(output, "Found 0 errors"@) {
        "TypeScript: No errors found"@
    } else {
        "TypeScript compilation completed"@
    }
}

/// Compress tsc output whose lines have been read.
pub fn summarize(output: &str, all: &Vec<String>, found: &Vec<Option<Diagnostic>>) -> (out: String)
    requires
        views(all@) == lines(output@),
        found@.len() == all@.len(),
    ensures
        out@ == summary_of(output@, findings(found@)),
{
    let errors = collect_errors(all, found);
    if errors.len() == 0 {
        if has(output, "Found 0 errors") {
            return "TypeScript: No errors found".to_string();
        }
        return "TypeScript compilation completed".to_string();
    }
    let mut out = "TypeScript: ".to_string();
    let n = count(errors.len());
    out.push_str(&n);
    out.push_str(" errors in ");
    let m = count(distinct_of(&files_of(&errors)).len());
    out.push_str(&m);
    out.push_str(" files\n");
    let line = match top_codes_line(&codes_of(&errors)) {
        Some(line) => line,
        None => String::new(),
    };
    out.push_str(&line);
    let body = render_blocks(Style::Plain, &errors);
    out.push_str(&body);
    trim(&out)
}

/// What is left of tsc's output.
pub open spec fn summary(output: Seq<char>) -> Seq<char> {
    summary_of(output, lines(output).map_values(|line: Seq<char>| read(line)))
}

/// Compress tsc output into a per-file error summary. Every error is kept.
pub fn filter(output: &str) -> (out: String)
    ensures
        out@ == summary(output@),
{
    let all = lines_of(output);
    let found = read_lines(&all);
    assert(findings(found@).len() == found@.len());
    summarize(output, &all, &found)
}

/// Every line that reads as an error is one of the errors reported.
pub proof fn every_diagnostic_is_reported(
    all: Seq<Seq<char>>,
    found: Seq<Option<Finding>>,
    from: int,
    i: int,
)
    requires
        0 <= from <= i < all.len(),
        all.len() == found.len(),
        found[i] is Some,
    ensures
        exists|k: int|
            0 <= k < errors_from(all, found, from).len() && {
                let r = #[trigger] errors_from(all, found, from)[k];
                &&& r.file == found[i]->0.file
                &&& r.line == found[i]->0.line
                &&& r.code == found[i]->0.code
                &&& r.message == found[i]->0.message
            },
    decreases all.len() - from,
{
    let errors = errors_from(all, found, from);
    match found[from] {
        None => {
            every_diagnostic_is_reported(all, found, from + 1, i);
        },
        Some(d) => {
            if i == from {
                assert(errors[0].file == d.file);
            } else {
                context_end_bounds(all, found, from + 1);
                context_holds_no_error(all, found, from + 1, i);
                let end = context_end(all, found, from + 1);
                every_diagnostic_is_reported(all, found, end, i);
                let rest = errors_from(all, found, end);
                let k = choose|k: int|
                    0 <= k < rest.len() && {
                        let r = #[trigger] rest[k];
                        &&& r.file == found[i]->0.file
                        &&& r.line == found[i]->0.line
                        &&& r.code == found[i]->0.code
                        &&& r.message == found[i]->0.message
                    };
                assert(errors[k + 1] == rest[k]);
            }
        },
    }
}

proof fn context_holds_no_error(
    all: Seq<Seq<char>>,
    found: Seq<Option<Finding>>,
    from: int,
    i: int,
)
    requires
        0 <= from <= i < all.len(),
        found[i] is Some,
    ensures
        context_end(all, found, from) <= i,
    decreases all.len() - from,
{
    if continues(all[from], found[from]) {
        context_holds_no_error(all, found, from + 1, i);
    }
}

/// The positions from `from` on at which a line was read as an error.
pub open spec fn error_places(found: Seq<Option<Finding>>, from: int) -> Seq<int> {
    Seq::new((found.len() - from) as nat, |i: int| from + i).filter(|i: int| found[i] is Some)
}

proof fn places_go_on(found: Seq<Option<Finding>>, from: int)
    requires
        0 <= from < found.len(),
    ensures
        error_places(found, from) == (if found[from] is Some {
            seq![from]
        } else {
            seq![]
        }) + error_places(found, from + 1),
{
    let here = Seq::new((found.len() - from) as nat, |i: int| from + i);
    kept_one_less(here, |i: int| found[i] is Some);
    assert(here.skip(1) =~= Seq::new((found.len() - (from + 1)) as nat, |i: int| from + 1 + i));
}

proof fn context_has_no_places(all: Seq<Seq<char>>, found: Seq<Option<Finding>>, from: int)
    requires
        all.len() == found.len(),
        0 <= from <= all.len(),
    ensures
        error_places(found, context_end(all, found, from)) == error_places(found, from),
    decreases all.len() - from,
{
    if from < all.len() && continues(all[from], found[from]) {
        context_has_no_places(all, found, from + 1);
        places_go_on(found, from);
        assert(error_places(found, from) =~= error_places(found, from + 1));
    }
}

/// The errors reported are the lines read as errors: each once, in order, with its
/// file, its line, its code and its message, and no others.
pub proof fn the_errors_are_the_lines_read_as_such(
    all: Seq<Seq<char>>,
    found: Seq<Option<Finding>>,
    from: int,
)
    requires
        all.len() == found.len(),
        0 <= from <= all.len(),
    ensures
        ({
            let places = error_places(found, from);
            let errors = errors_from(all, found, from);
            &&& errors.len() == places.len()
            &&& forall|k: int|
                0 <= k < places.len() ==> {
                    let r = #[trigger] errors[k];
                    &&& r.file == found[places[k]]->0.file
                    &&& r.line == found[places[k]]->0.line
                    &&& r.code == found[places[k]]->0.code
                    &&& r.message == found[places[k]]->0.message
                    &&& r.context == context(all, places[k] + 1, context_end(all, found, places[k] + 1))
                }
        }),
    decreases all.len() - from,
{
    let places = error_places(found, from);
    let errors = errors_from(all, found, from);
    if from < all.len() {
        places_go_on(found, from);
        match found[from] {
            None => {
                assert(places =~= error_places(found, from + 1));
                the_errors_are_the_lines_read_as_such(all, found, from + 1);
            },
            Some(d) => {
                let end = context_end(all, found, from + 1);
                context_end_bounds(all, found, from + 1);
                context_has_no_places(all, found, from + 1);
                the_errors_are_the_lines_read_as_such(all, found, end);
                let rest = errors_from(all, found, end);
                let later = error_places(found, end);
                assert(places =~= seq![from] + later);
                assert forall|k: int| 0 <= k < places.len() implies ({
                    let r = #[trigger] errors[k];
                    &&& r.file == found[places[k]]->0.file
                    &&& r.line == found[places[k]]->0.line
                    &&& r.code == found[places[k]]->0.code
                    &&& r.message == found[places[k]]->0.message
                    &&& r.context == context(all, places[k] + 1, context_end(all, found, places[k] + 1))
                }) by {
                    if k > 0 {
                        assert(errors[k] == rest[k - 1]);
                        assert(places[k] == later[k - 1]);
                    }
                }
            },
        }
    } else {
        let here = Seq::new((found.len() - from) as nat, |i: int| from + i);
        assert(here =~= seq![]);
        kept_one_more(here, |i: int| found[i] is Some);
    }
}

/// The indented lines directly behind an error that are no errors themselves are its
/// context, trimmed, in order, up to the first line that is not such.
pub proof fn indented_lines_explain_the_error_before_them(
    all: Seq<Seq<char>>,
    found: Seq<Option<Finding>>,
    from: int,
    end: int,
)
    requires
        all.len() == found.len(),
        0 <= from <= end <= all.len(),
        forall|i: int|
            #![trigger all[i]]
            from <= i < end ==> found[i] is None && ("  "@.is_prefix_of(all[i])
                || "\t"@.is_prefix_of(all[i])),
        end < all.len() ==> found[end] is Some || !("  "@.is_prefix_of(all[end])
            || "\t"@.is_prefix_of(all[end])),
    ensures
        context(all, from, context_end(all, found, from)) == all.subrange(from, end).map_values(
            |line: Seq<char>| trimmed(line),
        ),
{
    reveal_strlit("  ");
    reveal_strlit("\t");
    assert forall|i: int| from <= i < end implies continues(#[trigger] all[i], found[i]) by {
        assert("  "@.is_prefix_of(all[i]) || "\t"@.is_prefix_of(all[i]));
    }
    context_end_is(all, found, from, end);
    assert(context(all, from, end) =~= all.subrange(from, end).map_values(
        |line: Seq<char>| trimmed(line),
    ));
}

proof fn context_end_is(all: Seq<Seq<char>>, found: Seq<Option<Finding>>, from: int, end: int)
    requires
        all.len() == found.len(),
        0 <= from <= end <= all.len(),
        forall|i: int| from <= i < end ==> continues(#[trigger] all[i], found[i]),
        end < all.len() ==> !continues(all[end], found[end]),
    ensures
        context_end(all, found, from) == end,
    decreases end - from,
{
    if from < end {
        assert(continues(all[from], found[from]));
        context_end_is(all, found, from + 1, end);
    }
}

/// The codes counted are those of the errors, one for each, in order.
pub proof fn every_code_is_counted(all: Seq<Report>)
    ensures
        codes(all) == all.map_values(|r: Report| r.code),
{
    assert(codes(all) =~= all.map_values(|r: Report| r.code));
}

/// A line that the expression matches reads as what the groups of the match hold: the
/// file, the line, the kind, the code and the message; any other reads as nothing.
pub proof fn a_line_reads_as_its_groups(line: Seq<char>, caps: Seq<Option<Seq<char>>>, n: nat)
    requires
        regex_error(TSC_ERROR@) is None,
    ensures
        regex_captures(TSC_ERROR@, line) is None ==> read(line) is None,
        regex_captures(TSC_ERROR@, line) == Some(caps) && caps.len() == 7 && (forall|i: int|
            0 <= i < 7 ==> (#[trigger] caps[i]) is Some) && caps[2] == Some(decimal(n)) && n
            <= usize::MAX ==> read(line) == Some(
            Finding {
                file: caps[1]->0,
                line: n,
                kind: caps[4]->0,
                code: caps[5]->0,
                message: caps[6]->0,
            },
        ),
{
    crate::text::a_number_is_read(n, usize::MAX as nat, seq![], 0);
    if regex_captures(TSC_ERROR@, line) == Some(caps) && caps.len() == 7 && (forall|i: int|
        0 <= i < 7 ==> (#[trigger] caps[i]) is Some) {
        assert(caps[1] is Some && caps[4] is Some && caps[5] is Some && caps[6] is Some);
    }
}

/// What is left tells how many errors there are in how many files, and then all of them;
/// without an error it tells whether the compiler said so itself.
pub proof fn the_errors_are_told(output: Seq<char>, found: Seq<Option<Finding>>, all: Seq<Report>)
    requires
        all == errors_from(lines(output), found, 0),
    ensures
        all.len() > 0 ==> summary_of(output, found) == trimmed(
            "TypeScript: "@ + decimal(all.len()) + " errors in "@ + decimal(
                distinct(files(all)).len(),
            ) + " files\n"@ + codes_text(all) + all_blocks(Style::Plain, all),
        ),
        all.len() == 0 && contains(output, "Found 0 errors"@) ==> summary_of(output, found)
            == "TypeScript: No errors found"@,
        all.len() == 0 && !contains(output, "Found 0 errors"@) ==> summary_of(output, found)
            == "TypeScript compilation completed"@,
{
}

} // verus!
