//! Prettier output filter: show only the files that need formatting.
use vstd::prelude::*;
use crate::text::{
    contains, count, decimal, ends_with, has, is_blank, kept_one_more, lines, lines_of,
    parse_count, parsed, starts_with, trim, trimmed, views, views_push, words, words_of,
};

verus! {

/// Max files listed before collapsing to a "+N more" line.
pub const MAX_PRETTIER_FILES: usize = 10;

/// Whether a name ends like a file prettier formats.
pub open spec fn formattable(name: Seq<char>) -> bool {
    ||| ".ts"@.is_suffix_of(name)
    ||| ".tsx"@.is_suffix_of(name)
    ||| ".js"@.is_suffix_of(name)
    ||| ".jsx"@.is_suffix_of(name)
    ||| ".json"@.is_suffix_of(name)
    ||| ".md"@.is_suffix_of(name)
    ||| ".css"@.is_suffix_of(name)
    ||| ".scss"@.is_suffix_of(name)
}

/// Whether a trimmed line names a source file prettier flagged.
pub open spec fn names_file(line: Seq<char>) -> bool {
    &&& line.len() > 0
    &&& !"Checking"@.is_prefix_of(line)
    &&& !"All matched"@.is_prefix_of(line)
    &&& !"Code style"@.is_prefix_of(line)
    &&& !contains(line, "[warn]"@)
    &&& !contains(line, "[error]"@)
    &&& formattable(line)
}

/// A non-empty line naming a source file prettier flagged.
pub fn is_file_line(trimmed: &str) -> (r: bool)
    ensures
        r == names_file(trimmed@),
{
    if trimmed.is_empty() || starts_with(trimmed, "Checking") || starts_with(
        trimmed,
        "All matched",
    ) || starts_with(trimmed, "Code style") || has(trimmed, "[warn]") || has(trimmed, "[error]") {
        return false;
    }
    ends_with(trimmed, ".ts") || ends_with(trimmed, ".tsx") || ends_with(trimmed, ".js")
        || ends_with(trimmed, ".jsx") || ends_with(trimmed, ".json") || ends_with(trimmed, ".md")
        || ends_with(trimmed, ".css") || ends_with(trimmed, ".scss")
}

/// The flagged files among the lines.
pub open spec fn flagged(all: Seq<Seq<char>>) -> Seq<Seq<char>>
    decreases all.len(),
{
    if all.len() == 0 {
        seq![]
    } else if names_file(trimmed(all.last())) {
        flagged(all.drop_last()).push(trimmed(all.last()))
    } else {
        flagged(all.drop_last())
    }
}

/// The number of checked files that a line reports.
pub open spec fn reported(line: Seq<char>) -> Option<nat> {
    let all = words(line);
    if contains(line, "All matched files use Prettier"@) && all.len() > 0 {
        parsed(all[0], usize::MAX as nat)
    } else {
        None
    }
}

/// The number of checked files that the last line to report one gives.
pub open spec fn checked(all: Seq<Seq<char>>) -> nat
    decreases all.len(),
{
    if all.len() == 0 {
        0
    } else {
        match reported(trimmed(all.last())) {
            Some(n) => n,
            None => checked(all.drop_last()),
        }
    }
}

/// Files prettier flagged, and how many it reported as already formatted.
pub fn collect(output: &str) -> (r: (Vec<String>, usize))
    ensures
        views(r.0@) == flagged(lines(output@)),
        r.1 == checked(lines(output@)),
{
    broadcast use views_push;

    let all = lines_of(output);
    let ghost model = views(all@);
    let mut files: Vec<String> = Vec::new();
    let mut total: usize = 0;
    let mut i: usize = 0;
    assert(model.take(0) =~= seq![]);
    assert(views(files@) =~= seq![]);
    while i < all.len()
        invariant
            i <= all@.len(),
            model == views(all@),
            views(files@) == flagged(model.take(i as int)),
            total == checked(model.take(i as int)),
        decreases all.len() - i,
    {
        let ghost next = model.take(i + 1);
        assert(next.drop_last() =~= model.take(i as int));
        assert(next.last() == all@[i as int]@);
        let line = trim(&all[i]);
        if has(&line, "All matched files use Prettier") {
            let first = words_of(&line);
            if first.len() > 0 {
                assert(views(first@)[0] == first@[0]@);
                if let Some(n) = parse_count(&first[0]) {
                    total = n;
                }
            }
        }
        if is_file_line(&line) {
            files.push(line);
        }
        i += 1;
    }
    assert(model.take(model.len() as int) =~= model);
    (files, total)
}

/// The first `n` files, numbered, one to a line.
pub open spec fn numbered(files: Seq<Seq<char>>, n: int) -> Seq<char>
    decreases n,
{
    if n <= 0 {
        seq![]
    } else {
        numbered(files, n - 1) + decimal(n as nat) + ". "@ + files[n - 1] + "\n"@
    }
}

/// The number of files that are listed by name.
pub open spec fn listed(files: Seq<Seq<char>>) -> int {
    if files.len() > MAX_PRETTIER_FILES {
        MAX_PRETTIER_FILES as int
    } else {
        files.len() as int
    }
}

/// The line about the files that are not listed by name.
pub open spec fn more(files: Seq<Seq<char>>) -> Seq<char> {
    if files.len() > MAX_PRETTIER_FILES {
        "\n... +"@ + decimal((files.len() - MAX_PRETTIER_FILES) as nat) + " more files\n"@
    } else {
        seq![]
    }
}

/// The line about the files that need nothing.
pub open spec fn already(files: Seq<Seq<char>>, total: nat) -> Seq<char> {
    if total > files.len() {
        "\n"@ + decimal((total - files.len()) as nat) + " files already formatted\n"@
    } else {
        seq![]
    }
}

/// What check mode reports.
pub open spec fn check_report(files: Seq<Seq<char>>, total: nat) -> Seq<char> {
    if files.len() == 0 {
        "Prettier: All files formatted correctly"@
    } else {
        trimmed(
            "Prettier: "@ + decimal(files.len()) + " files need formatting\n"@ + numbered(
                files,
                listed(files),
            ) + more(files) + already(files, total),
        )
    }
}

pub fn render_check_mode(files: &Vec<String>, total: usize) -> (out: String)
    ensures
        out@ == check_report(views(files@), total as nat),
{
    if files.len() == 0 {
        return "Prettier: All files formatted correctly".to_string();
    }
    let ghost model = views(files@);
    let mut head = "Prettier: ".to_string();
    let needed = count(files.len());
    head.push_str(&needed);
    head.push_str(" files need formatting\n");
    let mut list = String::new();
    let mut i: usize = 0;
    while i < files.len() && i < MAX_PRETTIER_FILES
        invariant
            i <= files@.len(),
            i <= MAX_PRETTIER_FILES,
            model == views(files@),
            list@ == numbered(model, i as int),
        decreases files.len() - i,
    {
        let n = count(i + 1);
        list.push_str(&n);
        list.push_str(". ");
        list.push_str(&files[i]);
        list.push_str("\n");
        i += 1;
    }
    head.push_str(&list);
    let mut tail = String::new();
    if files.len() > MAX_PRETTIER_FILES {
        tail.push_str("\n... +");
        let n = count(files.len() - MAX_PRETTIER_FILES);
        tail.push_str(&n);
        tail.push_str(" more files\n");
        assert(tail@ =~= more(model));
    }
    head.push_str(&tail);
    let mut rest = String::new();
    if total > files.len() {
        rest.push_str("\n");
        let n = count(total - files.len());
        rest.push_str(&n);
        rest.push_str(" files already formatted\n");
        assert(rest@ =~= already(model, total as nat));
    }
    head.push_str(&rest);
    trim(&head)
}

/// What is left of prettier's output.
pub open spec fn summary(output: Seq<char>) -> Seq<char> {
    let files = flagged(lines(output));
    if trimmed(output).len() == 0 {
        "Error: prettier produced no output"@
    } else if files.len() == 0 && contains(output, "All matched files use Prettier"@) {
        "Prettier: All files formatted correctly"@
    } else if contains(output, "modified"@) || contains(output, "formatted"@) {
        "Prettier: "@ + decimal(files.len()) + " files formatted"@
    } else {
        check_report(files, checked(lines(output)))
    }
}

/// Compress prettier output to the files that still need formatting.
pub fn filter(output: &str) -> (out: String)
    ensures
        out@ == summary(output@),
{
    if is_blank(output) {
        return "Error: prettier produced no output".to_string();
    }
    let (files, total) = collect(output);
    if files.len() == 0 && has(output, "All matched files use Prettier") {
        return "Prettier: All files formatted correctly".to_string();
    }
    // Write mode: prettier reformatted files in place.
    if has(output, "modified") || has(output, "formatted") {
        let mut out = "Prettier: ".to_string();
        let n = count(files.len());
        out.push_str(&n);
        out.push_str(" files formatted");
        return out;
    }
    render_check_mode(&files, total)
}

/// The flagged files are the lines that name one, trimmed, in order.
pub proof fn every_flagged_file_is_gathered(all: Seq<Seq<char>>)
    ensures
        flagged(all) == all.map_values(|line: Seq<char>| trimmed(line)).filter(
            |line: Seq<char>| names_file(line),
        ),
    decreases all.len(),
{
    let bare = all.map_values(|line: Seq<char>| trimmed(line));
    kept_one_more(bare, |line: Seq<char>| names_file(line));
    if all.len() > 0 {
        every_flagged_file_is_gathered(all.drop_last());
        assert(bare.drop_last() =~= all.drop_last().map_values(|line: Seq<char>| trimmed(line)));
    }
}

proof fn numbered_one_by_one(files: Seq<Seq<char>>, n: int)
    requires
        0 <= n <= files.len(),
    ensures
        numbered(files, n) == Seq::new(
            n as nat,
            |i: int| decimal((i + 1) as nat) + ". "@ + files[i] + "\n"@,
        ).flatten(),
    decreases n,
{
    let parts = Seq::new(
        n as nat,
        |i: int| decimal((i + 1) as nat) + ". "@ + files[i] + "\n"@,
    );
    if n > 0 {
        numbered_one_by_one(files, n - 1);
        let fewer = Seq::new(
            (n - 1) as nat,
            |i: int| decimal((i + 1) as nat) + ". "@ + files[i] + "\n"@,
        );
        let part = decimal(n as nat) + ". "@ + files[n - 1] + "\n"@;
        fewer.lemma_flatten_push(part);
        assert(parts =~= fewer.push(part));
        assert(numbered(files, n) =~= fewer.flatten() + part);
    } else {
        assert(parts =~= seq![]);
        assert(parts.flatten() =~= seq![]);
    }
}

/// Each of the first ten files that need formatting is listed under its number, in
/// order; how many more there are, and how many need nothing, is told behind them.
pub proof fn each_flagged_file_is_listed(
    files: Seq<Seq<char>>,
    total: nat,
    n: nat,
    further: Seq<char>,
    rest: Seq<char>,
)
    requires
        files.len() > 0,
        n == (if files.len() > 10 {
            10
        } else {
            files.len()
        }),
        further == (if files.len() > 10 {
            "\n... +"@ + decimal((files.len() - 10) as nat) + " more files\n"@
        } else {
            seq![]
        }),
        rest == (if total > files.len() {
            "\n"@ + decimal((total - files.len()) as nat) + " files already formatted\n"@
        } else {
            seq![]
        }),
    ensures
        check_report(files, total) == trimmed(
            "Prettier: "@ + decimal(files.len()) + " files need formatting\n"@ + Seq::new(
                n,
                |i: int| decimal((i + 1) as nat) + ". "@ + files[i] + "\n"@,
            ).flatten() + further + rest,
        ),
{
    numbered_one_by_one(files, n as int);
}

/// The number of files checked is what the last line that reports one says.
pub proof fn the_last_report_counts(all: Seq<Seq<char>>, k: int)
    requires
        0 <= k < all.len(),
        reported(trimmed(all[k])) is Some,
        forall|j: int| k < j < all.len() ==> reported(trimmed(#[trigger] all[j])) is None,
    ensures
        checked(all) == reported(trimmed(all[k]))->0,
    decreases all.len(),
{
    if k < all.len() - 1 {
        assert(reported(trimmed(all[all.len() - 1])) is None);
        let front = all.drop_last();
        assert forall|j: int| k < j < front.len() implies reported(trimmed(#[trigger] front[j])) is None by {
            assert(front[j] == all[j]);
        }
        the_last_report_counts(front, k);
    }
}

/// A line reports a number where it says that all is well and begins with one.
pub proof fn a_report_begins_with_its_number(line: Seq<char>, n: nat)
    requires
        n <= usize::MAX,
        words(line).len() > 0,
        words(line)[0] == decimal(n),
    ensures
        contains(line, "All matched files use Prettier"@) ==> reported(line) == Some(n),
        !contains(line, "All matched files use Prettier"@) ==> reported(line) is None,
{
    crate::text::a_number_is_read(n, usize::MAX as nat, seq![], 0);
}

/// What is left of an output: that there was none, that all is well, how many files were
/// written, or those that need formatting.
pub proof fn what_is_left_of_an_output(output: Seq<char>, files: Seq<Seq<char>>)
    requires
        files == flagged(lines(output)),
        trimmed(output).len() > 0,
    ensures
        ({
            let well = files.len() == 0 && contains(output, "All matched files use Prettier"@);
            let wrote = contains(output, "modified"@) || contains(output, "formatted"@);
            &&& well ==> summary(output) == "Prettier: All files formatted correctly"@
            &&& !well && wrote ==> summary(output) == "Prettier: "@ + decimal(files.len())
                + " files formatted"@
            &&& !well && !wrote ==> summary(output) == check_report(files, checked(lines(output)))
        }),
{
}

} // verus!
