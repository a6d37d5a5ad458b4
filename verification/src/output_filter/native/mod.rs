//! Command-output filters written by hand.
//!
//! Some tools (tsc, pytest, mypy, prettier) produce output a declarative
//! pipeline cannot compress well: the summary needs stateful parsing (group by
//! file, count by error code, collect failure blocks). Each has a pure filter
//! here, dispatched by command.
use vstd::prelude::*;
use crate::text::{chars_of, has_char, same, string_of, views, words, words_of};

pub mod issues;
pub mod mypy;
pub mod prettier;
pub mod pytest;
pub mod tsc;

verus! {

/// A command that has a filter of its own.
#[derive(Debug, PartialEq, Eq, Clone, Copy, Structural)]
pub enum Native {
    Tsc,
    Pytest,
    Mypy,
    Prettier,
}

/// Whether a character ends the first command of a command line.
pub open spec fn ends_segment(c: char) -> bool {
    c == '|' || c == ';' || c == '&'
}

/// The command line up to the first pipe, semicolon or ampersand.
pub open spec fn first_segment(command: Seq<char>) -> Seq<char>
    decreases command.len(),
{
    if command.len() == 0 || ends_segment(command[0]) {
        seq![]
    } else {
        seq![command[0]] + first_segment(command.skip(1))
    }
}

/// Whether a word runs the program named after it.
pub open spec fn is_runner(word: Seq<char>) -> bool {
    word == "npx"@ || word == "bunx"@
}

/// Whether a word is a package manager, which may have `exec` or `run` after it.
pub open spec fn is_manager(word: Seq<char>) -> bool {
    word == "pnpm"@ || word == "yarn"@ || word == "bun"@
}

/// Whether a word is a Python interpreter.
pub open spec fn is_python(word: Seq<char>) -> bool {
    word == "python"@ || word == "python3"@ || word == "py"@
}

/// The program that a list of words runs, seen past environment assignments
/// (`FOO=bar cmd`), package runners and the `-m module` form of Python.
pub open spec fn program(all: Seq<Seq<char>>) -> Option<Seq<char>>
    decreases all.len(),
{
    if all.len() == 0 {
        None
    } else if all[0].contains('=') || is_runner(all[0]) {
        program(all.skip(1))
    } else if is_manager(all[0]) {
        if all.len() > 1 && (all[1] == "exec"@ || all[1] == "run"@) {
            program(all.skip(2))
        } else {
            program(all.skip(1))
        }
    } else if is_python(all[0]) && all.len() > 1 && all[1] == "-m"@ {
        if all.len() > 2 {
            Some(all[2])
        } else {
            None
        }
    } else {
        Some(all[0])
    }
}

/// The text before the first character that ends a segment.
fn segment_of(command: &str) -> (out: String)
    ensures
        out@ == first_segment(command@),
{
    let x = chars_of(command);
    let mut i: usize = 0;
    assert(x@.skip(0) =~= x@);
    assert(x@.take(0) =~= seq![]);
    assert(x@.take(0) + first_segment(x@) =~= first_segment(x@));
    while i < x.len() && !(x[i] == '|' || x[i] == ';' || x[i] == '&')
        invariant
            i <= x@.len(),
            x@ == command@,
            first_segment(x@) == x@.take(i as int) + first_segment(x@.skip(i as int)),
        decreases x.len() - i,
    {
        assert(x@.skip(i as int)[0] == x@[i as int]);
        assert(x@.skip(i as int).skip(1) =~= x@.skip(i + 1));
        assert(x@.take(i as int) + first_segment(x@.skip(i as int)) =~= x@.take(i + 1)
            + first_segment(x@.skip(i + 1)));
        i += 1;
    }
    assert(i < x@.len() ==> x@.skip(i as int)[0] == x@[i as int]);
    assert(x@.take(i as int) + Seq::<char>::empty() =~= x@.take(i as int));
    assert(x@.subrange(0, i as int) =~= x@.take(i as int));
    string_of(&x, 0, i)
}

/// Resolve the effective program a command runs, seeing past env assignments
/// (`FOO=bar cmd`), package-runner wrappers (`npx`/`pnpm`/`yarn`/`bunx`), and the
/// Python `-m module` form. Only the first pipeline segment is inspected.
pub fn resolve_program(command: &str) -> (r: Option<String>)
    ensures
        crate::text::opt_view(r) == program(words(first_segment(command@))),
{
    let all = words_of(&segment_of(command));
    let ghost model = views(all@);
    let mut i: usize = 0;
    assert(model.skip(0) =~= model);
    while i < all.len()
        invariant
            i <= all@.len(),
            model == views(all@),
            model == words(first_segment(command@)),
            program(model) == program(model.skip(i as int)),
        decreases all.len() - i,
    {
        let word = &all[i];
        let ghost rest = model.skip(i as int);
        proof {
            assert(rest[0] == word@);
            assert(rest.skip(1) =~= model.skip(i + 1));
            assert(rest.len() > 1 ==> rest[1] == all@[i + 1]@);
            assert(rest.len() > 1 ==> rest.skip(2) =~= model.skip(i + 2));
            assert(rest.len() > 2 ==> rest[2] == all@[i + 2]@);
        }
        if has_char(word, '=') || same(word, "npx") || same(word, "bunx") {
            i += 1;
        } else if same(word, "pnpm") || same(word, "yarn") || same(word, "bun") {
            if i + 1 < all.len() && (same(&all[i + 1], "exec") || same(&all[i + 1], "run")) {
                i += 2;
            } else {
                i += 1;
            }
        } else if (same(word, "python") || same(word, "python3") || same(word, "py")) && i + 1
            < all.len() && same(&all[i + 1], "-m") {
            if i + 2 < all.len() {
                return Some(all[i + 2].clone());
            }
            return None;
        } else {
            return Some(word.clone());
        }
    }
    None
}

/// The filter of a program, where it has one.
pub open spec fn native_of(program: Seq<char>) -> Option<Native> {
    if program == "tsc"@ {
        Some(Native::Tsc)
    } else if program == "pytest"@ || program == "py.test"@ {
        Some(Native::Pytest)
    } else if program == "mypy"@ {
        Some(Native::Mypy)
    } else if program == "prettier"@ {
        Some(Native::Prettier)
    } else {
        None
    }
}

pub fn classify(program: &str) -> (r: Option<Native>)
    ensures
        r == native_of(program@),
{
    if same(program, "tsc") {
        Some(Native::Tsc)
    } else if same(program, "pytest") || same(program, "py.test") {
        Some(Native::Pytest)
    } else if same(program, "mypy") {
        Some(Native::Mypy)
    } else if same(program, "prettier") {
        Some(Native::Prettier)
    } else {
        None
    }
}

/// The filter that claims a command, where one does.
pub open spec fn claimed_by(command: Seq<char>) -> Option<Native> {
    match program(words(first_segment(command))) {
        Some(p) => native_of(p),
        None => None,
    }
}

pub fn detect(command: &str) -> (r: Option<Native>)
    ensures
        r == claimed_by(command@),
{
    match resolve_program(command) {
        Some(p) => classify(&p),
        None => None,
    }
}

/// What the filter of a tool makes of its output.
pub open spec fn summary(native: Native, raw: Seq<char>) -> Seq<char> {
    match native {
        Native::Tsc => tsc::summary(raw),
        Native::Pytest => pytest::summary(raw),
        Native::Mypy => mypy::summary(raw),
        Native::Prettier => prettier::summary(raw),
    }
}

/// Filter a command's output with the filter of its own, or `None` when no such
/// filter claims the command.
pub fn try_filter(command: &str, raw: &str) -> (r: Option<String>)
    ensures
        match claimed_by(command@) {
            Some(native) => crate::text::opt_view(r) == Some(summary(native, raw@)),
            None => r is None,
        },
{
    match detect(command) {
        None => None,
        Some(Native::Tsc) => Some(tsc::filter(raw)),
        Some(Native::Pytest) => Some(pytest::filter(raw)),
        Some(Native::Mypy) => Some(mypy::filter(raw)),
        Some(Native::Prettier) => Some(prettier::filter(raw)),
    }
}

/// An environment assignment or a package runner before a command changes
/// nothing about which program runs.
pub proof fn wrappers_are_transparent(wrapper: Seq<char>, all: Seq<Seq<char>>)
    requires
        wrapper.contains('=') || is_runner(wrapper),
    ensures
        program(seq![wrapper] + all) == program(all),
{
    assert((seq![wrapper] + all).skip(1) =~= all);
}

/// Nothing after the first pipe, semicolon or ampersand has a say in which
/// filter claims the command.
pub proof fn only_the_first_segment_counts(first: Seq<char>, end: char, rest: Seq<char>)
    requires
        ends_segment(end),
    ensures
        claimed_by(first + seq![end] + rest) == claimed_by(first),
    decreases first.len(),
{
    segment_ignores_rest(first, end, rest);
}

proof fn segment_ignores_rest(first: Seq<char>, end: char, rest: Seq<char>)
    requires
        ends_segment(end),
    ensures
        first_segment(first + seq![end] + rest) == first_segment(first),
    decreases first.len(),
{
    let whole = first + seq![end] + rest;
    if first.len() == 0 {
        assert(whole[0] == end);
    } else {
        assert(whole[0] == first[0]);
        if !ends_segment(first[0]) {
            segment_ignores_rest(first.skip(1), end, rest);
            assert(whole.skip(1) =~= first.skip(1) + seq![end] + rest);
        }
    }
}

/// The program of a command is its first word that is no wrapper; behind a manager's
/// `exec` or `run` it is the word after that, and behind an interpreter's `-m` the
/// module.
pub proof fn the_program_is_found(word: Seq<char>, second: Seq<char>, rest: Seq<Seq<char>>)
    ensures
        !word.contains('=') && !is_runner(word) && !is_manager(word) && !is_python(word) ==> program(
            seq![word] + rest,
        ) == Some(word),
        is_manager(word) && !word.contains('=') && !is_runner(word) && (second == "exec"@ || second
            == "run"@) ==> program(seq![word, second] + rest) == program(rest),
        is_python(word) && !word.contains('=') && !is_runner(word) && !is_manager(word) ==> program(
            seq![word, "-m"@, second] + rest,
        ) == Some(second),
        program(seq![]) is None,
{
    assert((seq![word, second] + rest).skip(2) =~= rest);
}

/// The first segment of a command is what stands before the first character that ends
/// one.
pub proof fn a_segment_ends_where_it_ends(command: Seq<char>)
    ensures
        first_segment(command).is_prefix_of(command),
        forall|i: int|
            0 <= i < first_segment(command).len() ==> !ends_segment(
                #[trigger] first_segment(command)[i],
            ),
        first_segment(command).len() < command.len() ==> ends_segment(
            command[first_segment(command).len() as int],
        ),
    decreases command.len(),
{
    if command.len() > 0 && !ends_segment(command[0]) {
        let rest = command.skip(1);
        a_segment_ends_where_it_ends(rest);
        let first = first_segment(command);
        let later = first_segment(rest);
        assert(later =~= rest.take(later.len() as int));
        assert(first =~= command.take(first.len() as int));
        assert forall|i: int| 0 <= i < first.len() implies !ends_segment(#[trigger] first[i]) by {
            if i > 0 {
                assert(first[i] == later[i - 1]);
            }
        }
    } else {
        assert(first_segment(command) =~= command.take(0));
    }
}

/// Each of the four programs has its own filter, and no other program has one.
pub proof fn each_program_has_its_filter(program: Seq<char>)
    ensures
        native_of(program) == Some(Native::Tsc) <==> program == "tsc"@,
        native_of(program) == Some(Native::Pytest) <==> program == "pytest"@ || program
            == "py.test"@,
        native_of(program) == Some(Native::Mypy) <==> program == "mypy"@,
        native_of(program) == Some(Native::Prettier) <==> program == "prettier"@,
{
    reveal_strlit("tsc");
    reveal_strlit("pytest");
    reveal_strlit("py.test");
    reveal_strlit("mypy");
    reveal_strlit("prettier");
    assert("tsc"@.len() == 3 && "pytest"@.len() == 6 && "py.test"@.len() == 7 && "mypy"@.len() == 4
        && "prettier"@.len() == 8);
}

/// What runs another program: two runners, three managers and three names of one
/// interpreter.
pub proof fn what_runs_another_program(word: Seq<char>)
    ensures
        is_runner("npx"@) && is_runner("bunx"@),
        is_manager("pnpm"@) && is_manager("yarn"@) && is_manager("bun"@),
        is_python("python"@) && is_python("python3"@) && is_python("py"@),
        is_runner(word) ==> word == "npx"@ || word == "bunx"@,
        is_manager(word) ==> word == "pnpm"@ || word == "yarn"@ || word == "bun"@,
        is_python(word) ==> word == "python"@ || word == "python3"@ || word == "py"@,
{
}

} // verus!
