//! Running a configured file formatter after a write.
use vstd::prelude::*;
use crate::paths::{path_extension, path_extension_of};
use crate::text::{member, same, views, views_push};

verus! {

/// A configured formatter.
#[derive(Debug)]
pub struct FormatterConfig {
    pub command: Vec<String>,
    /// The extensions it formats, each with its dot.
    pub extensions: Vec<String>,
    pub disabled: bool,
}

/// A file's extension with its dot, empty where it has none.
pub open spec fn dotted(path: Seq<char>) -> Seq<char> {
    match path_extension(path) {
        Some(e) => "."@ + e,
        None => seq![],
    }
}

/// Whether a formatter is for files with the extension.
pub open spec fn applies(f: FormatterConfig, ext: Seq<char>) -> bool {
    !f.disabled && f.command@.len() > 0 && views(f.extensions@).contains(ext)
}

/// Whether an argument stands for the file.
pub open spec fn is_placeholder(arg: Seq<char>) -> bool {
    arg == "$FILE"@ || arg == "{file}"@
}

/// Whether one of the first `n` arguments stands for the file.
pub open spec fn names_file(args: Seq<Seq<char>>, n: int) -> bool {
    exists|i: int| 1 <= i < n && i < args.len() && is_placeholder(#[trigger] args[i])
}

/// The command with the path in place of what stands for the file, or after its
/// arguments where nothing does.
pub open spec fn command_for(command: Seq<Seq<char>>, path: Seq<char>) -> Seq<Seq<char>> {
    let filled = Seq::new(
        command.len(),
        |i: int|
            if i > 0 && is_placeholder(command[i]) {
                path
            } else {
                command[i]
            },
    );
    if names_file(command, command.len() as int) {
        filled
    } else {
        filled.push(path)
    }
}

/// The first formatter from `from` on that is for files with the extension.
pub open spec fn first_formatter(all: Seq<FormatterConfig>, ext: Seq<char>, from: int) -> Option<
    FormatterConfig,
>
    decreases all.len() - from,
{
    if from < 0 || from >= all.len() {
        None
    } else if applies(all[from], ext) {
        Some(all[from])
    } else {
        first_formatter(all, ext, from + 1)
    }
}

/// The command that formats a file; none where no formatter is for it. The
/// formatters are tried in the order they are given, and only the first that
/// applies is run.
pub open spec fn format_command(all: Seq<FormatterConfig>, path: Seq<char>) -> Option<
    Seq<Seq<char>>,
> {
    match first_formatter(all, dotted(path), 0) {
        Some(f) => Some(command_for(views(f.command@), path)),
        None => None,
    }
}

fn fill(command: &Vec<String>, path: &str) -> (out: Vec<String>)
    requires
        command@.len() > 0,
    ensures
        views(out@) == command_for(views(command@), path@),
{
    broadcast use views_push;

    let ghost model = views(command@);
    let ghost filled = Seq::new(
        model.len(),
        |i: int|
            if i > 0 && is_placeholder(model[i]) {
                path@
            } else {
                model[i]
            },
    );
    let mut out: Vec<String> = Vec::new();
    out.push(command[0].clone());
    let mut named = false;
    let mut i: usize = 1;
    assert(views(out@) =~= filled.take(1));
    while i < command.len()
        invariant
            1 <= i <= command@.len(),
            model == views(command@),
            filled == Seq::new(
                model.len(),
                |i: int|
                    if i > 0 && is_placeholder(model[i]) {
                        path@
                    } else {
                        model[i]
                    },
            ),
            views(out@) == filled.take(i as int),
            named == names_file(model, i as int),
        decreases command.len() - i,
    {
        assert(model[i as int] == command@[i as int]@);
        let ghost before = views(out@);
        if same(&command[i], "$FILE") || same(&command[i], "{file}") {
            out.push(path.to_string());
            named = true;
            assert(is_placeholder(model[i as int]));
            assert(names_file(model, i + 1));
        } else {
            out.push(command[i].clone());
            assert(names_file(model, i + 1) == names_file(model, i as int)) by {
                if names_file(model, i + 1) {
                    let k = choose|k: int|
                        1 <= k < i + 1 && k < model.len() && is_placeholder(#[trigger] model[k]);
                    assert(k < i);
                    assert(is_placeholder(model[k]));
                }
                if names_file(model, i as int) {
                    let k = choose|k: int|
                        1 <= k < i && k < model.len() && is_placeholder(#[trigger] model[k]);
                    assert(is_placeholder(model[k]));
                }
            }
        }
        assert(before.push(filled[i as int]) =~= filled.take(i + 1));
        i += 1;
    }
    assert(filled.take(filled.len() as int) =~= filled);
    if !named {
        out.push(path.to_string());
    }
    out
}

/// The command that formats the file at `path`.
pub fn command_line(formatters: &Vec<FormatterConfig>, path: &str) -> (r: Option<
    Vec<String>,
>)
    ensures
        match r {
            Some(v) => format_command(formatters@, path@) == Some(views(v@)),
            None => format_command(formatters@, path@) is None,
        },
{
    let ext = match path_extension_of(path) {
        Some(e) => {
            let mut ext = ".".to_string();
            ext.push_str(&e);
            ext
        },
        None => String::new(),
    };
    let mut i: usize = 0;
    while i < formatters.len()
        invariant
            i <= formatters@.len(),
            ext@ == dotted(path@),
            first_formatter(formatters@, ext@, 0) == first_formatter(
                formatters@,
                ext@,
                i as int,
            ),
        decreases formatters.len() - i,
    {
        let f = &formatters[i];
        if !f.disabled && f.command.len() > 0 && member(&f.extensions, &ext) {
            return Some(fill(&f.command, path));
        }
        i += 1;
    }
    None
}

/// Every formatter's command names the file it formats.
pub proof fn the_command_names_the_file(command: Seq<Seq<char>>, path: Seq<char>)
    requires
        command.len() > 0,
    ensures
        command_for(command, path).contains(path),
{
    let out = command_for(command, path);
    if names_file(command, command.len() as int) {
        let i = choose|i: int|
            1 <= i < command.len() && i < command.len() && is_placeholder(#[trigger] command[i]);
        assert(out[i] == path);
    } else {
        assert(out[out.len() - 1] == path);
    }
}

proof fn formatter_is(all: Seq<FormatterConfig>, ext: Seq<char>, from: int, k: int)
    requires
        0 <= from <= k < all.len(),
        applies(all[k], ext),
        forall|j: int| 0 <= j < k ==> !applies(#[trigger] all[j], ext),
    ensures
        first_formatter(all, ext, from) == Some(all[k]),
    decreases k - from,
{
    if from < k {
        assert(!applies(all[from], ext));
        formatter_is(all, ext, from + 1, k);
    }
}

proof fn no_formatter_is(all: Seq<FormatterConfig>, ext: Seq<char>, from: int)
    requires
        0 <= from,
        forall|j: int| 0 <= j < all.len() ==> !applies(#[trigger] all[j], ext),
    ensures
        first_formatter(all, ext, from) is None,
    decreases all.len() - from,
{
    if from < all.len() {
        assert(!applies(all[from], ext));
        no_formatter_is(all, ext, from + 1);
    }
}

/// A file is formatted by the first formatter that is for its extension, has a command
/// and is not disabled; by none where there is no such formatter.
pub proof fn the_first_formatter_is_run(all: Seq<FormatterConfig>, path: Seq<char>, k: int)
    ensures
        0 <= k < all.len() && applies(all[k], dotted(path)) && (forall|j: int|
            0 <= j < k ==> !applies(#[trigger] all[j], dotted(path))) ==> format_command(all, path)
            == Some(command_for(views(all[k].command@), path)),
        (forall|j: int| 0 <= j < all.len() ==> !applies(#[trigger] all[j], dotted(path)))
            ==> format_command(all, path) is None,
{
    if 0 <= k < all.len() && applies(all[k], dotted(path)) && (forall|j: int|
        0 <= j < k ==> !applies(#[trigger] all[j], dotted(path))) {
        formatter_is(all, dotted(path), 0, k);
    }
    if forall|j: int| 0 <= j < all.len() ==> !applies(#[trigger] all[j], dotted(path)) {
        no_formatter_is(all, dotted(path), 0);
    }
}

/// A formatter's command is run as it is configured: each placeholder is the file, no
/// other argument changes, and the program never does; the file comes last where no
/// placeholder stands for it.
pub proof fn a_command_is_run_as_configured(command: Seq<Seq<char>>, path: Seq<char>, i: int)
    requires
        0 <= i < command.len(),
    ensures
        command_for(command, path)[0] == command[0],
        i > 0 && (command[i] == "$FILE"@ || command[i] == "{file}"@) ==> command_for(command, path)[i]
            == path,
        i > 0 && !(command[i] == "$FILE"@ || command[i] == "{file}"@) ==> command_for(
            command,
            path,
        )[i] == command[i],
        (exists|k: int| 1 <= k < command.len() && is_placeholder(#[trigger] command[k]))
            ==> command_for(command, path).len() == command.len(),
        (forall|k: int| 1 <= k < command.len() ==> !is_placeholder(#[trigger] command[k]))
            ==> command_for(command, path).len() == command.len() + 1 && command_for(
            command,
            path,
        ).last() == path,
{
}

/// A formatter is for a file where it is not disabled, has a command, and names the
/// file's extension.
pub proof fn a_formatter_is_for_its_extensions(f: FormatterConfig, ext: Seq<char>)
    ensures
        f.disabled ==> !applies(f, ext),
        f.command@.len() == 0 ==> !applies(f, ext),
        !views(f.extensions@).contains(ext) ==> !applies(f, ext),
        !f.disabled && f.command@.len() > 0 && views(f.extensions@).contains(ext) ==> applies(
            f,
            ext,
        ),
{
}

} // verus!
