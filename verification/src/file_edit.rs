//! Exact string replacement in a file.
use vstd::prelude::*;
use crate::edit_guard::{
    check, describe_failed_match, failure_text, next_count, refusal, EditGuard, FileSnapshots,
    SnapshotView,
};
use crate::json::{integer_json, members_view, no_members, object, put, text, whole, JsonView};
use crate::line_endings::{
    a_paired_text_is_edited_plainly, a_paired_text_reads_bare, dominant, every_line_ends_one_way,
    normal, one_edit_keeps_the_rest, one_place, one_place_is_every_place, paired,
    reading_drops_paired_returns, rendered, rendering_puts_the_line_ending, replace_preserving_eol,
    replaced, replacing_is_splitting_and_joining, replacing_weaves, to_lf, woven, LineEnding,
};
use crate::text::{
    count, decimal, join, join_append, joined_lengths, occurs_at, opt_view, pieces_are_apart, same,
    split, split_by, split_stands_between, split_text, split_text_stands_between,
};
use crate::{said, PermissionLevel, ResultView, ToolResult};

verus! {

pub struct FileEditTool;

impl FileEditTool {
    pub fn name(&self) -> (out: &'static str)
        ensures
            out@ == "Edit"@,
    {
        "Edit"
    }

    pub fn permission_level(&self) -> (out: PermissionLevel)
        ensures
            out == PermissionLevel::Write,
    {
        PermissionLevel::Write
    }

    /// Asks for permission itself, for the path it is about to touch.
    pub fn self_gates(&self) -> (out: bool)
        ensures
            out,
    {
        true
    }
}

/// What the user is asked to allow.
pub fn permission_text(path: &str) -> (out: String)
    ensures
        out@ == "Edit "@ + path@,
{
    let mut out = "Edit ".to_string();
    out.push_str(path);
    out
}

/// What an edit of a file that cannot be read is answered with.
pub fn unread(path: &str, cause: &str) -> (r: ToolResult)
    ensures
        r@ == said("Failed to read file "@ + path@ + ": "@ + cause@, true),
{
    let mut out = "Failed to read file ".to_string();
    out.push_str(path);
    out.push_str(": ");
    out.push_str(cause);
    ToolResult::error(out)
}

/// What an edit whose file cannot be written is answered with.
pub fn unwritten(path: &str, cause: &str) -> (r: ToolResult)
    ensures
        r@ == said("Failed to write file "@ + path@ + ": "@ + cause@, true),
{
    let mut out = "Failed to write file ".to_string();
    out.push_str(path);
    out.push_str(": ");
    out.push_str(cause);
    ToolResult::error(out)
}

/// Why the two strings make no edit, where they do not.
pub open spec fn bad_strings(old_string: Seq<char>, new_string: Seq<char>) -> Option<Seq<char>> {
    if old_string == new_string {
        Some("old_string and new_string must be different"@)
    } else if old_string.len() == 0 {
        Some("old_string must not be empty"@)
    } else {
        None
    }
}

/// Say why the two strings make no edit, where they do not.
pub fn validate(old_string: &str, new_string: &str) -> (r: Option<ToolResult>)
    ensures
        match r {
            Some(e) => bad_strings(old_string@, new_string@) matches Some(text) && e@ == said(
                text,
                true,
            ),
            None => bad_strings(old_string@, new_string@) is None,
        },
{
    if same(old_string, new_string) {
        return Some(
            ToolResult::error("old_string and new_string must be different".to_string()),
        );
    }
    if old_string.is_empty() {
        return Some(ToolResult::error("old_string must not be empty".to_string()));
    }
    None
}

/// How often `sub` stands in `s`, counting no two that overlap.
pub open spec fn occurrences(s: Seq<char>, sub: Seq<char>) -> int {
    split_text(s, sub).len() - 1
}

/// What a text that is not in the file is answered with.
pub open spec fn not_found(path: Seq<char>) -> Seq<char> {
    "old_string not found in "@ + path
        + ". Make sure the string matches exactly, including whitespace and indentation."@
}

/// What a text that is in the file several times is answered with.
pub open spec fn ambiguous(path: Seq<char>, n: int) -> Seq<char> {
    "old_string appears "@ + decimal(n as nat) + " times in "@ + path
        + ". Either provide a larger string with more surrounding context to make it unique, or set replace_all to true to replace every occurrence."@
}

/// What an edit that changes nothing is answered with.
pub open spec fn unchanged(path: Seq<char>) -> Seq<char> {
    "This edit leaves "@ + path
        + " byte for byte as it is, so nothing was written. old_string and new_string differ only in line endings, which this tool normalizes before matching."@
}

/// The file after the edit: the old text, found whatever its line endings,
/// replaced by the new one with the file's own.
pub open spec fn edited(
    content: Seq<char>,
    old_string: Seq<char>,
    new_string: Seq<char>,
    all: bool,
) -> Seq<char> {
    replaced(content, normal(old_string), rendered(normal(new_string), dominant(content)), all)
}

/// What an edit comes to: the file's new content, or why it is refused.
/// `failed` is how often this text has failed against the file so far.
pub open spec fn outcome(
    guard: EditGuard,
    known: Option<SnapshotView>,
    failed: usize,
    path: Seq<char>,
    content: Seq<char>,
    old_string: Seq<char>,
    new_string: Seq<char>,
    all: bool,
) -> Result<Seq<char>, Seq<char>> {
    let n = occurrences(normal(content), normal(old_string));
    if n == 0 {
        Err(
            if guard == EditGuard::Off {
                not_found(path)
            } else {
                failure_text(path, not_found(path), next_count(failed))
            },
        )
    } else if refusal(guard, known, path, content, normal(old_string), all) is Some {
        Err(refusal(guard, known, path, content, normal(old_string), all)->Some_0)
    } else if n > 1 && !all {
        Err(ambiguous(path, n))
    } else if edited(content, old_string, new_string, all) == content {
        Err(unchanged(path))
    } else {
        Ok(edited(content, old_string, new_string, all))
    }
}

/// An edit that may be written.
#[derive(Debug)]
pub struct PlannedEdit {
    /// The file's new content.
    pub content: String,
    /// The text that was looked for and the text that replaces it, with bare
    /// line feeds.
    pub old_string: String,
    pub new_string: String,
    /// How many places are replaced.
    pub replacements: usize,
}

/// How many places an edit replaces.
pub open spec fn replacements(content: Seq<char>, old_string: Seq<char>, all: bool) -> int {
    if all {
        occurrences(normal(content), normal(old_string))
    } else {
        1
    }
}

fn ambiguous_text(path: &str, n: usize) -> (out: String)
    ensures
        out@ == ambiguous(path@, n as int),
{
    let mut out = "old_string appears ".to_string();
    out.push_str(&count(n));
    out.push_str(" times in ");
    out.push_str(path);
    out.push_str(
        ". Either provide a larger string with more surrounding context to make it unique, or set replace_all to true to replace every occurrence.",
    );
    out
}

/// Decide an edit of a file whose content is `content`.
///
/// Matching is done with bare line feeds, so that line endings never decide
/// whether the text is found, but only the places replaced are rewritten. The
/// edit is held to what this session read, as the guard says.
pub fn plan_edit(
    store: &mut FileSnapshots,
    guard: EditGuard,
    path: &str,
    content: &str,
    old_string: &str,
    new_string: &str,
    replace_all: bool,
) -> (r: Result<PlannedEdit, String>)
    requires
        old_string@.len() > 0,
    ensures
        ({
            let expected = outcome(
                guard,
                old(store).known(path@),
                old(store).failed(path@, normal(old_string@)),
                path@,
                content@,
                old_string@,
                new_string@,
                replace_all,
            );
            match r {
                Ok(p) => {
                    &&& expected == Ok::<Seq<char>, Seq<char>>(p.content@)
                    &&& p.old_string@ == normal(old_string@)
                    &&& p.new_string@ == normal(new_string@)
                    &&& p.replacements == replacements(content@, old_string@, replace_all)
                },
                Err(e) => expected == Err::<Seq<char>, Seq<char>>(e@),
            }
        }),
        forall|other: Seq<char>| #[trigger] final(store).known(other) == old(store).known(other),
        forall|other: Seq<char>, any: Seq<char>|
            (other != path@ || any != normal(old_string@)) ==> #[trigger] final(store).failed(
                other,
                any,
            ) == old(store).failed(other, any),
        final(store).failed(path@, normal(old_string@)) == (if guard != EditGuard::Off
            && occurrences(normal(content@), normal(old_string@)) == 0 {
            next_count(old(store).failed(path@, normal(old_string@)))
        } else {
            old(store).failed(path@, normal(old_string@))
        }),
{
    let eol = LineEnding::detect(content);
    let normalized = to_lf(content);
    let old_norm = to_lf(old_string);
    let new_norm = to_lf(new_string);
    let pieces = split_by(&normalized, &old_norm);
    assert(crate::text::views(pieces@).len() == pieces@.len());
    proof {
        pieces_exist(normalized@, old_norm@, 0, 0);
    }
    let n: usize = pieces.len() - 1;
    if n == 0 {
        let mut plain = "old_string not found in ".to_string();
        plain.push_str(path);
        plain.push_str(
            ". Make sure the string matches exactly, including whitespace and indentation.",
        );
        return Err(describe_failed_match(store, guard, path, &old_norm, &plain));
    }
    if let Some(refused) = check(store, guard, path, content, &old_norm, replace_all) {
        return Err(refused.message);
    }
    if n > 1 && !replace_all {
        return Err(ambiguous_text(path, n));
    }
    let new_content = replace_preserving_eol(content, &old_norm, &new_norm, eol, replace_all);
    if same(&new_content, content) {
        let mut e = "This edit leaves ".to_string();
        e.push_str(path);
        e.push_str(
            " byte for byte as it is, so nothing was written. old_string and new_string differ only in line endings, which this tool normalizes before matching.",
        );
        return Err(e);
    }
    Ok(
        PlannedEdit {
            content: new_content,
            old_string: old_norm,
            new_string: new_norm,
            replacements: if replace_all {
                n
            } else {
                1
            },
        },
    )
}

proof fn pieces_exist(s: Seq<char>, sep: Seq<char>, start: int, at: int)
    ensures
        crate::text::pieces(s, sep, start, at).len() >= 1,
    decreases s.len() - at,
{
    if sep.len() == 0 || at < 0 || at + sep.len() > s.len() {
    } else if occurs_at(s, sep, at) {
    } else {
        pieces_exist(s, sep, start, at + 1);
    }
}

/// What a successful edit says.
pub open spec fn success_text(path: Seq<char>, n: usize, note: Option<Seq<char>>) -> Seq<char> {
    "Successfully edited "@ + path + " ("@ + decimal(n as nat) + " replacement"@ + (if n != 1 {
        "s"@
    } else {
        seq![]
    }) + ")."@ + (match note {
        Some(note) => "\n"@ + note,
        None => seq![],
    })
}

/// What an edit is reported to listeners as.
pub open spec fn edit_metadata(path: Seq<char>, n: usize) -> JsonView {
    JsonView::Object(
        seq![("file_path"@, JsonView::Text(path)), ("replacements"@, integer_json(n as int))],
    )
}

/// Answer an edit that was written, with what the language server had to say of it.
pub fn success(path: &str, replacements: usize, note: &Option<String>) -> (r: ToolResult)
    ensures
        r@ == (ResultView {
            content: success_text(path@, replacements, opt_view(*note)),
            is_error: false,
            metadata: Some(edit_metadata(path@, replacements)),
            duration_ms: None,
        }),
{
    let mut out = "Successfully edited ".to_string();
    out.push_str(path);
    out.push_str(" (");
    out.push_str(&count(replacements));
    out.push_str(" replacement");
    let plural = if replacements != 1 {
        "s".to_string()
    } else {
        String::new()
    };
    out.push_str(&plural);
    out.push_str(").");
    let tail = match note {
        Some(note) => {
            let mut tail = "\n".to_string();
            tail.push_str(note);
            tail
        },
        None => String::new(),
    };
    out.push_str(&tail);
    let mut members = no_members();
    put(&mut members, "file_path", text(path));
    put(&mut members, "replacements", whole(replacements as u64));
    assert(members_view(members@) =~= edit_metadata(path@, replacements)->Object_0);
    ToolResult::success(out).with_metadata(object(members))
}

/// An edit of one place that goes through changes that place and nothing else:
/// the file keeps what stood before it and after it, line endings and all.
pub proof fn one_edit_changes_one_place(
    guard: EditGuard,
    known: Option<SnapshotView>,
    failed: usize,
    path: Seq<char>,
    content: Seq<char>,
    old_string: Seq<char>,
    new_string: Seq<char>,
)
    requires
        old_string.len() > 0,
        outcome(guard, known, failed, path, content, old_string, new_string, false) is Ok,
    ensures
        exists|a: int, b: int|
            one_place(
                content,
                normal(old_string),
                rendered(normal(new_string), dominant(content)),
                a,
                b,
            ),
{
    let o = normal(old_string);
    let c = normal(content);
    pieces_exist(c, o, 0, 0);
    pieces_are_apart(c, o, 0, 0);
    let at = choose|at: int| occurs_at(c, o, at);
    one_edit_keeps_the_rest(
        content,
        o,
        rendered(normal(new_string), dominant(content)),
        at,
    );
}

/// An edit that goes through changes the file.
pub proof fn an_edit_that_goes_through_changes_the_file(
    guard: EditGuard,
    known: Option<SnapshotView>,
    failed: usize,
    path: Seq<char>,
    content: Seq<char>,
    old_string: Seq<char>,
    new_string: Seq<char>,
    all: bool,
)
    requires
        outcome(guard, known, failed, path, content, old_string, new_string, all) is Ok,
    ensures
        outcome(guard, known, failed, path, content, old_string, new_string, all)->Ok_0 != content,
{
}

/// With the guard on, an edit of a file that changed after it was read never goes
/// through.
pub proof fn a_changed_file_is_not_edited(
    guard: EditGuard,
    snapshot: SnapshotView,
    failed: usize,
    path: Seq<char>,
    content: Seq<char>,
    old_string: Seq<char>,
    new_string: Seq<char>,
    all: bool,
)
    requires
        guard != EditGuard::Off,
        snapshot.text != normal(content),
    ensures
        outcome(guard, Some(snapshot), failed, path, content, old_string, new_string, all) is Err,
{
}

/// An edit that goes through, read with bare line feeds, is the file split at the old
/// text and joined with the new one: each place once, what was put in left as it is,
/// and the file longer or shorter by exactly what the replacements make of it. So for
/// files and texts whose carriage returns all stand before line feeds.
pub proof fn an_edit_is_the_file_split_and_joined(
    guard: EditGuard,
    known: Option<SnapshotView>,
    failed: usize,
    path: Seq<char>,
    content: Seq<char>,
    old_string: Seq<char>,
    new_string: Seq<char>,
    all: bool,
    out: Seq<char>,
)
    requires
        old_string.len() > 0,
        paired(content),
        paired(new_string),
        outcome(guard, known, failed, path, content, old_string, new_string, all) == Ok::<
            Seq<char>,
            Seq<char>,
        >(out),
    ensures
        normal(out) == join(split_text(normal(content), normal(old_string)), normal(new_string)),
        replacements(content, old_string, all) == split_text(
            normal(content),
            normal(old_string),
        ).len() - 1,
        replacements(content, old_string, all) >= 1,
        !all ==> replacements(content, old_string, all) == 1,
        normal(out).len() - normal(content).len() == replacements(content, old_string, all) * (
        normal(new_string).len() - normal(old_string).len()),
{
    let c = normal(content);
    let o = normal(old_string);
    let w = normal(new_string);
    replacing_is_splitting_and_joining(c, o, w);
    split_text_stands_between(c, o);
    joined_lengths(split_text(c, o), w, o);
    edited_reads_plainly(content, old_string, new_string, all);
}

proof fn edited_reads_plainly(
    content: Seq<char>,
    old_string: Seq<char>,
    new_string: Seq<char>,
    all: bool,
)
    requires
        old_string.len() > 0,
        paired(content),
        paired(new_string),
        all || split_text(normal(content), normal(old_string)).len() == 2,
    ensures
        normal(edited(content, old_string, new_string, all)) == join(
            split_text(normal(content), normal(old_string)),
            normal(new_string),
        ),
{
    let c = normal(content);
    let o = normal(old_string);
    let w = normal(new_string);
    let eol = dominant(content);
    a_paired_text_reads_bare(content);
    a_paired_text_reads_bare(new_string);
    replacing_is_splitting_and_joining(c, o, w);
    a_paired_text_is_edited_plainly(content, o, w, eol);
    if !all {
        one_place_is_every_place(content, o, rendered(w, eol));
    }
}

/// An edit that goes through keeps the file, character for character, but for the
/// places that read as the old text, and puts the new text there, with the line
/// endings that most lines of the file have: at every place, or at the only one.
pub proof fn an_edit_keeps_what_it_does_not_replace(
    guard: EditGuard,
    known: Option<SnapshotView>,
    failed: usize,
    path: Seq<char>,
    content: Seq<char>,
    old_string: Seq<char>,
    new_string: Seq<char>,
    all: bool,
    out: Seq<char>,
    put_in: Seq<char>,
)
    requires
        old_string.len() > 0,
        outcome(guard, known, failed, path, content, old_string, new_string, all) == Ok::<
            Seq<char>,
            Seq<char>,
        >(out),
        ({
            let feeds = split(content, '\n').len() - 1;
            let pairs = split_text(content, seq!['\r', '\n']).len() - 1;
            put_in == (if pairs > feeds - pairs {
                join(split(normal(new_string), '\n'), seq!['\r', '\n'])
            } else {
                normal(new_string)
            })
        }),
    ensures
        split_text(normal(content), normal(old_string)).len() >= 2,
        !all ==> split_text(normal(content), normal(old_string)).len() == 2,
        exists|kept: Seq<Seq<char>>, gone: Seq<Seq<char>>|
            gone.len() == split_text(normal(content), normal(old_string)).len() - 1
                && #[trigger] woven(content, normal(old_string), put_in, out, kept, gone),
{
    let c = normal(content);
    let o = normal(old_string);
    let w = normal(new_string);
    let eol = dominant(content);
    let (kept, gone) = replacing_weaves(content, o, rendered(w, eol), all);
    replacing_is_splitting_and_joining(c, o, w);
    split_text_stands_between(c, o);
    reading_drops_paired_returns(content);
    every_line_ends_one_way(content);
    rendering_puts_the_line_ending(w, eol);
    split_stands_between(w, '\n');
    assert(rendered(w, eol) == put_in);
    assert(woven(content, o, put_in, out, kept, gone));
}

/// With the guard off, an edit is refused where the old text is not found, where it is
/// found more than once and not every place is meant, and otherwise not, as long as
/// the new text reads otherwise than the old one. So for files and texts whose
/// carriage returns all stand before line feeds.
pub proof fn what_an_edit_is_refused_for(
    known: Option<SnapshotView>,
    failed: usize,
    path: Seq<char>,
    content: Seq<char>,
    old_string: Seq<char>,
    new_string: Seq<char>,
    all: bool,
)
    requires
        old_string.len() > 0,
        paired(content),
        paired(new_string),
        normal(old_string) != normal(new_string),
    ensures
        ({
            let places = split_text(normal(content), normal(old_string)).len() - 1;
            (outcome(
                EditGuard::Off,
                known,
                failed,
                path,
                content,
                old_string,
                new_string,
                all,
            ) is Ok) == (places >= 1 && (all || places == 1))
        }),
{
    let c = normal(content);
    let o = normal(old_string);
    let w = normal(new_string);
    let parts = split_text(c, o);
    split_text_stands_between(c, o);
    if parts.len() > 1 && (all || parts.len() == 2) {
        edited_reads_plainly(content, old_string, new_string, all);
        if edited(content, old_string, new_string, all) == content {
            joined_lengths(parts, w, o);
            let d = w.len() - o.len();
            let n = parts.len() - 1;
            assert(d == 0) by (nonlinear_arith)
                requires
                    n * d == 0,
                    n >= 1,
            ;
            let first = seq![parts[0]];
            let rest = parts.skip(1);
            assert(parts =~= first + rest);
            join_append(first, rest, w);
            join_append(first, rest, o);
            let at = parts[0].len() as int;
            assert(join(parts, w).subrange(at, at + w.len()) =~= w);
            assert(join(parts, o).subrange(at, at + o.len()) =~= o);
        }
    }
}

/// An edit is refused before the file is looked at where, and only where, the two texts
/// are the same or there is nothing to replace.
pub proof fn which_texts_are_refused(old_string: Seq<char>, new_string: Seq<char>)
    ensures
        bad_strings(old_string, new_string) is None <==> old_string != new_string
            && old_string.len() > 0,
{
}

} // verus!
