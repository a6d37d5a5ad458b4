//! Raw-output recovery: what of the unfiltered output to save, and the hint the
//! model can act on to read the part the filter dropped.
//!
//! Two things earn a tee file: a command that failed (`exit_code != 0`), so the
//! model can read the full raw output, and a filter that dropped lines
//! (`Lossiness::Tail` / `Lossiness::Whole`), so the model can recover exactly
//! what was cut. A successful, lossless command writes nothing.
use sha2::Digest;
use vstd::prelude::*;
use crate::encoding::hex_digit;
use crate::order::{sort, sorted};
use crate::output_filter::toml_filter::{Loss, Lossiness};
use crate::text::{
    byte_len, byte_len_append, char_width, chars_of, count, decimal, ends_with, is_white,
    kept_one_more, mapped_one_more, number, size, starts_with, string_of, views, views_push, white, width, words, words_of,
};

verus! {

/// Outputs smaller than this need no recovery file; the filtered result already
/// carries everything worth keeping.
pub const MIN_TEE_SIZE: usize = 500;

/// Keep only the most recent files in the tee directory.
pub const MAX_FILES: usize = 20;

/// Cap a single tee file at 1 MiB.
pub const MAX_FILE_SIZE: usize = 1_048_576;

// ---------------------------------------------------------------------------
// Filename slug
// ---------------------------------------------------------------------------

/// The longest slug that is kept as it is.
pub const MAX_READABLE: usize = 24;

/// Whether a character can stand in a slug.
pub open spec fn slug_safe(c: char) -> bool {
    'a' <= c <= 'z' || 'A' <= c <= 'Z' || '0' <= c <= '9' || c == '_' || c == '-'
}

/// A character as it stands in a slug.
pub open spec fn slug_char(c: char) -> char {
    if slug_safe(c) {
        c
    } else {
        '_'
    }
}

/// The text with everything replaced that cannot stand in a slug.
pub open spec fn safe(slug: Seq<char>) -> Seq<char> {
    slug.map_values(|c: char| slug_char(c))
}

/// The lower-case hexadecimal form of the SHA-256 digest of a text's bytes, as
/// `sha2::Sha256::digest` computes it.
pub uninterp spec fn sha256_hex(s: Seq<char>) -> Seq<char>;

/// `sha2::Sha256::digest` on the bytes of `s`, written out in lower-case
/// hexadecimal: 32 bytes, so 64 digits.
#[verifier::external_body]
fn digest_hex(s: &str) -> (out: String)
    ensures
        out@ == sha256_hex(s@),
        out@.len() == 64,
        forall|i: int| 0 <= i < out@.len() ==> hex_digit(#[trigger] out@[i]),
{
    format!("{:x}", sha2::Sha256::digest(s.as_bytes()))
}

/// First 6 hex chars of the SHA-256 of `s` — a compact tag that keeps shortened
/// slugs distinct. Not collision-resistant alone, but a clash also needs the
/// identical readable prefix and the same epoch second, which scopes it safely.
pub fn short_hash(s: &str) -> (out: String)
    ensures
        out@ == sha256_hex(s@).take(6),
        out@.len() == 6,
        forall|i: int| 0 <= i < out@.len() ==> hex_digit(#[trigger] out@[i]),
{
    let hex = chars_of(&digest_hex(s));
    assert(hex@.subrange(0, 6) =~= hex@.take(6));
    string_of(&hex, 0, 6)
}

/// The slug of a text: made safe, and shortened to a readable prefix and a tag
/// where it is long.
pub open spec fn slug_of(slug: Seq<char>) -> Seq<char> {
    let clean = safe(slug);
    if clean.len() <= MAX_READABLE {
        clean
    } else {
        clean.take(8) + "_"@ + sha256_hex(clean).take(6)
    }
}

fn make_safe(slug: &str) -> (out: String)
    ensures
        out@ == safe(slug@),
{
    let x = chars_of(slug);
    let mut out = String::new();
    let mut i: usize = 0;
    while i < x.len()
        invariant
            i <= x@.len(),
            x@ == slug@,
            out@ == safe(slug@).take(i as int),
        decreases x.len() - i,
    {
        let c = x[i];
        if (c >= 'a' && c <= 'z') || (c >= 'A' && c <= 'Z') || (c >= '0' && c <= '9') || c == '_'
            || c == '-' {
            out.push(c);
        } else {
            out.push('_');
        }
        i += 1;
        assert(out@ =~= safe(slug@).take(i as int));
    }
    assert(safe(slug@).take(safe(slug@).len() as int) =~= safe(slug@));
    out
}

/// Sanitize a command slug for use in a filename. Non-alphanumeric characters
/// (except `_` and `-`) become `_`. A long slug (usually an embedded path that
/// duplicates the command) collapses to a short readable prefix plus a short
/// hash, keeping the filename unique but compact.
///
/// Whatever the slug, the result is short and holds safe characters only.
pub fn sanitize_slug(slug: &str) -> (out: String)
    ensures
        out@ == slug_of(slug@),
        out@.len() <= MAX_READABLE,
        forall|i: int| 0 <= i < out@.len() ==> slug_safe(#[trigger] out@[i]),
{
    let clean = make_safe(slug);
    let x = chars_of(&clean);
    assert forall|i: int| 0 <= i < clean@.len() implies slug_safe(#[trigger] clean@[i]) by {
        assert(clean@[i] == slug_char(slug@[i]));
    }
    if x.len() <= MAX_READABLE {
        return clean;
    }
    let mut out = string_of(&x, 0, 8);
    assert(x@.subrange(0, 8) =~= x@.take(8));
    out.push_str("_");
    let tag = short_hash(&clean);
    out.push_str(&tag);
    proof {
        reveal_strlit("_");
        assert forall|i: int| 0 <= i < out@.len() implies slug_safe(#[trigger] out@[i]) by {
            if i < 8 {
                assert(out@[i] == clean@[i]);
            } else if i > 8 {
                assert(out@[i] == tag@[i - 9]);
                assert(hex_digit(tag@[i - 9]));
            }
        }
    }
    out
}

/// The readable part of a command's slug.
pub open spec fn slug_source(command: Seq<char>) -> Seq<char> {
    let all = words(command);
    if all.len() > 0 {
        all[0]
    } else {
        "cmd"@
    }
}

/// The command's first token, used as the readable part of the slug.
pub fn command_slug(command: &str) -> (out: String)
    ensures
        out@ == slug_source(command@),
{
    let all = words_of(command);
    if all.len() > 0 {
        assert(views(all@)[0] == all@[0]@);
        all[0].clone()
    } else {
        "cmd".to_string()
    }
}

// ---------------------------------------------------------------------------
// What is written
// ---------------------------------------------------------------------------

/// How many characters of `s` fit into `max` bytes.
pub open spec fn fitting(s: Seq<char>, max: int) -> int
    decreases s.len(),
{
    if s.len() == 0 || width(s[0]) > max {
        0
    } else {
        1 + fitting(s.skip(1), max - width(s[0]))
    }
}

/// What fits is at most `max` bytes, and with one more character it would be more.
pub proof fn fitting_is_the_most(s: Seq<char>, max: int)
    requires
        max >= 0,
    ensures
        0 <= fitting(s, max) <= s.len(),
        byte_len(s.take(fitting(s, max))) <= max,
        fitting(s, max) < s.len() ==> byte_len(s.take(fitting(s, max) + 1)) > max,
    decreases s.len(),
{
    if s.len() == 0 || width(s[0]) > max {
        assert(s.take(0) =~= seq![]);
        if s.len() > 0 {
            assert(s.take(1).drop_last() =~= seq![]);
            assert(s.take(1).last() == s[0]);
        }
    } else {
        let rest = s.skip(1);
        let left = max - width(s[0]);
        let n = fitting(rest, left);
        fitting_is_the_most(rest, left);
        crate::text::byte_len_cons(s.take(n + 1));
        assert(s.take(n + 1).skip(1) =~= rest.take(n));
        if n + 1 < s.len() {
            crate::text::byte_len_cons(s.take(n + 2));
            assert(s.take(n + 2).skip(1) =~= rest.take(n + 1));
        }
    }
}

/// How many of the characters fit into `max` bytes.
pub fn fit(x: &[char], max: usize) -> (n: usize)
    ensures
        n == fitting(x@, max as int),
        n <= x@.len(),
{
    let mut left: usize = max;
    let mut n: usize = 0;
    assert(x@.skip(0) =~= x@);
    while n < x.len() && char_width(x[n]) <= left
        invariant
            n <= x@.len(),
            left <= max,
            fitting(x@, max as int) == n + fitting(x@.skip(n as int), left as int),
        decreases x.len() - n,
    {
        assert(x@.skip(n as int)[0] == x@[n as int]);
        assert(x@.skip(n as int).skip(1) =~= x@.skip(n + 1));
        left -= char_width(x[n]);
        n += 1;
    }
    assert(n < x@.len() ==> x@.skip(n as int)[0] == x@[n as int]);
    n
}

/// A text of more than `max` bytes cut to what fits, with a marker.
pub open spec fn capped(raw: Seq<char>, max: nat) -> Seq<char> {
    if byte_len(raw) <= max {
        raw
    } else {
        raw.take(fitting(raw, max as int)) + "\n\n--- truncated at "@ + decimal(max)
            + " bytes ---"@
    }
}

/// Truncate `raw` to `max_file_size` bytes on a UTF-8 char boundary, appending a
/// marker when a cut happened.
pub fn cap_content(raw: &str, max_file_size: usize) -> (out: String)
    ensures
        out@ == capped(raw@, max_file_size as nat),
{
    if size(raw) <= max_file_size {
        return raw.to_string();
    }
    let x = chars_of(raw);
    let n: usize = fit(&x, max_file_size);
    proof {
        fitting_is_the_most(raw@, max_file_size as int);
    }
    assert(x@.subrange(0, n as int) =~= x@.take(n as int));
    let mut out = string_of(&x, 0, n);
    out.push_str("\n\n--- truncated at ");
    let digits = count(max_file_size);
    out.push_str(&digits);
    out.push_str(" bytes ---");
    out
}

/// The name of the tee file of a slug, written at an epoch second.
pub open spec fn tee_name(epoch: nat, slug: Seq<char>) -> Seq<char> {
    decimal(epoch) + "_"@ + slug_of(slug) + ".log"@
}

/// `<epoch>_<slug>.log`
pub fn tee_file_name(epoch: u64, slug: &str) -> (out: String)
    ensures
        out@ == tee_name(epoch as nat, slug@),
{
    let mut out = number(epoch);
    out.push_str("_");
    let clean = sanitize_slug(slug);
    out.push_str(&clean);
    out.push_str(".log");
    out
}

/// Whether a file name has the extension `log`.
pub open spec fn is_log(name: Seq<char>) -> bool {
    ".log"@.is_suffix_of(name) && name.len() > 4
}

/// The log files among the names.
pub open spec fn logs(names: Seq<Seq<char>>) -> Seq<Seq<char>>
    decreases names.len(),
{
    if names.len() == 0 {
        seq![]
    } else if is_log(names.last()) {
        logs(names.drop_last()).push(names.last())
    } else {
        logs(names.drop_last())
    }
}

/// The log files to delete so that the last `max_files` stay.
pub open spec fn stale(names: Seq<Seq<char>>, max_files: nat) -> Seq<Seq<char>> {
    let all = sorted(logs(names));
    if all.len() <= max_files {
        seq![]
    } else {
        all.take(all.len() - max_files)
    }
}

/// The `.log` files to delete so that only the last `max_files` are kept, the
/// oldest first. Filenames begin with the epoch second, so a filename sort is
/// chronological.
pub fn stale_files(names: &Vec<String>, max_files: usize) -> (out: Vec<String>)
    ensures
        views(out@) == stale(views(names@), max_files as nat),
{
    broadcast use views_push;

    let ghost model = views(names@);
    let mut found: Vec<String> = Vec::new();
    let mut i: usize = 0;
    assert(model.take(0) =~= seq![]);
    assert(views(found@) =~= seq![]);
    while i < names.len()
        invariant
            i <= names@.len(),
            model == views(names@),
            views(found@) == logs(model.take(i as int)),
        decreases names.len() - i,
    {
        let ghost next = model.take(i + 1);
        assert(next.drop_last() =~= model.take(i as int));
        assert(next.last() == names@[i as int]@);
        if ends_with(&names[i], ".log") && chars_of(&names[i]).len() > 4 {
            found.push(names[i].clone());
        }
        i += 1;
    }
    assert(model.take(model.len() as int) =~= model);
    let mut all = sort(&found);
    let ghost ordered = views(all@);
    if all.len() <= max_files {
        let none: Vec<String> = Vec::new();
        assert(views(none@) =~= seq![]);
        return none;
    }
    let cut: usize = all.len() - max_files;
    all.truncate(cut);
    assert(views(all@) =~= ordered.take(cut as int));
    all
}

/// Deleting the stale files leaves the last `max_files` log files: no name that
/// goes comes after one that stays.
pub proof fn the_newest_stay(names: Seq<Seq<char>>, max_files: nat, i: int, j: int)
    requires
        logs(names).len() > max_files,
        0 <= i < stale(names, max_files).len(),
        stale(names, max_files).len() <= j < logs(names).len(),
    ensures
        stale(names, max_files).len() == logs(names).len() - max_files,
        crate::order::no_later(stale(names, max_files)[i], sorted(logs(names))[j]),
{
    crate::order::sorting_orders(logs(names));
}

// ---------------------------------------------------------------------------
// Hint formatting (shell-safe path quoting)
// ---------------------------------------------------------------------------

/// Whether a character is special to a shell outside quotes.
pub open spec fn shell_special(c: char) -> bool {
    ||| white(c)
    ||| c == '\'' || c == '"' || c == '\\' || c == '$' || c == '`'
    ||| c == '!' || c == '#' || c == '&' || c == '(' || c == ')'
    ||| c == ';' || c == '<' || c == '>' || c == '?' || c == '['
    ||| c == ']' || c == '{' || c == '}' || c == '|' || c == '*'
}

/// Whether a path has to be quoted for a shell.
pub open spec fn needs_quoting(path: Seq<char>) -> bool {
    exists|i: int| 0 <= i < path.len() && shell_special(#[trigger] path[i])
}

fn is_shell_special(c: char) -> (r: bool)
    ensures
        r == shell_special(c),
{
    is_white(c) || c == '\'' || c == '"' || c == '\\' || c == '$' || c == '`' || c == '!' || c
        == '#' || c == '&' || c == '(' || c == ')' || c == ';' || c == '<' || c == '>' || c == '?'
        || c == '[' || c == ']' || c == '{' || c == '}' || c == '|' || c == '*'
}

pub fn needs_shell_quoting(path: &str) -> (r: bool)
    ensures
        r == needs_quoting(path@),
{
    let x = chars_of(path);
    let mut i: usize = 0;
    while i < x.len()
        invariant
            i <= x@.len(),
            x@ == path@,
            forall|j: int| 0 <= j < i ==> !shell_special(#[trigger] path@[j]),
        decreases x.len() - i,
    {
        if is_shell_special(x[i]) {
            assert(shell_special(path@[i as int]));
            return true;
        }
        i += 1;
    }
    false
}

/// Whether a character is special to a shell between double quotes.
pub open spec fn quote_special(c: char) -> bool {
    c == '\\' || c == '"' || c == '$' || c == '`'
}

/// The text with a backslash before each character that is special between
/// double quotes.
pub open spec fn escaped(path: Seq<char>) -> Seq<char>
    decreases path.len(),
{
    if path.len() == 0 {
        seq![]
    } else if quote_special(path.last()) {
        escaped(path.drop_last()).push('\\').push(path.last())
    } else {
        escaped(path.drop_last()).push(path.last())
    }
}

/// What a shell reads of the text between double quotes: a backslash before a
/// special character stands for nothing.
pub open spec fn unescaped(text: Seq<char>) -> Seq<char>
    decreases text.len(),
{
    if text.len() == 0 {
        seq![]
    } else if text.len() > 1 && text[0] == '\\' && quote_special(text[1]) {
        seq![text[1]] + unescaped(text.skip(2))
    } else {
        seq![text[0]] + unescaped(text.skip(1))
    }
}

pub fn escape_double_quoted_path(path: &str) -> (out: String)
    ensures
        out@ == escaped(path@),
{
    let x = chars_of(path);
    let mut out = String::new();
    let mut i: usize = 0;
    assert(x@.take(0) =~= seq![]);
    while i < x.len()
        invariant
            i <= x@.len(),
            out@ == escaped(x@.take(i as int)),
        decreases x.len() - i,
    {
        let ghost next = x@.take(i + 1);
        assert(next.drop_last() =~= x@.take(i as int));
        assert(next.last() == x@[i as int]);
        let c = x[i];
        if c == '\\' || c == '"' || c == '$' || c == '`' {
            out.push('\\');
        }
        out.push(c);
        i += 1;
    }
    assert(x@.take(x@.len() as int) =~= x@);
    out
}

proof fn escaped_cons(path: Seq<char>)
    requires
        path.len() > 0,
    ensures
        escaped(path) == (if quote_special(path[0]) {
            seq!['\\', path[0]]
        } else {
            seq![path[0]]
        }) + escaped(path.skip(1)),
    decreases path.len(),
{
    if path.len() == 1 {
        assert(path.drop_last() =~= seq![]);
        assert(path.skip(1) =~= seq![]);
        assert(escaped(path) =~= (if quote_special(path[0]) {
            seq!['\\', path[0]]
        } else {
            seq![path[0]]
        }) + escaped(path.skip(1)));
    } else {
        escaped_cons(path.drop_last());
        assert(path.drop_last().skip(1) =~= path.skip(1).drop_last());
        assert(escaped(path) =~= (if quote_special(path[0]) {
            seq!['\\', path[0]]
        } else {
            seq![path[0]]
        }) + escaped(path.skip(1)));
    }
}

/// A shell reads an escaped path as the path itself.
pub proof fn escaping_round_trips(path: Seq<char>)
    ensures
        unescaped(escaped(path)) == path,
    decreases path.len(),
{
    if path.len() > 0 {
        let rest = escaped(path.skip(1));
        escaped_cons(path);
        escaping_round_trips(path.skip(1));
        let text = escaped(path);
        if quote_special(path[0]) {
            assert(text.skip(2) =~= rest);
        } else {
            assert(text.skip(1) =~= rest);
            assert(text[0] == path[0]);
        }
        assert(unescaped(text) =~= path);
    }
}

/// A path as it is shown: under `~/` where it lies in the home directory.
pub open spec fn shown(path: Seq<char>, below_home: Option<Seq<char>>) -> Seq<char> {
    match below_home {
        Some(relative) => "~/"@ + relative,
        None => path,
    }
}

/// A path as it is shown. `below_home` is the rest of the path below the home
/// directory, where it lies there.
pub fn display_path(path: &str, below_home: Option<&str>) -> (out: String)
    ensures
        out@ == shown(
            path@,
            match below_home {
                Some(r) => Some(r@),
                None => None,
            },
        ),
{
    match below_home {
        Some(relative) => {
            let mut out = "~/".to_string();
            out.push_str(relative);
            out
        },
        None => path.to_string(),
    }
}

/// The text with every separator turned into a slash.
pub open spec fn slashed(s: Seq<char>, separator: char) -> Seq<char> {
    s.map_values(|c: char| if c == separator {
        '/'
    } else {
        c
    })
}

fn slash(s: &str, separator: char) -> (out: String)
    ensures
        out@ == slashed(s@, separator),
{
    let x = chars_of(s);
    let mut out = String::new();
    let mut i: usize = 0;
    while i < x.len()
        invariant
            i <= x@.len(),
            x@ == s@,
            out@ == slashed(s@, separator).take(i as int),
        decreases x.len() - i,
    {
        if x[i] == separator {
            out.push('/');
        } else {
            out.push(x[i]);
        }
        i += 1;
        assert(out@ =~= slashed(s@, separator).take(i as int));
    }
    assert(slashed(s@, separator).take(s@.len() as int) =~= slashed(s@, separator));
    out
}

/// A shown path as a word of a shell command.
pub open spec fn shell_word(display: Seq<char>, separator: char) -> Seq<char> {
    if !needs_quoting(display) {
        display
    } else if "~/"@.is_prefix_of(display) {
        "\"$HOME/"@ + escaped(slashed(display.skip(2), separator)) + "\""@
    } else {
        "\""@ + escaped(display) + "\""@
    }
}

/// A shown path as a word of a shell command. `separator` is the platform's.
pub fn display_shell_path(display: &str, separator: char) -> (out: String)
    ensures
        out@ == shell_word(display@, separator),
{
    if !needs_shell_quoting(display) {
        return display.to_string();
    }
    if starts_with(display, "~/") {
        proof {
            reveal_strlit("~/");
        }
        let x = chars_of(display);
        let rest = string_of(&x, 2, x.len());
        assert(rest@ =~= display@.skip(2));
        let body = escape_double_quoted_path(&slash(&rest, separator));
        let mut out = "\"$HOME/".to_string();
        out.push_str(&body);
        out.push_str("\"");
        return out;
    }
    let body = escape_double_quoted_path(display);
    let mut out = "\"".to_string();
    out.push_str(&body);
    out.push_str("\"");
    out
}

/// The hint that points at the whole output.
pub open spec fn full_text(display: Seq<char>, separator: char) -> Seq<char> {
    "[full output: "@ + shell_word(display, separator) + "]"@
}

pub fn full_hint(display: &str, separator: char) -> (out: String)
    ensures
        out@ == full_text(display@, separator),
{
    let mut out = "[full output: ".to_string();
    let word = display_shell_path(display, separator);
    out.push_str(&word);
    out.push_str("]");
    out
}

/// The hint that points at the dropped tail.
pub open spec fn tail_text(display: Seq<char>, separator: char, offset: nat) -> Seq<char> {
    "[see remaining: tail -n +"@ + decimal(offset) + " "@ + shell_word(display, separator) + "]"@
}

pub fn tail_hint(display: &str, separator: char, line_offset: usize) -> (out: String)
    ensures
        out@ == tail_text(display@, separator, line_offset as nat),
{
    let mut out = "[see remaining: tail -n +".to_string();
    let offset = count(line_offset);
    out.push_str(&offset);
    out.push_str(" ");
    let word = display_shell_path(display, separator);
    out.push_str(&word);
    out.push_str("]");
    out
}

// ---------------------------------------------------------------------------
// What to recover
// ---------------------------------------------------------------------------

/// The payload to tee and how to point at it, decided from the loss and exit code.
#[derive(Debug)]
pub enum Recovery<'a> {
    /// The whole raw output; the model reads it all.
    Full(&'a str),
    /// The dropped tail of `payload`, recovered with `tail -n +offset`.
    Tail { payload: &'a str, offset: usize },
    /// Nothing to recover.
    Nothing,
}

/// What is recovered: the text, and the offset of the dropped tail where only
/// that is.
#[verifier::ext_equal]
pub struct Recovered {
    pub payload: Seq<char>,
    pub offset: Option<nat>,
}

/// What is worth recovering.
pub open spec fn recovered(raw: Seq<char>, exit_code: int, loss: Loss) -> Option<Recovered> {
    match loss {
        Loss::Tail { payload, offset } => Some(Recovered { payload, offset: Some(offset) }),
        Loss::Whole => Some(Recovered { payload: raw, offset: None }),
        Loss::Lossless => if exit_code != 0 {
            Some(Recovered { payload: raw, offset: None })
        } else {
            None
        },
    }
}

/// What is worth recovering. A lossless command that failed still earns a copy
/// of its full output.
pub fn plan_recovery<'a>(raw: &'a str, exit_code: i32, loss: &'a Lossiness) -> (r: Recovery<'a>)
    ensures
        recovered(raw@, exit_code as int, loss@) == match r {
            Recovery::Full(payload) => Some(Recovered { payload: payload@, offset: None }),
            Recovery::Tail { payload, offset } => Some(
                Recovered { payload: payload@, offset: Some(offset as nat) },
            ),
            Recovery::Nothing => None,
        },
        r matches Recovery::Full(payload) ==> payload@ == raw@,
{
    match loss {
        Lossiness::Tail { tee_payload, tail_offset } => Recovery::Tail {
            payload: tee_payload.as_str(),
            offset: *tail_offset,
        },
        Lossiness::Whole => Recovery::Full(raw),
        Lossiness::Lossless => if exit_code != 0 {
            Recovery::Full(raw)
        } else {
            Recovery::Nothing
        },
    }
}

/// A tee file that is worth writing.
#[derive(Debug)]
pub struct TeeFile {
    /// The readable part of the file's name.
    pub slug: String,
    /// What the file holds.
    pub content: String,
    /// The line at which the dropped tail starts, where only that is recovered.
    pub tail_offset: Option<usize>,
}

impl TeeFile {
    /// The file's name, given the epoch second it is written at.
    pub fn file_name(&self, epoch: u64) -> (out: String)
        ensures
            out@ == tee_name(epoch as nat, self.slug@),
    {
        tee_file_name(epoch, &self.slug)
    }

    /// The hint to append to the filtered output once the file is written.
    pub fn hint(&self, display: &str, separator: char) -> (out: String)
        ensures
            out@ == match self.tail_offset {
                Some(offset) => tail_text(display@, separator, offset as nat),
                None => full_text(display@, separator),
            },
    {
        match self.tail_offset {
            Some(offset) => tail_hint(display, separator, offset),
            None => full_hint(display, separator),
        }
    }
}

/// The recovery file to write, if the loss or the exit code warrants one and
/// the payload is not too small to need one.
pub fn recover_hint(raw: &str, command: &str, exit_code: i32, loss: &Lossiness) -> (r: Option<
    TeeFile,
>)
    ensures
        match recovered(raw@, exit_code as int, loss@) {
            None => r is None,
            Some(what) => if byte_len(what.payload) < MIN_TEE_SIZE {
                r is None
            } else {
                r matches Some(file) && file.slug@ == slug_source(command@) && file.content@
                    == capped(what.payload, MAX_FILE_SIZE as nat) && crate::text::opt_nat(
                    file.tail_offset,
                ) == what.offset
            },
        },
{
    let (payload, tail_offset): (&str, Option<usize>) = match plan_recovery(raw, exit_code, loss) {
        Recovery::Nothing => {
            return None;
        },
        Recovery::Full(p) => (p, None),
        Recovery::Tail { payload, offset } => (payload, Some(offset)),
    };
    if size(payload) < MIN_TEE_SIZE {
        return None;
    }
    Some(
        TeeFile {
            slug: command_slug(command),
            content: cap_content(payload, MAX_FILE_SIZE),
            tail_offset,
        },
    )
}

/// What is written is at most `max` bytes and the marker.
pub proof fn capped_is_small(raw: Seq<char>, max: nat)
    ensures
        byte_len(capped(raw, max)) <= max + byte_len(
            "\n\n--- truncated at "@ + decimal(max) + " bytes ---"@,
        ),
{
    let marker = "\n\n--- truncated at "@ + decimal(max) + " bytes ---"@;
    if byte_len(raw) > max {
        fitting_is_the_most(raw, max as int);
        let kept = raw.take(fitting(raw, max as int));
        byte_len_append(kept, marker);
        assert(capped(raw, max) =~= kept + marker);
    }
}

/// A slug keeps every character that can stand in one, in its place, and holds no
/// other; a long one is cut to its first eight with a tag of six behind.
pub proof fn a_slug_is_safe(slug: Seq<char>)
    ensures
        safe(slug).len() == slug.len(),
        forall|i: int| 0 <= i < slug.len() ==> slug_safe(#[trigger] safe(slug)[i]),
        forall|i: int|
            0 <= i < slug.len() && slug_safe(slug[i]) ==> #[trigger] safe(slug)[i] == slug[i],
        slug.len() <= 24 ==> slug_of(slug) == safe(slug),
        slug.len() > 24 ==> slug_of(slug).take(8) == safe(slug).take(8),
{
    if slug.len() > 24 {
        assert(slug_of(slug).take(8) =~= safe(slug).take(8));
    }
}

/// The logs are those of the names that end so, in order.
pub proof fn every_log_is_counted(names: Seq<Seq<char>>)
    ensures
        logs(names) == names.filter(
            |name: Seq<char>| ".log"@.is_suffix_of(name) && name.len() > 4,
        ),
    decreases names.len(),
{
    kept_one_more(names, |name: Seq<char>| ".log"@.is_suffix_of(name) && name.len() > 4);
    if names.len() > 0 {
        every_log_is_counted(names.drop_last());
    }
}

/// Escaping puts a backslash before each character that is special between double
/// quotes, and leaves the others as they are.
pub proof fn escaping_is_character_by_character(path: Seq<char>)
    ensures
        escaped(path) == path.map_values(
            |c: char|
                if c == '\\' || c == '"' || c == '$' || c == '`' {
                    seq!['\\', c]
                } else {
                    seq![c]
                },
        ).flatten(),
    decreases path.len(),
{
    let f = |c: char|
        if c == '\\' || c == '"' || c == '$' || c == '`' {
            seq!['\\', c]
        } else {
            seq![c]
        };
    mapped_one_more(path, f);
    if path.len() > 0 {
        escaping_is_character_by_character(path.drop_last());
        assert(escaped(path) =~= path.drop_last().map_values(f).flatten() + f(path.last()));
    }
}

/// A shown path stands for itself in a shell command: as it is where no character is
/// special there, and else between quotes that read back as it.
pub proof fn a_shell_word_reads_back(display: Seq<char>, separator: char)
    requires
        !"~/"@.is_prefix_of(display),
    ensures
        (forall|i: int| 0 <= i < display.len() ==> !shell_special(#[trigger] display[i]))
            ==> shell_word(display, separator) == display,
        (exists|i: int| 0 <= i < display.len() && shell_special(#[trigger] display[i])) ==> {
            let word = shell_word(display, separator);
            &&& word.len() >= 2
            &&& word[0] == '"'
            &&& word.last() == '"'
            &&& unescaped(word.subrange(1, word.len() - 1)) == display
        },
{
    reveal_strlit("\"");
    escaping_round_trips(display);
    if needs_quoting(display) {
        let word = shell_word(display, separator);
        assert(word.subrange(1, word.len() - 1) =~= escaped(display));
    }
}

/// A path below the home directory that has to be quoted is read below `$HOME`, with
/// every separator a slash.
pub proof fn a_home_path_reads_back(rest: Seq<char>, separator: char)
    requires
        needs_quoting("~/"@ + rest),
    ensures
        ({
            let word = shell_word("~/"@ + rest, separator);
            let inside = word.subrange(7, word.len() - 1);
            &&& word.len() >= 8
            &&& word.take(7) == "\"$HOME/"@
            &&& word.last() == '"'
            &&& unescaped(inside).len() == rest.len()
            &&& forall|i: int|
                0 <= i < rest.len() ==> #[trigger] unescaped(inside)[i] == (if rest[i]
                    == separator {
                    '/'
                } else {
                    rest[i]
                })
        }),
{
    reveal_strlit("\"$HOME/");
    reveal_strlit("\"");
    reveal_strlit("~/");
    let display = "~/"@ + rest;
    assert("~/"@ =~= display.take(2));
    assert(display.skip(2) =~= rest);
    let word = shell_word(display, separator);
    let body = slashed(rest, separator);
    escaping_round_trips(body);
    assert(word.subrange(7, word.len() - 1) =~= escaped(body));
    assert(word.take(7) =~= "\"$HOME/"@);
}

/// What goes are the first of the logs by name, as many as there are over those that may
/// stay; with those that stay they are all the logs there were.
pub proof fn what_goes_and_what_stays_is_all(names: Seq<Seq<char>>, max_files: nat)
    ensures
        logs(names).len() <= max_files ==> stale(names, max_files).len() == 0,
        logs(names).len() > max_files ==> stale(names, max_files).len() == logs(names).len()
            - max_files,
        logs(names).len() > max_files ==> (stale(names, max_files) + sorted(logs(names)).skip(
            logs(names).len() - max_files,
        )).to_multiset() == logs(names).to_multiset(),
{
    crate::order::sorting_orders(logs(names));
    let all = sorted(logs(names));
    if all.len() > max_files {
        assert(stale(names, max_files) + all.skip(all.len() - max_files) =~= all);
    }
}

/// A copy is kept of what was lost, and of all that a failed command printed; of nothing
/// else.
pub proof fn what_is_worth_keeping(raw: Seq<char>, exit_code: int, loss: Loss)
    ensures
        recovered(raw, exit_code, loss) is None <==> loss is Lossless && exit_code == 0,
        loss is Tail ==> recovered(raw, exit_code, loss) == Some(
            Recovered { payload: loss->payload, offset: Some(loss->offset) },
        ),
        loss is Whole ==> recovered(raw, exit_code, loss) == Some(
            Recovered { payload: raw, offset: None },
        ),
        loss is Lossless && exit_code != 0 ==> recovered(raw, exit_code, loss) == Some(
            Recovered { payload: raw, offset: None },
        ),
{
}

} // verus!
