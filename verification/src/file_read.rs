//! Reading a file, whole or a range of its lines.
use vstd::prelude::*;
use crate::paths::{or_empty, path_extension, path_extension_of};
use crate::text::{
    chars_of, count, decimal, lines, lines_of, lowercase, lowercased, same, views,
};
use crate::{said, PermissionLevel, ResultView, ToolResult};

verus! {

pub struct FileReadTool;

impl FileReadTool {
    pub fn name(&self) -> (out: &'static str)
        ensures
            out@ == "Read"@,
    {
        "Read"
    }

    pub fn permission_level(&self) -> (out: PermissionLevel)
        ensures
            out == PermissionLevel::ReadOnly,
    {
        PermissionLevel::ReadOnly
    }

    /// Asks for permission itself, for the path it is about to touch.
    pub fn self_gates(&self) -> (out: bool)
        ensures
            out,
    {
        true
    }
}

/// How many lines a read shows where it names no limit.
pub const DEFAULT_LIMIT: usize = 2000;

/// What lies at a path.
#[derive(Debug, PartialEq, Eq, Clone, Copy, Structural)]
pub enum Found {
    Nothing,
    Directory,
    File,
}

/// Whether an extension, in lower case, is that of an image.
pub open spec fn is_image(ext: Seq<char>) -> bool {
    ext == "png"@ || ext == "jpg"@ || ext == "jpeg"@ || ext == "gif"@ || ext == "bmp"@ || ext
        == "webp"@ || ext == "svg"@ || ext == "ico"@
}

/// What is answered before a file is read as text; none where it is to be read.
pub open spec fn answer_before(path: Seq<char>, found: Found) -> Option<ResultView> {
    let ext = lowercased(or_empty(path_extension(path)));
    match found {
        Found::Nothing => Some(said("File not found: "@ + path, true)),
        Found::Directory => Some(
            said(
                path
                    + " is a directory, not a file. Use Bash with `ls` to list directory contents."@,
                true,
            ),
        ),
        Found::File => if is_image(ext) {
            Some(
                said(
                    "[Image file: "@ + path
                        + ". The image content has been captured for visual analysis.]"@,
                    false,
                ),
            )
        } else if ext == "pdf"@ {
            Some(
                said(
                    "[PDF file: "@ + path
                        + ". Use the `pages` parameter to read specific page ranges.]"@,
                    false,
                ),
            )
        } else {
            None
        },
    }
}

/// Answer what needs no reading: a path with nothing to read, an image, a PDF.
pub fn before_reading(path: &str, found: Found) -> (r: Option<ToolResult>)
    ensures
        match r {
            Some(out) => answer_before(path@, found) == Some(out@),
            None => answer_before(path@, found) is None,
        },
{
    match found {
        Found::Nothing => {
            let mut out = "File not found: ".to_string();
            out.push_str(path);
            return Some(ToolResult::error(out));
        },
        Found::Directory => {
            let mut out = path.to_string();
            out.push_str(
                " is a directory, not a file. Use Bash with `ls` to list directory contents.",
            );
            return Some(ToolResult::error(out));
        },
        Found::File => {},
    }
    let ext = match path_extension_of(path) {
        Some(e) => e,
        None => String::new(),
    };
    let e = lowercase(&ext);
    if same(&e, "png") || same(&e, "jpg") || same(&e, "jpeg") || same(&e, "gif") || same(&e, "bmp")
        || same(&e, "webp") || same(&e, "svg") || same(&e, "ico") {
        let mut out = "[Image file: ".to_string();
        out.push_str(path);
        out.push_str(". The image content has been captured for visual analysis.]");
        return Some(ToolResult::success(out));
    }
    if same(&e, "pdf") {
        let mut out = "[PDF file: ".to_string();
        out.push_str(path);
        out.push_str(". Use the `pages` parameter to read specific page ranges.]");
        return Some(ToolResult::success(out));
    }
    None
}

/// What the user is asked to allow.
pub fn permission_text(path: &str) -> (out: String)
    ensures
        out@ == "Read "@ + path@,
{
    let mut out = "Read ".to_string();
    out.push_str(path);
    out
}

/// What a read that failed is answered with.
pub fn unreadable(path: &str, binary: bool, cause: &str) -> (r: ToolResult)
    ensures
        r@ == said(
            if binary {
                "File appears to be binary and cannot be displayed as text: "@ + path@
            } else {
                "Failed to read file: "@ + cause@
            },
            true,
        ),
{
    if binary {
        let mut out = "File appears to be binary and cannot be displayed as text: ".to_string();
        out.push_str(path);
        return ToolResult::error(out);
    }
    let mut out = "Failed to read file: ".to_string();
    out.push_str(cause);
    ToolResult::error(out)
}

/// The first line a read shows, counted from zero: offsets count from one, and
/// none stands for the beginning.
pub open spec fn start_of(offset: Option<usize>) -> int {
    match offset {
        Some(n) => if n > 0 {
            n - 1
        } else {
            0
        },
        None => 0,
    }
}

/// How many lines a read asks for.
pub open spec fn limit_of(limit: Option<usize>) -> int {
    match limit {
        Some(n) => n as int,
        None => DEFAULT_LIMIT as int,
    }
}

/// The line after the last one a read shows.
pub open spec fn end_of(offset: Option<usize>, limit: Option<usize>, total: int) -> int {
    if start_of(offset) + limit_of(limit) < total {
        start_of(offset) + limit_of(limit)
    } else {
        total
    }
}

/// A number, moved to the right within a width.
pub open spec fn padded(n: nat, width: nat) -> Seq<char> {
    let digits = decimal(n);
    if digits.len() < width {
        Seq::new((width - digits.len()) as nat, |i: int| ' ') + digits
    } else {
        digits
    }
}

/// One line with its number.
pub open spec fn numbered(n: nat, line: Seq<char>, width: nat) -> Seq<char> {
    padded(n, width) + "\t"@ + line + "\n"@
}

/// The lines from `from` up to `to` with their numbers.
pub open spec fn shown(all: Seq<Seq<char>>, from: int, to: int, width: nat) -> Seq<char>
    decreases to - from,
{
    if from < 0 || to <= from || to > all.len() {
        seq![]
    } else {
        shown(all, from, to - 1, width) + numbered(to as nat, all[to - 1], width)
    }
}

/// What a read of a text shows.
pub open spec fn listing(content: Seq<char>, offset: Option<usize>, limit: Option<usize>) -> Seq<
    char,
> {
    let all = lines(content);
    let end = end_of(offset, limit, all.len() as int);
    let body = shown(all, start_of(offset), end, decimal(end as nat).len());
    if end < all.len() {
        body + ("\n... ("@ + decimal((all.len() - end) as nat) + " more lines, "@ + decimal(
            all.len(),
        ) + " total. Use offset/limit to read more.)\n"@)
    } else {
        body
    }
}

/// What a read of a text answers.
pub open spec fn read_answer(
    path: Seq<char>,
    content: Seq<char>,
    offset: Option<usize>,
    limit: Option<usize>,
) -> ResultView {
    let total = lines(content).len();
    if content.len() == 0 {
        said("[File "@ + path + " exists but is empty]"@, false)
    } else if start_of(offset) >= total {
        said(
            "Offset "@ + decimal(
                match offset {
                    Some(n) => n as nat,
                    None => 0,
                },
            ) + " exceeds total line count "@ + decimal(total) + " in "@ + path,
            true,
        )
    } else {
        said(listing(content, offset, limit), false)
    }
}

/// Whether a read shows lines, rather than answering that there are none to show.
pub open spec fn displays(content: Seq<char>, offset: Option<usize>) -> bool {
    content.len() > 0 && start_of(offset) < lines(content).len()
}

/// The lines a read displays, counted from one; none where it shows the whole file.
pub open spec fn displayed_lines(
    content: Seq<char>,
    offset: Option<usize>,
    limit: Option<usize>,
) -> Option<Seq<usize>> {
    let start = start_of(offset);
    let end = end_of(offset, limit, lines(content).len() as int);
    if start == 0 && end == lines(content).len() {
        None
    } else {
        Some(
            Seq::new(
                if end > start {
                    (end - start) as nat
                } else {
                    0
                },
                |i: int| (start + i + 1) as usize,
            ),
        )
    }
}

/// What a read gives.
#[derive(Debug)]
pub struct ReadOutcome {
    pub result: ToolResult,
    /// Where lines were shown: those that were displayed, so an edit can be held
    /// to them, or none where the whole file was.
    pub displayed: Option<Option<Vec<usize>>>,
}

fn pad(n: usize, width: usize) -> (out: String)
    ensures
        out@ == padded(n as nat, width as nat),
{
    let digits = count(n);
    let have: usize = chars_of(&digits).len();
    let mut out = String::new();
    let mut i: usize = have;
    assert(out@ =~= Seq::new(0, |i: int| ' '));
    while i < width
        invariant
            have <= i,
            i <= width || i == have,
            out@ == Seq::new((i - have) as nat, |i: int| ' '),
        decreases width - i,
    {
        out.push(' ');
        i += 1;
        assert(out@ =~= Seq::new((i - have) as nat, |i: int| ' '));
    }
    out.push_str(&digits);
    assert(out@ =~= padded(n as nat, width as nat));
    out
}

/// Show a range of a file's lines, numbered.
pub fn show(path: &str, content: &str, offset: Option<usize>, limit: Option<usize>) -> (r:
    ReadOutcome)
    ensures
        r.result@ == read_answer(path@, content@, offset, limit),
        match r.displayed {
            Some(d) => displays(content@, offset) && match d {
                Some(v) => displayed_lines(content@, offset, limit) == Some(v@),
                None => displayed_lines(content@, offset, limit) is None,
            },
            None => !displays(content@, offset),
        },
{
    if content.is_empty() {
        let mut out = "[File ".to_string();
        out.push_str(path);
        out.push_str(" exists but is empty]");
        return ReadOutcome { result: ToolResult::success(out), displayed: None };
    }
    let all = lines_of(content);
    let ghost model = views(all@);
    let total: usize = all.len();
    let asked: usize = match offset {
        Some(n) => n,
        None => 0,
    };
    let start: usize = if asked > 0 {
        asked - 1
    } else {
        0
    };
    let wanted: usize = match limit {
        Some(n) => n,
        None => DEFAULT_LIMIT,
    };
    if start >= total {
        let mut out = "Offset ".to_string();
        out.push_str(&count(asked));
        out.push_str(" exceeds total line count ");
        out.push_str(&count(total));
        out.push_str(" in ");
        out.push_str(path);
        return ReadOutcome { result: ToolResult::error(out), displayed: None };
    }
    let end: usize = if wanted < total - start {
        start + wanted
    } else {
        total
    };
    let width: usize = chars_of(&count(end)).len();
    let mut out = String::new();
    let mut shown_lines: Vec<usize> = Vec::new();
    let mut i: usize = start;
    while i < end
        invariant
            start <= i <= end,
            end <= total,
            total == all@.len(),
            model == views(all@),
            out@ == shown(model, start as int, i as int, width as nat),
            shown_lines@ == Seq::new((i - start) as nat, |k: int| (start + k + 1) as usize),
        decreases end - i,
    {
        assert(model[i as int] == all@[i as int]@);
        let mut line = pad(i + 1, width);
        line.push_str("\t");
        line.push_str(&all[i]);
        line.push_str("\n");
        out.push_str(&line);
        shown_lines.push(i + 1);
        i += 1;
        assert(shown_lines@ =~= Seq::new((i - start) as nat, |k: int| (start + k + 1) as usize));
    }
    if end < total {
        let mut more = "\n... (".to_string();
        more.push_str(&count(total - end));
        more.push_str(" more lines, ");
        more.push_str(&count(total));
        more.push_str(" total. Use offset/limit to read more.)\n");
        out.push_str(&more);
    }
    let displayed: Option<Vec<usize>> = if start == 0 && end == total {
        None
    } else {
        Some(shown_lines)
    };
    ReadOutcome { result: ToolResult::success(out), displayed: Some(displayed) }
}

/// A read that asks for as many lines as a file has, from its beginning, shows it
/// whole and withholds nothing.
pub proof fn a_large_enough_read_shows_everything(content: Seq<char>, limit: Option<usize>)
    requires
        limit_of(limit) >= lines(content).len(),
    ensures
        displayed_lines(content, None, limit) is None,
        listing(content, None, limit) == shown(
            lines(content),
            0,
            lines(content).len() as int,
            decimal(lines(content).len()).len(),
        ),
{
}

/// The row of a line: its number, moved to the right within a width, a tab, and the
/// line.
pub open spec fn row(all: Seq<Seq<char>>, i: int, width: int) -> Seq<char> {
    let digits = decimal((i + 1) as nat);
    let blanks: nat = if digits.len() < width {
        (width - digits.len()) as nat
    } else {
        0
    };
    Seq::new(blanks, |k: int| ' ') + digits + seq!['\t'] + all[i] + seq!['\n']
}

/// The rows of the lines from `start` up to `end`.
pub open spec fn rows(all: Seq<Seq<char>>, start: int, end: int, width: int) -> Seq<Seq<char>> {
    Seq::new((end - start) as nat, |k: int| row(all, start + k, width))
}

proof fn shown_is_rows(all: Seq<Seq<char>>, from: int, to: int, width: nat)
    requires
        0 <= from <= to <= all.len(),
    ensures
        shown(all, from, to, width) == rows(all, from, to, width as int).flatten(),
    decreases to - from,
{
    reveal_strlit("\t");
    reveal_strlit("\n");
    let now = rows(all, from, to, width as int);
    if from < to {
        let before = rows(all, from, to - 1, width as int);
        shown_is_rows(all, from, to - 1, width);
        assert(now =~= before.push(row(all, to - 1, width as int)));
        before.lemma_flatten_push(row(all, to - 1, width as int));
        assert(numbered(to as nat, all[to - 1], width) =~= row(all, to - 1, width as int));
    } else {
        assert(now =~= seq![]);
        assert(now.flatten() =~= seq![]);
    }
}

/// A read shows the lines from the offset on, as many as the limit asks for and the
/// file has, each once, in order, with its own number and text, and nothing else but
/// how many are left; and the numbers recorded as displayed are the numbers shown.
pub proof fn a_read_shows_its_lines(
    path: Seq<char>,
    content: Seq<char>,
    offset: Option<usize>,
    limit: Option<usize>,
    start: int,
    end: int,
)
    requires
        content.len() > 0,
        lines(content).len() <= usize::MAX,
        start == (match offset {
            Some(n) => if n >= 1 {
                n - 1
            } else {
                0
            },
            None => 0,
        }),
        start < lines(content).len(),
        ({
            let wanted = match limit {
                Some(n) => start + n,
                None => start + 2000,
            };
            end == (if wanted < lines(content).len() {
                wanted
            } else {
                lines(content).len() as int
            })
        }),
    ensures
        read_answer(path, content, offset, limit).content == rows(
            lines(content),
            start,
            end,
            decimal(end as nat).len() as int,
        ).flatten() + (if end < lines(content).len() {
            "\n... ("@ + decimal((lines(content).len() - end) as nat) + " more lines, "@ + decimal(
                lines(content).len(),
            ) + " total. Use offset/limit to read more.)\n"@
        } else {
            seq![]
        }),
        !read_answer(path, content, offset, limit).is_error,
        displays(content, offset),
        match displayed_lines(content, offset, limit) {
            None => start == 0 && end == lines(content).len(),
            Some(numbers) => {
                &&& !(start == 0 && end == lines(content).len())
                &&& numbers.len() == end - start
                &&& forall|k: int| 0 <= k < numbers.len() ==> #[trigger] numbers[k] == start + k + 1
            },
        },
{
    let all = lines(content);
    let width = decimal(end as nat).len();
    shown_is_rows(all, start, end, width);
    if end == all.len() {
        assert(rows(all, start, end, width as int).flatten() + seq![] =~= rows(
            all,
            start,
            end,
            width as int,
        ).flatten());
    }
    match displayed_lines(content, offset, limit) {
        None => {},
        Some(numbers) => {
            assert forall|k: int| 0 <= k < numbers.len() implies #[trigger] numbers[k] == start + k
                + 1 by {}
        },
    }
}

/// An empty file is said to be empty, and an offset behind the last line to be too far.
pub proof fn what_a_read_cannot_show(
    path: Seq<char>,
    content: Seq<char>,
    offset: Option<usize>,
    limit: Option<usize>,
)
    requires
        content.len() == 0 || (offset matches Some(n) && n > lines(content).len()),
    ensures
        !displays(content, offset),
        read_answer(path, content, offset, limit).is_error == (content.len() > 0),
        content.len() == 0 ==> read_answer(path, content, offset, limit).content == "[File "@ + path
            + " exists but is empty]"@,
        content.len() > 0 ==> read_answer(path, content, offset, limit).content == "Offset "@
            + decimal(offset->0 as nat) + " exceeds total line count "@ + decimal(
            lines(content).len(),
        ) + " in "@ + path,
{
}

/// The eight kinds of image, and no other, are images.
pub proof fn what_is_an_image(ext: Seq<char>)
    ensures
        is_image(ext) <==> seq![
            "png"@,
            "jpg"@,
            "jpeg"@,
            "gif"@,
            "bmp"@,
            "webp"@,
            "svg"@,
            "ico"@,
        ].contains(ext),
{
    let all = seq!["png"@, "jpg"@, "jpeg"@, "gif"@, "bmp"@, "webp"@, "svg"@, "ico"@];
    if is_image(ext) {
        assert(ext == all[0] || ext == all[1] || ext == all[2] || ext == all[3] || ext == all[4]
            || ext == all[5] || ext == all[6] || ext == all[7]);
    }
}

} // verus!
