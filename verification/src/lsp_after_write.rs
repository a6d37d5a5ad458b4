//! What the language server has to say about a file that was just written.
//!
//! Without this the model learns that its edit does not compile only if it
//! runs a build or asks for diagnostics itself, and it usually does neither.
//! The problems reach it on the write's own result instead, while it is still
//! working on that file.
use vstd::prelude::*;
use crate::text::{
    count, decimal, join, join_with, kept_one_more, member, opt_view, same, views, views_push,
};

verus! {

/// How many problems one write reports.
pub const REPORT_LIMIT: usize = 10;

/// The LSP `FileChangeType` for a file whose content changed.
pub const FILE_CHANGED: u8 = 2;

/// Whether a write is followed by anything at all.
pub fn wants_report(format: bool, diagnose: bool, files: usize) -> (r: bool)
    ensures
        r == ((format || diagnose) && files > 0),
{
    (format || diagnose) && files > 0
}

/// The files that a server handles, in order.
pub open spec fn handled(files: Seq<Seq<char>>, flags: Seq<bool>) -> Seq<Seq<char>>
    decreases files.len(),
{
    if files.len() == 0 || flags.len() != files.len() {
        seq![]
    } else if flags.last() {
        handled(files.drop_last(), flags.drop_last()).push(files.last())
    } else {
        handled(files.drop_last(), flags.drop_last())
    }
}

/// The files that a server handles, given for each whether one does.
pub fn served(files: &Vec<String>, flags: &Vec<bool>) -> (out: Vec<String>)
    requires
        files@.len() == flags@.len(),
    ensures
        views(out@) == handled(views(files@), flags@),
{
    broadcast use views_push;

    let ghost model = views(files@);
    let mut out: Vec<String> = Vec::new();
    let mut i: usize = 0;
    assert(views(out@) =~= seq![]);
    while i < files.len()
        invariant
            i <= files@.len(),
            files@.len() == flags@.len(),
            model == views(files@),
            views(out@) == handled(model.take(i as int), flags@.take(i as int)),
        decreases files.len() - i,
    {
        assert(model.take(i + 1).drop_last() =~= model.take(i as int));
        assert(flags@.take(i + 1).drop_last() =~= flags@.take(i as int));
        assert(model.take(i + 1).last() == files@[i as int]@);
        if flags[i] {
            out.push(files[i].clone());
        }
        i += 1;
    }
    assert(model.take(model.len() as int) =~= model);
    assert(flags@.take(flags@.len() as int) =~= flags@);
    out
}

/// How many of the files were formatted.
pub open spec fn formatted(outcomes: Seq<Result<bool, String>>) -> nat
    decreases outcomes.len(),
{
    if outcomes.len() == 0 {
        0
    } else {
        formatted(outcomes.drop_last()) + (if outcomes.last() == Ok::<bool, String>(true) {
            1nat
        } else {
            0nat
        })
    }
}

/// What is said of formatting; none where no file was changed by it.
pub open spec fn format_note(outcomes: Seq<Result<bool, String>>) -> Option<Seq<char>> {
    if formatted(outcomes) == 1 && outcomes.len() == 1 {
        Some("Formatted by the language server."@)
    } else if formatted(outcomes) > 0 {
        Some("Formatted "@ + decimal(formatted(outcomes)) + " file(s) by the language server."@)
    } else {
        None
    }
}

/// What is said of formatting, given how it went for each served file. A file
/// that could not be formatted is no failure of the write.
pub fn formatting(outcomes: &Vec<Result<bool, String>>) -> (r: Option<String>)
    ensures
        opt_view(r) == format_note(outcomes@),
{
    let mut n: usize = 0;
    let mut i: usize = 0;
    assert(outcomes@.take(0) =~= seq![]);
    while i < outcomes.len()
        invariant
            i <= outcomes@.len(),
            n <= i,
            n == formatted(outcomes@.take(i as int)),
        decreases outcomes.len() - i,
    {
        assert(outcomes@.take(i + 1).drop_last() =~= outcomes@.take(i as int));
        assert(outcomes@.take(i + 1).last() == outcomes@[i as int]);
        if let Ok(true) = &outcomes[i] {
            n += 1;
        }
        i += 1;
    }
    assert(outcomes@.take(outcomes@.len() as int) =~= outcomes@);
    if n == 1 && outcomes.len() == 1 {
        return Some("Formatted by the language server.".to_string());
    }
    if n > 0 {
        let mut out = "Formatted ".to_string();
        out.push_str(&count(n));
        out.push_str(" file(s) by the language server.");
        return Some(out);
    }
    None
}

/// What a block of problems is about.
#[derive(Debug, PartialEq, Eq, Clone, Copy, Structural)]
pub enum Heading {
    /// A file written earlier, whose server answered after that write had
    /// stopped waiting.
    Earlier,
    /// The files just written.
    New,
}

/// A block's first line.
pub open spec fn heading_line(heading: Heading, total: nat) -> Seq<char> {
    match heading {
        Heading::Earlier => "The language server has since reported "@ + decimal(total)
            + " problem(s) in a file written earlier:"@,
        Heading::New => "The language server reports "@ + decimal(total) + " new problem(s):"@,
    }
}

/// A block of problems under a heading, capped.
pub open spec fn problem_block(heading: Heading, total: nat, shown: Seq<char>) -> Seq<char> {
    let head = seq![heading_line(heading, total), shown];
    join(
        if total > REPORT_LIMIT {
            head.push("... and "@ + decimal((total - REPORT_LIMIT) as nat) + " more"@)
        } else {
            head
        },
        "\n"@,
    )
}

/// How many problems of a block are shown.
pub fn shown_problems(total: usize) -> (n: usize)
    ensures
        n == (if total < REPORT_LIMIT {
            total
        } else {
            REPORT_LIMIT
        }),
{
    if total < REPORT_LIMIT {
        total
    } else {
        REPORT_LIMIT
    }
}

/// One block of problems under a heading, given how many there are and the text
/// of those that are shown.
pub fn format_problems(heading: Heading, total: usize, shown: &str) -> (out: String)
    ensures
        out@ == problem_block(heading, total as nat, shown@),
{
    broadcast use views_push;

    let mut lines: Vec<String> = Vec::new();
    assert(views(lines@) =~= seq![]);
    let head = match heading {
        Heading::Earlier => {
            let mut head = "The language server has since reported ".to_string();
            head.push_str(&count(total));
            head.push_str(" problem(s) in a file written earlier:");
            head
        },
        Heading::New => {
            let mut head = "The language server reports ".to_string();
            head.push_str(&count(total));
            head.push_str(" new problem(s):");
            head
        },
    };
    lines.push(head);
    lines.push(shown.to_string());
    assert(views(lines@) =~= seq![heading_line(heading, total as nat), shown@]);
    let n: usize = shown_problems(total);
    if total > n {
        let mut more = "... and ".to_string();
        more.push_str(&count(total - n));
        more.push_str(" more");
        lines.push(more);
    }
    join_with(&lines, "\n")
}

/// What became of a batch of writes.
#[derive(Debug)]
pub struct BatchOutcome {
    /// How formatting went for each served file; none where it is switched off.
    pub formatting: Option<Vec<Result<bool, String>>>,
    /// The problems in files written earlier: how many, and the text of those shown.
    pub late: (usize, String),
    /// The new problems: how many, and the text of those shown.
    pub fresh: (usize, String),
    /// Whether problems are reported at all.
    pub diagnose: bool,
}

/// The notes of a batch, in order.
pub open spec fn notes(o: BatchOutcome) -> Seq<Seq<char>> {
    let of_format = match o.formatting {
        Some(outcomes) => match format_note(outcomes@) {
            Some(note) => seq![note],
            None => seq![],
        },
        None => seq![],
    };
    let of_late = if o.diagnose && o.late.0 > 0 {
        seq![problem_block(Heading::Earlier, o.late.0 as nat, o.late.1@)]
    } else {
        seq![]
    };
    let of_fresh = if o.diagnose && o.fresh.0 > 0 {
        seq![problem_block(Heading::New, o.fresh.0 as nat, o.fresh.1@)]
    } else {
        seq![]
    };
    of_format + of_late + of_fresh
}

/// The report on a batch of writes, or none where there is nothing to say.
pub fn report_after_batch(o: &BatchOutcome) -> (r: Option<String>)
    ensures
        opt_view(r) == (if notes(*o).len() == 0 {
            None
        } else {
            Some(join(notes(*o), "\n"@))
        }),
{
    broadcast use views_push;

    let mut lines: Vec<String> = Vec::new();
    assert(views(lines@) =~= seq![]);
    if let Some(outcomes) = &o.formatting {
        if let Some(note) = formatting(outcomes) {
            lines.push(note);
        }
    }
    if o.diagnose && o.late.0 > 0 {
        lines.push(format_problems(Heading::Earlier, o.late.0, &o.late.1));
    }
    if o.diagnose && o.fresh.0 > 0 {
        lines.push(format_problems(Heading::New, o.fresh.0, &o.fresh.1));
    }
    assert(views(lines@) =~= notes(*o));
    if lines.len() == 0 {
        None
    } else {
        Some(join_with(&lines, "\n"))
    }
}

/// Nothing is reported of a batch that formatted nothing and found nothing.
pub proof fn silence_when_nothing_happened(o: BatchOutcome)
    requires
        o.formatting matches Some(outcomes) ==> formatted(outcomes@) == 0,
        !o.diagnose || (o.late.0 == 0 && o.fresh.0 == 0),
    ensures
        notes(o).len() == 0,
{
}

// ---------------------------------------------------------------------------
// What a session wrote
// ---------------------------------------------------------------------------

/// The indices of the diagnostics whose file is the one at `uri`.
pub open spec fn of_file(uris: Seq<Seq<char>>, uri: Seq<char>) -> Seq<usize>
    decreases uris.len(),
{
    if uris.len() == 0 {
        seq![]
    } else if uris.last() == uri {
        of_file(uris.drop_last(), uri).push((uris.len() - 1) as usize)
    } else {
        of_file(uris.drop_last(), uri)
    }
}

/// Split one file's diagnostics off a batch's, given the file of each. A server
/// may answer with a different spelling of the path, so both sides are compared
/// in their resolved form.
pub fn diagnostics_of(uris: &Vec<String>, uri: &str) -> (out: Vec<usize>)
    ensures
        out@ == of_file(views(uris@), uri@),
{
    let ghost model = views(uris@);
    let mut out: Vec<usize> = Vec::new();
    let mut i: usize = 0;
    assert(model.take(0) =~= seq![]);
    while i < uris.len()
        invariant
            i <= uris@.len(),
            model == views(uris@),
            out@ == of_file(model.take(i as int), uri@),
        decreases uris.len() - i,
    {
        assert(model.take(i + 1).drop_last() =~= model.take(i as int));
        assert(model.take(i + 1).last() == uris@[i as int]@);
        if same(&uris[i], uri) {
            out.push(i);
        }
        i += 1;
    }
    assert(model.take(model.len() as int) =~= model);
    out
}

/// The files a session wrote, each once.
#[derive(Debug)]
pub struct WriteLog {
    files: Vec<String>,
}

/// The files that are not among the current ones, in order.
pub open spec fn not_among(files: Seq<Seq<char>>, current: Seq<Seq<char>>) -> Seq<Seq<char>>
    decreases files.len(),
{
    if files.len() == 0 {
        seq![]
    } else if current.contains(files.last()) {
        not_among(files.drop_last(), current)
    } else {
        not_among(files.drop_last(), current).push(files.last())
    }
}

impl WriteLog {
    /// The files, in the order of their first write.
    pub closed spec fn written(&self) -> Seq<Seq<char>> {
        views(self.files@)
    }

    /// Nothing written yet.
    pub fn new() -> (log: WriteLog)
        ensures
            log.written() == Seq::<Seq<char>>::empty(),
    {
        let log = WriteLog { files: Vec::new() };
        assert(log.written() =~= seq![]);
        log
    }

    /// Note that a file was written.
    pub fn record(&mut self, file: &str)
        ensures
            final(self).written() == (if old(self).written().contains(file@) {
                old(self).written()
            } else {
                old(self).written().push(file@)
            }),
    {
        broadcast use views_push;

        if !member(&self.files, file) {
            self.files.push(file.to_string());
        }
    }

    /// The files written before whose late answers are worth reading. Those in
    /// the current batch are left out: they are about to be asked properly.
    pub fn earlier(&self, current: &Vec<String>) -> (out: Vec<String>)
        ensures
            views(out@) == not_among(self.written(), views(current@)),
    {
        broadcast use views_push;

        let ghost model = views(self.files@);
        let mut out: Vec<String> = Vec::new();
        let mut i: usize = 0;
        assert(model.take(0) =~= seq![]);
        assert(views(out@) =~= seq![]);
        while i < self.files.len()
            invariant
                i <= self.files@.len(),
                model == views(self.files@),
                views(out@) == not_among(model.take(i as int), views(current@)),
            decreases self.files.len() - i,
        {
            assert(model.take(i + 1).drop_last() =~= model.take(i as int));
            assert(model.take(i + 1).last() == self.files@[i as int]@);
            if !member(current, &self.files[i]) {
                out.push(self.files[i].clone());
            }
            i += 1;
        }
        assert(model.take(model.len() as int) =~= model);
        out
    }
}

/// A recorded file is one that was written, whichever files are recorded after it.
pub proof fn a_recorded_file_stays(before: Seq<Seq<char>>, file: Seq<char>, other: Seq<char>)
    requires
        before.contains(file),
    ensures
        before.push(other).contains(file),
{
    let i = choose|i: int| 0 <= i < before.len() && before[i] == file;
    assert(before.push(other)[i] == file);
}

/// The files sent are those of the batch that a server handles, in order.
pub proof fn the_handled_files_are_sent(files: Seq<Seq<char>>, flags: Seq<bool>)
    requires
        files.len() == flags.len(),
    ensures
        handled(files, flags) == Seq::new(files.len(), |i: int| i).filter(
            |i: int| flags[i],
        ).map_values(|i: int| files[i]),
    decreases files.len(),
{
    let all = Seq::new(files.len(), |i: int| i);
    kept_one_more(all, |i: int| flags[i]);
    if files.len() > 0 {
        let f = files.drop_last();
        let g = flags.drop_last();
        the_handled_files_are_sent(f, g);
        let fewer = Seq::new(f.len(), |i: int| i);
        assert(all.drop_last() =~= fewer);
        same_flags(flags, fewer);
        let kept = fewer.filter(|i: int| flags[i]);
        assert(kept.map_values(|i: int| f[i]) =~= kept.map_values(|i: int| files[i])) by {
            assert forall|k: int| 0 <= k < kept.len() implies f[kept[k]] == files[kept[k]] by {
                fewer.lemma_filter_contains_rev(|i: int| flags[i], kept[k]);
            }
        }
    }
    assert(handled(files, flags) =~= all.filter(|i: int| flags[i]).map_values(
        |i: int| files[i],
    ));
}

proof fn same_flags(flags: Seq<bool>, all: Seq<int>)
    requires
        flags.len() > 0,
        forall|k: int| 0 <= k < all.len() ==> 0 <= #[trigger] all[k] < flags.len() - 1,
    ensures
        all.filter(|i: int| flags.drop_last()[i]) == all.filter(|i: int| flags[i]),
    decreases all.len(),
{
    kept_one_more(all, |i: int| flags.drop_last()[i]);
    kept_one_more(all, |i: int| flags[i]);
    if all.len() > 0 {
        assert(0 <= all[all.len() - 1] < flags.len() - 1);
        same_flags(flags, all.drop_last());
    }
}

/// The files counted as formatted are those whose formatting changed something.
pub proof fn the_formatted_are_counted(outcomes: Seq<Result<bool, String>>)
    ensures
        formatted(outcomes) == outcomes.filter(
            |o: Result<bool, String>| o == Ok::<bool, String>(true),
        ).len(),
    decreases outcomes.len(),
{
    kept_one_more(outcomes, |o: Result<bool, String>| o == Ok::<bool, String>(true));
    if outcomes.len() > 0 {
        the_formatted_are_counted(outcomes.drop_last());
    }
}

/// The diagnostics of a file are those at its place, in order.
pub proof fn the_diagnostics_of_a_file(uris: Seq<Seq<char>>, uri: Seq<char>)
    requires
        uris.len() <= usize::MAX,
    ensures
        of_file(uris, uri).map_values(|i: usize| i as int) == Seq::new(
            uris.len(),
            |i: int| i,
        ).filter(|i: int| uris[i] == uri),
    decreases uris.len(),
{
    let all = Seq::new(uris.len(), |i: int| i);
    kept_one_more(all, |i: int| uris[i] == uri);
    if uris.len() > 0 {
        let front = uris.drop_last();
        the_diagnostics_of_a_file(front, uri);
        let fewer = Seq::new(front.len(), |i: int| i);
        assert(all.drop_last() =~= fewer);
        same_uris(uris, uri, fewer);
    }
    assert(of_file(uris, uri).map_values(|i: usize| i as int) =~= all.filter(
        |i: int| uris[i] == uri,
    ));
}

proof fn same_uris(uris: Seq<Seq<char>>, uri: Seq<char>, all: Seq<int>)
    requires
        uris.len() > 0,
        forall|k: int| 0 <= k < all.len() ==> 0 <= #[trigger] all[k] < uris.len() - 1,
    ensures
        all.filter(|i: int| uris.drop_last()[i] == uri) == all.filter(|i: int| uris[i] == uri),
    decreases all.len(),
{
    kept_one_more(all, |i: int| uris.drop_last()[i] == uri);
    kept_one_more(all, |i: int| uris[i] == uri);
    if all.len() > 0 {
        assert(0 <= all[all.len() - 1] < uris.len() - 1);
        same_uris(uris, uri, all.drop_last());
    }
}

/// The files written before are all that were written but those of the batch, in order.
pub proof fn the_earlier_files_are_the_others(files: Seq<Seq<char>>, current: Seq<Seq<char>>)
    ensures
        not_among(files, current) == files.filter(|file: Seq<char>| !current.contains(file)),
    decreases files.len(),
{
    kept_one_more(files, |file: Seq<char>| !current.contains(file));
    if files.len() > 0 {
        the_earlier_files_are_the_others(files.drop_last(), current);
    }
}

/// Problems are told under how many there are, and how many of them are not shown.
pub proof fn problems_are_counted(heading: Heading, total: nat, shown: Seq<char>)
    ensures
        total <= 10 ==> problem_block(heading, total, shown) == join(
            seq![heading_line(heading, total), shown],
            "\n"@,
        ),
        total > 10 ==> problem_block(heading, total, shown) == join(
            seq![
                heading_line(heading, total),
                shown,
                "... and "@ + decimal((total - 10) as nat) + " more"@,
            ],
            "\n"@,
        ),
{
    assert(seq![heading_line(heading, total), shown].push(
        "... and "@ + decimal((total - 10) as nat) + " more"@,
    ) =~= seq![
        heading_line(heading, total),
        shown,
        "... and "@ + decimal((total - 10) as nat) + " more"@,
    ]);
}

/// A write is answered with what was formatted, then what was reported late, then what
/// is new; nothing of problems where none were asked for.
pub proof fn the_notes_stand_in_order(o: BatchOutcome)
    requires
        o.formatting matches Some(outcomes) && format_note(outcomes@) is Some,
        o.late.0 > 0,
        o.fresh.0 > 0,
    ensures
        o.diagnose ==> notes(o) == seq![
            format_note(o.formatting->0@)->0,
            problem_block(Heading::Earlier, o.late.0 as nat, o.late.1@),
            problem_block(Heading::New, o.fresh.0 as nat, o.fresh.1@),
        ],
        !o.diagnose ==> notes(o) == seq![format_note(o.formatting->0@)->0],
{
    if o.diagnose {
        assert(notes(o) =~= seq![
            format_note(o.formatting->0@)->0,
            problem_block(Heading::Earlier, o.late.0 as nat, o.late.1@),
            problem_block(Heading::New, o.fresh.0 as nat, o.fresh.1@),
        ]);
    } else {
        assert(notes(o) =~= seq![format_note(o.formatting->0@)->0]);
    }
}

} // verus!
