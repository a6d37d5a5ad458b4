//! Shared append-with-dedup logic for the tools that record one short entry.
//!
//! A lesson or a fact goes into a memory file: newest first, no duplicates, a
//! bounded number of entries, credentials masked on the way in. Only the file,
//! the frontmatter, and the noun differ, so the machinery lives here once.
use vstd::prelude::*;
use vstd::string::*;
use crate::text::{
    chars_of, count, decimal, find, find_from, find_is, first_at, has_char, index_of,
    index_of_bounds, index_of_is, is_blank, join, join_cons, join_with, lines, lines_append,
    lines_of, lines_terminated, lowercase, lowercased, mapped_one_more, occurs_at, opt_view, same, split, split_on,
    starts_with, string_of, strip_cr, trim, trim_end, trim_right, trim_start, trim_start_shorter,
    trimmed, views, views_push, white, word_end, word_end_bounds, words, words_of,
};
use crate::{said, ToolResult};

verus! {

/// One recorded entry, as it appears in the file.
#[derive(Debug)]
pub struct Entry {
    /// The whole block, heading included, without a trailing newline.
    pub text: String,
    /// The item line, normalised for comparison.
    pub key: String,
}

/// What an [`Entry`] holds.
#[verifier::ext_equal]
pub struct Record {
    pub text: Seq<char>,
    pub key: Seq<char>,
}

impl View for Entry {
    type V = Record;

    open spec fn view(&self) -> Record {
        Record { text: self.text@, key: self.key@ }
    }
}

/// What the entries hold.
pub open spec fn records(v: Seq<Entry>) -> Seq<Record> {
    Seq::new(v.len(), |i: int| v[i]@)
}

/// The fixed shape of one append-style memory file.
#[derive(Debug)]
pub struct AppendConfig {
    /// File written inside the memory directory, e.g. `learned.md`.
    pub filename: &'static str,
    /// Frontmatter written once, when the file is created.
    pub frontmatter: &'static str,
    /// Characters kept from the item text.
    pub max_item_chars: usize,
    /// Characters kept from the optional context.
    pub max_context_chars: usize,
    /// Entries kept; the oldest drops when a new one arrives.
    pub cap: usize,
    /// Singular noun used in the report and the log ("lesson", "fact").
    pub noun: &'static str,
}

/// A line for comparison: lower-case, white space collapsed.
pub open spec fn normalised(line: Seq<char>) -> Seq<char> {
    join(words(lowercased(line)), " "@)
}

/// Lower-case, whitespace collapsed. Two items that differ only in spacing or
/// capitalisation are the same item.
pub fn normalise(line: &str) -> (out: String)
    ensures
        out@ == normalised(line@),
{
    let all = words_of(&lowercase(line));
    join_with(&all, " ")
}

/// At most `limit` characters of a trimmed text, and a mark where some were cut.
pub open spec fn clipped(text: Seq<char>, limit: nat) -> Seq<char> {
    let t = trimmed(text);
    if t.len() <= limit {
        t
    } else {
        trim_end(t.take(limit as int)) + "…"@
    }
}

/// Keep at most `limit` characters, on a character boundary.
pub fn clip(text: &str, limit: usize) -> (out: String)
    ensures
        out@ == clipped(text@, limit as nat),
{
    let t = trim(text);
    let x = chars_of(&t);
    if x.len() <= limit {
        return t;
    }
    assert(x@.subrange(0, limit as int) =~= x@.take(limit as int));
    let mut out = trim_right(&string_of(&x, 0, limit));
    out.push_str("…");
    out
}

/// Clipped-then-masked text plus the credential classes that fired.
#[derive(Debug)]
pub struct Masked {
    pub text: String,
    pub classes: Vec<String>,
}

// ---------------------------------------------------------------------------
// Reading a file
// ---------------------------------------------------------------------------

/// Whether a line is an entry's heading.
pub open spec fn heading(line: Seq<char>) -> bool {
    "## "@.is_prefix_of(line)
}

/// The blocks of a body: each heading with the lines under it. What comes
/// before the first heading belongs to none.
pub open spec fn sections(all: Seq<Seq<char>>) -> Seq<Seq<Seq<char>>>
    decreases all.len(),
{
    if all.len() == 0 {
        seq![]
    } else {
        let front = sections(all.drop_last());
        if heading(all.last()) {
            front.push(seq![all.last()])
        } else if front.len() > 0 {
            front.drop_last().push(front.last().push(all.last()))
        } else {
            front
        }
    }
}

/// The first line at or after `from` that is not blank, normalised.
pub open spec fn key_from(block: Seq<Seq<char>>, from: int) -> Seq<char>
    decreases block.len() - from,
{
    if from < 0 || from >= block.len() {
        seq![]
    } else if trimmed(block[from]).len() > 0 {
        normalised(block[from])
    } else {
        key_from(block, from + 1)
    }
}

/// The text of an entry: a block's lines without the white space behind them. A
/// heading that stands alone and without a word stays a heading.
pub open spec fn entry_text(block: Seq<Seq<char>>) -> Seq<char> {
    let text = trim_end(join(block, "\n"@));
    if text == "##"@ {
        "## "@
    } else {
        text
    }
}

/// The entry that a block makes up.
pub open spec fn record_of(block: Seq<Seq<char>>) -> Record {
    Record { text: entry_text(block), key: key_from(block, 1) }
}

/// The entries of a body, newest first.
pub open spec fn entries_of(body: Seq<char>) -> Seq<Record> {
    sections(lines(body)).map_values(|block: Seq<Seq<char>>| record_of(block))
}

/// The item is the first non-empty line under the heading.
pub fn build_entry(block: &Vec<String>) -> (entry: Entry)
    ensures
        entry@ == record_of(views(block@)),
{
    let ghost model = views(block@);
    let mut text = trim_right(&join_with(block, "\n"));
    if same(&text, "##") {
        text = "## ".to_string();
    }
    let mut i: usize = 1;
    while i < block.len()
        invariant
            1 <= i,
            model == views(block@),
            text@ == entry_text(model),
            key_from(model, 1) == key_from(model, i as int),
        decreases block.len() - i,
    {
        assert(model[i as int] == block@[i as int]@);
        if !is_blank(&block[i]) {
            return Entry { text, key: normalise(&block[i]) };
        }
        i += 1;
    }
    Entry { text, key: String::new() }
}

/// What the blocks hold.
pub open spec fn block_views(v: Seq<Vec<String>>) -> Seq<Seq<Seq<char>>> {
    Seq::new(v.len(), |i: int| views(v[i]@))
}

/// Part lines into blocks: each `## ` heading with everything under it. Anything
/// before the first heading is dropped: the frontmatter is handled separately, and
/// a stray note between entries has no item to compare.
fn part_blocks(all: &Vec<String>) -> (out: Vec<Vec<String>>)
    ensures
        block_views(out@) == sections(views(all@)),
{
    broadcast use views_push;

    let ghost model = views(all@);
    let mut out: Vec<Vec<String>> = Vec::new();
    let mut open = false;
    let mut current: Vec<String> = Vec::new();
    let mut i: usize = 0;
    assert(model.take(0) =~= seq![]);
    assert(block_views(out@) =~= seq![]);
    while i < all.len()
        invariant
            i <= all@.len(),
            model == views(all@),
            ({
                let blocks = sections(model.take(i as int));
                let done = if open {
                    blocks.drop_last()
                } else {
                    blocks
                };
                &&& open == (blocks.len() > 0)
                &&& open ==> views(current@) == blocks.last()
                &&& block_views(out@) == done
            }),
        decreases all.len() - i,
    {
        let ghost blocks = sections(model.take(i as int));
        let ghost next = model.take(i + 1);
        assert(next.drop_last() =~= model.take(i as int));
        assert(next.last() == all@[i as int]@);
        let ghost before = out@;
        if starts_with(&all[i], "## ") {
            if open {
                let ghost block = views(current@);
                out.push(current);
                assert(block_views(out@) =~= block_views(before).push(block));
                assert(blocks =~= blocks.drop_last().push(blocks.last()));
            }
            current = Vec::new();
            current.push(all[i].clone());
            assert(views(current@) =~= seq![next.last()]);
            open = true;
            assert(sections(next).drop_last() =~= blocks);
        } else if open {
            current.push(all[i].clone());
            assert(sections(next).drop_last() =~= blocks.drop_last());
        }
        i += 1;
    }
    assert(model.take(model.len() as int) =~= model);
    if open {
        let ghost blocks = sections(model);
        let ghost before = out@;
        let ghost block = views(current@);
        out.push(current);
        assert(block_views(out@) =~= block_views(before).push(block));
        assert(blocks =~= blocks.drop_last().push(blocks.last()));
    }
    out
}

/// Build the entry of each block.
fn build_entries(blocks: &Vec<Vec<String>>) -> (out: Vec<Entry>)
    ensures
        records(out@) == block_views(blocks@).map_values(
            |block: Seq<Seq<char>>| record_of(block),
        ),
{
    let ghost model = block_views(blocks@).map_values(|block: Seq<Seq<char>>| record_of(block));
    let mut out: Vec<Entry> = Vec::new();
    let mut i: usize = 0;
    assert(records(out@) =~= model.take(0));
    while i < blocks.len()
        invariant
            i <= blocks@.len(),
            model == block_views(blocks@).map_values(|block: Seq<Seq<char>>| record_of(block)),
            records(out@) == model.take(i as int),
        decreases blocks.len() - i,
    {
        let ghost before = out@;
        let entry = build_entry(&blocks[i]);
        out.push(entry);
        assert(block_views(blocks@)[i as int] == views(blocks@[i as int]@));
        assert(records(out@) =~= records(before).push(entry@));
        assert(model.take(i + 1) =~= model.take(i as int).push(model[i as int]));
        i += 1;
    }
    assert(model.take(model.len() as int) =~= model);
    out
}

/// Split a file body into entries, newest first.
///
/// An entry is a `## ` heading and everything under it.
pub fn parse_entries(body: &str) -> (out: Vec<Entry>)
    ensures
        records(out@) == entries_of(body@),
{
    let blocks = part_blocks(&lines_of(body));
    build_entries(&blocks)
}

/// Where the body of a text starts: behind the frontmatter block, where it has one.
pub open spec fn body_start(text: Seq<char>) -> int {
    if "---\n"@.is_prefix_of(text) {
        match find(text.skip(4), "\n---\n"@) {
            Some(end) => 4 + end + 5,
            None => 0,
        }
    } else {
        0
    }
}

/// Everything after the frontmatter block, or the whole text when there is none.
pub open spec fn body_of(text: Seq<char>) -> Seq<char> {
    text.skip(body_start(text))
}

/// Everything after the frontmatter block, or the whole text when there is none.
pub fn body_after_frontmatter(text: &str) -> (out: &str)
    ensures
        out@ == body_of(text@),
{
    assert(text@.skip(0) =~= text@);
    if !starts_with(text, "---\n") {
        return text;
    }
    proof {
        reveal_strlit("---\n");
        reveal_strlit("\n---\n");
    }
    let x = chars_of(text);
    let mark = chars_of("\n---\n");
    let total: usize = x.len();
    match find_from(&x, &mark, 4) {
        Some(at) => {
            let ghost rest = text@.skip(4);
            proof {
                assert(rest.subrange(at - 4, at - 4 + 5) =~= text@.subrange(at as int, at + 5));
                assert forall|j: int| 0 <= j < at - 4 implies !occurs_at(rest, "\n---\n"@, j) by {
                    assert(!occurs_at(text@, "\n---\n"@, j + 4));
                    if occurs_at(rest, "\n---\n"@, j) {
                        assert(rest.subrange(j, j + 5) =~= text@.subrange(j + 4, j + 4 + 5));
                    }
                }
                assert(first_at(rest, "\n---\n"@, at - 4));
                find_is(rest, "\n---\n"@, at - 4);
                assert(text@.subrange(at + 5, x@.len() as int) =~= text@.skip(at + 5));
            }
            assert(at + 5 <= total);
            text.substring_char(at + 5, total)
        },
        None => {
            proof {
                let rest = text@.skip(4);
                assert forall|j: int| !occurs_at(rest, "\n---\n"@, j) by {
                    assert(j >= 0 ==> !occurs_at(text@, "\n---\n"@, j + 4));
                    if occurs_at(rest, "\n---\n"@, j) {
                        assert(rest.subrange(j, j + 5) =~= text@.subrange(j + 4, j + 4 + 5));
                    }
                }
            }
            text
        },
    }
}

// ---------------------------------------------------------------------------
// Writing a file
// ---------------------------------------------------------------------------

/// The entries of a file, one after the other, each on lines of its own.
pub open spec fn rendered_entries(all: Seq<Record>) -> Seq<char>
    decreases all.len(),
{
    if all.len() == 0 {
        seq![]
    } else {
        rendered_entries(all.drop_last()) + "\n"@ + all.last().text + "\n"@
    }
}

/// Render the file from its entries.
pub fn render(frontmatter: &str, entries: &Vec<Entry>) -> (out: String)
    ensures
        out@ == frontmatter@ + rendered_entries(records(entries@)),
{
    let ghost model = records(entries@);
    let mut body = String::new();
    let mut i: usize = 0;
    assert(model.take(0) =~= seq![]);
    while i < entries.len()
        invariant
            i <= entries@.len(),
            model == records(entries@),
            body@ == rendered_entries(model.take(i as int)),
        decreases entries.len() - i,
    {
        let ghost next = model.take(i + 1);
        assert(next.drop_last() =~= model.take(i as int));
        assert(next.last() == entries@[i as int]@);
        body.push_str("\n");
        body.push_str(&entries[i].text);
        body.push_str("\n");
        i += 1;
    }
    assert(model.take(model.len() as int) =~= model);
    let mut out = frontmatter.to_string();
    out.push_str(&body);
    out
}

/// A text on one line: itself, unless it runs over several, and then its words.
pub open spec fn one_line(text: Seq<char>) -> Seq<char> {
    if text.contains('\n') {
        join(words(text), " "@)
    } else {
        text
    }
}

/// The heading of an entry recorded on `date`. A topic of several lines stands on
/// one: what follows the heading's line is the item.
pub open spec fn heading_text(date: Seq<char>, topic: Option<Seq<char>>) -> Seq<char> {
    match topic {
        Some(t) => if trimmed(t).len() > 0 {
            "## "@ + date + " — "@ + one_line(trimmed(t))
        } else {
            "## "@ + date
        },
        None => "## "@ + date,
    }
}

/// A dated heading, with the topic appended when one is given.
pub fn build_heading(date: &str, topic: Option<&str>) -> (out: String)
    ensures
        out@ == heading_text(
            date@,
            match topic {
                Some(t) => Some(t@),
                None => None,
            },
        ),
{
    let mut out = "## ".to_string();
    out.push_str(date);
    if let Some(t) = topic {
        let t = trim(t);
        if !t.as_str().is_empty() {
            out.push_str(" — ");
            if has_char(&t, '\n') {
                let line = join_with(&words_of(&t), " ");
                out.push_str(&line);
            } else {
                out.push_str(&t);
            }
        }
    }
    out
}

/// The classes of `more` that are not yet among `known`, added to them.
pub open spec fn union(known: Seq<Seq<char>>, more: Seq<Seq<char>>) -> Seq<Seq<char>>
    decreases more.len(),
{
    if more.len() == 0 {
        known
    } else {
        let before = union(known, more.drop_last());
        if before.contains(more.last()) {
            before
        } else {
            before.push(more.last())
        }
    }
}

/// The classes masked in the context.
pub open spec fn context_classes(context: Option<Masked>) -> Seq<Seq<char>> {
    match context {
        Some(c) => views(c.classes@),
        None => seq![],
    }
}

/// The union of credential classes masked across the item and its context.
pub fn all_classes(item: &Masked, context: &Option<Masked>) -> (out: Vec<String>)
    ensures
        views(out@) == union(views(item.classes@), context_classes(*context)),
{
    broadcast use views_push;

    let mut out = crate::text::copy_strings(&item.classes);
    if let Some(c) = context {
        let ghost more = views(c.classes@);
        let ghost known = views(item.classes@);
        let mut i: usize = 0;
        assert(more.take(0) =~= seq![]);
        while i < c.classes.len()
            invariant
                i <= c.classes@.len(),
                more == views(c.classes@),
                views(out@) == union(known, more.take(i as int)),
            decreases c.classes.len() - i,
        {
            let ghost next = more.take(i + 1);
            assert(next.drop_last() =~= more.take(i as int));
            assert(next.last() == c.classes@[i as int]@);
            if !crate::text::member(&out, &c.classes[i]) {
                out.push(c.classes[i].clone());
            }
            i += 1;
        }
        assert(more.take(more.len() as int) =~= more);
    }
    out
}

/// The context line of an entry, or nothing.
pub open spec fn context_line(context: Option<Masked>) -> Seq<char> {
    match context {
        Some(c) => if c.text@.len() > 0 {
            "\n\n_context: "@ + c.text@ + "_"@
        } else {
            seq![]
        },
        None => seq![],
    }
}

/// The block of an entry: heading, item text, and the context line.
pub open spec fn block_text(
    date: Seq<char>,
    topic: Option<Seq<char>>,
    item: Seq<char>,
    context: Option<Masked>,
) -> Seq<char> {
    heading_text(date, topic) + "\n"@ + item + context_line(context)
}

/// The block for one entry: heading, item text, and the context line.
pub fn build_block(date: &str, topic: Option<&str>, item: &str, context: &Option<Masked>) -> (out:
    String)
    ensures
        out@ == block_text(
            date@,
            match topic {
                Some(t) => Some(t@),
                None => None,
            },
            item@,
            *context,
        ),
{
    let mut out = build_heading(date, topic);
    out.push_str("\n");
    out.push_str(item);
    let mut line = String::new();
    if let Some(c) = context {
        if !c.text.as_str().is_empty() {
            line = "\n\n_context: ".to_string();
            line.push_str(&c.text);
            line.push_str("_");
        }
    }
    out.push_str(&line);
    out
}

/// The note about masked credentials, or nothing.
pub open spec fn masking_note(masked: Seq<Seq<char>>) -> Seq<char> {
    if masked.len() > 0 {
        " A credential was masked before writing ("@ + join(masked, ", "@) + ")."@
    } else {
        seq![]
    }
}

pub fn render_masking_note(masked: &Vec<String>) -> (out: String)
    ensures
        out@ == masking_note(views(masked@)),
{
    if masked.len() > 0 {
        let mut out = " A credential was masked before writing (".to_string();
        let list = join_with(masked, ", ");
        out.push_str(&list);
        out.push_str(").");
        out
    } else {
        String::new()
    }
}

/// The note about entries that fell to the cap, or nothing.
pub open spec fn cap_note(dropped: nat, cap: nat, noun: Seq<char>) -> Seq<char> {
    if dropped > 0 {
        " The "@ + decimal(dropped) + " oldest dropped at the "@ + decimal(cap) + "-"@ + noun
            + " cap."@
    } else {
        seq![]
    }
}

/// The report on a write.
pub open spec fn report_text(
    path: Seq<char>,
    kept: nat,
    dropped: nat,
    masked: Seq<Seq<char>>,
    cap: nat,
    noun: Seq<char>,
) -> Seq<char> {
    "Recorded in "@ + path + " ("@ + decimal(kept) + " "@ + noun + "s)."@ + cap_note(
        dropped,
        cap,
        noun,
    ) + masking_note(masked)
}

/// The success line, plus the cap and masking notes when they apply.
pub fn build_report(
    path: &str,
    kept: usize,
    dropped: usize,
    masked: &Vec<String>,
    cfg: &AppendConfig,
) -> (out: String)
    ensures
        out@ == report_text(
            path@,
            kept as nat,
            dropped as nat,
            views(masked@),
            cfg.cap as nat,
            cfg.noun@,
        ),
{
    let mut out = "Recorded in ".to_string();
    out.push_str(path);
    out.push_str(" (");
    let n = count(kept);
    out.push_str(&n);
    out.push_str(" ");
    out.push_str(cfg.noun);
    out.push_str("s).");
    let mut note = String::new();
    if dropped > 0 {
        note = " The ".to_string();
        let d = count(dropped);
        note.push_str(&d);
        note.push_str(" oldest dropped at the ");
        let cap = count(cfg.cap);
        note.push_str(&cap);
        note.push_str("-");
        note.push_str(cfg.noun);
        note.push_str(" cap.");
    }
    out.push_str(&note);
    let masking = render_masking_note(masked);
    out.push_str(&masking);
    out
}

// ---------------------------------------------------------------------------
// Appending
// ---------------------------------------------------------------------------

/// Whether an entry with this key is among the entries.
pub open spec fn holds(all: Seq<Record>, key: Seq<char>) -> bool {
    exists|i: int| 0 <= i < all.len() && (#[trigger] all[i]).key == key
}

/// Whether the item of a block can end before the line at `n`: nothing but blank
/// lines follows, or a blank one and the context line.
pub open spec fn item_ends(block: Seq<Seq<char>>, n: int) -> bool {
    ||| forall|k: int| n <= k < block.len() ==> trimmed(#[trigger] block[k]).len() == 0
    ||| n + 1 < block.len() && block[n].len() == 0 && "_context: "@.is_prefix_of(block[n + 1])
}

/// Whether a block holds, under its heading, a whole item that normalises to this.
pub open spec fn records_item(block: Seq<Seq<char>>, key: Seq<char>) -> bool {
    exists|n: int| #[trigger] records_until(block, key, n)
}

/// Whether the lines of a block from its heading to the line at `n` are a whole item
/// that normalises to this.
pub open spec fn records_until(block: Seq<Seq<char>>, key: Seq<char>, n: int) -> bool {
    1 <= n <= block.len() && item_ends(block, n) && normalised(
        join(block.subrange(1, n), "\n"@),
    ) == key
}

/// Whether an item is recorded in a body: as the item line of an entry, or as all
/// that stands under an entry's heading but the context.
pub open spec fn recorded(body: Seq<char>, item: Seq<char>) -> bool {
    ||| holds(entries_of(body), normalised(item))
    ||| exists|i: int|
        0 <= i < sections(split(body, '\n')).len() && records_item(
            #[trigger] sections(split(body, '\n'))[i],
            normalised(item),
        )
}

fn ends_item(block: &Vec<String>, n: usize) -> (r: bool)
    ensures
        r == item_ends(views(block@), n as int),
{
    let ghost model = views(block@);
    let context_next: bool = n < block.len() && n + 1 < block.len() && block[n].as_str().is_empty()
        && starts_with(&block[n + 1], "_context: ");
    assert(n < model.len() ==> model[n as int] == block@[n as int]@);
    assert(n + 1 < model.len() ==> model[n + 1] == block@[n + 1]@);
    assert(context_next == (n + 1 < model.len() && model[n as int].len() == 0
        && "_context: "@.is_prefix_of(model[n + 1])));
    if context_next {
        return true;
    }
    let mut k: usize = n;
    while k < block.len()
        invariant
            n <= k,
            model == views(block@),
            !(n + 1 < model.len() && model[n as int].len() == 0 && "_context: "@.is_prefix_of(
                model[n + 1],
            )),
            forall|j: int| n <= j < k && j < model.len() ==> trimmed(#[trigger] model[j]).len() == 0,
        decreases block.len() - k,
    {
        assert(model[k as int] == block@[k as int]@);
        if !is_blank(&block[k]) {
            assert(trimmed(model[k as int]).len() != 0);
            return false;
        }
        k += 1;
    }
    true
}

fn block_records(block: &Vec<String>, key: &str) -> (r: bool)
    ensures
        r == records_item(views(block@), key@),
{
    broadcast use views_push;

    let ghost model = views(block@);
    let mut item: Vec<String> = Vec::new();
    let mut n: usize = 1;
    assert(views(item@) =~= seq![]);
    assert(model.len() >= 1 ==> model.subrange(1, 1) =~= seq![]);
    while n <= block.len()
        invariant
            1 <= n <= block@.len() + 1,
            model == views(block@),
            n <= block@.len() ==> views(item@) == model.subrange(1, n as int),
            forall|m: int| m < n ==> !#[trigger] records_until(model, key@, m),
        decreases block.len() + 1 - n,
    {
        if ends_item(block, n) {
            let whole = normalise(&join_with(&item, "\n"));
            if same(&whole, key) {
                assert(records_until(model, key@, n as int));
                return true;
            }
        }
        if n == block.len() {
            return false;
        }
        assert(model[n as int] == block@[n as int]@);
        item.push(block[n].clone());
        assert(model.subrange(1, n + 1) =~= model.subrange(1, n as int).push(model[n as int]));
        n += 1;
    }
    false
}

/// Whether an item is recorded in a body, whose entries are given beside it.
fn is_recorded(entries: &Vec<Entry>, body: &str, item: &str) -> (r: bool)
    requires
        records(entries@) == entries_of(body@),
    ensures
        r == recorded(body@, item@),
{
    let ghost model = records(entries@);
    let key = normalise(item);
    let mut i: usize = 0;
    while i < entries.len()
        invariant
            i <= entries@.len(),
            model == records(entries@),
            model == entries_of(body@),
            key@ == normalised(item@),
            forall|j: int| 0 <= j < i ==> (#[trigger] model[j]).key != key@,
        decreases entries.len() - i,
    {
        assert(model[i as int] == entries@[i as int]@);
        if same(&entries[i].key, &key) {
            return true;
        }
        i += 1;
    }
    let blocks = part_blocks(&split_on(body, '\n'));
    let ghost parts = sections(split(body@, '\n'));
    let mut k: usize = 0;
    while k < blocks.len()
        invariant
            k <= blocks@.len(),
            parts == block_views(blocks@),
            parts == sections(split(body@, '\n')),
            key@ == normalised(item@),
            forall|j: int| 0 <= j < k ==> !records_item(#[trigger] parts[j], key@),
        decreases blocks.len() - k,
    {
        assert(parts[k as int] == views(blocks@[k as int]@));
        if block_records(&blocks[k], &key) {
            return true;
        }
        k += 1;
    }
    false
}

/// The entries with a new one in front, and at most `cap` of them.
pub open spec fn with_entry(all: Seq<Record>, new: Record, cap: nat) -> Seq<Record> {
    let grown = seq![new] + all;
    if grown.len() > cap {
        grown.take(cap as int)
    } else {
        grown
    }
}

/// What an append comes to.
#[derive(Debug)]
pub struct Appended {
    /// The file's new content; none where nothing is to be written.
    pub content: Option<String>,
    /// What the tool reports once that is done.
    pub report: String,
}

/// The entry that an item makes.
pub open spec fn new_entry(
    date: Seq<char>,
    topic: Option<Seq<char>>,
    item: Seq<char>,
    context: Option<Masked>,
) -> Record {
    Record { text: block_text(date, topic, item, context), key: normalised(item) }
}

/// The content of a file after an item was appended to it; none where it is
/// recorded there already.
pub open spec fn content_after(
    existing: Seq<char>,
    frontmatter: Seq<char>,
    cap: nat,
    new: Record,
    item: Seq<char>,
) -> Option<Seq<char>> {
    if recorded(body_of(existing), item) {
        None
    } else {
        Some(
            frontmatter + rendered_entries(with_entry(entries_of(body_of(existing)), new, cap)),
        )
    }
}

/// The report on an item that is recorded already.
pub open spec fn duplicate_text(path: Seq<char>, noun: Seq<char>) -> Seq<char> {
    "Already recorded, so nothing was written. "@ + path + " holds this "@ + noun + "."@
}

/// Append one item to a memory file: dedup and cap what the file holds.
///
/// `existing` is the file's content, empty where there is no file; `item` and
/// `context` have been clipped and masked; `date` is today's.
pub fn append_entry(
    existing: &str,
    path: &str,
    cfg: &AppendConfig,
    item: &Masked,
    date: &str,
    topic: Option<&str>,
    context: &Option<Masked>,
) -> (r: Appended)
    ensures
        ({
            let old_entries = entries_of(body_of(existing@));
            let new = new_entry(
                date@,
                match topic {
                    Some(t) => Some(t@),
                    None => None,
                },
                item.text@,
                *context,
            );
            let entries = with_entry(old_entries, new, cfg.cap as nat);
            &&& opt_view(r.content) == content_after(
                existing@,
                cfg.frontmatter@,
                cfg.cap as nat,
                new,
                item.text@,
            )
            &&& r.report@ == (if recorded(body_of(existing@), item.text@) {
                duplicate_text(path@, cfg.noun@)
            } else {
                report_text(
                    path@,
                    entries.len(),
                    (old_entries.len() + 1 - entries.len()) as nat,
                    union(views(item.classes@), context_classes(*context)),
                    cfg.cap as nat,
                    cfg.noun@,
                )
            })
        }),
{
    let body = body_after_frontmatter(existing);
    let mut entries = parse_entries(body);
    let ghost old_entries = records(entries@);
    assert(old_entries == entries_of(body@));
    if is_recorded(&entries, body, &item.text) {
        let mut report = "Already recorded, so nothing was written. ".to_string();
        report.push_str(path);
        report.push_str(" holds this ");
        report.push_str(cfg.noun);
        report.push_str(".");
        return Appended { content: None, report };
    }
    let key = normalise(&item.text);
    let new = Entry { text: build_block(date, topic, &item.text, context), key };
    let ghost added = new@;
    entries.insert(0, new);
    assert(records(entries@) =~= seq![added] + old_entries);
    let total: usize = entries.len();
    let dropped: usize = if total > cfg.cap { total - cfg.cap } else { 0 };
    if total > cfg.cap {
        entries.truncate(cfg.cap);
    }
    assert(records(entries@) =~= with_entry(old_entries, added, cfg.cap as nat));
    let content = render(cfg.frontmatter, &entries);
    let masked = all_classes(item, context);
    let report = build_report(path, entries.len(), dropped, &masked, cfg);
    Appended { content: Some(content), report }
}

/// What an append is answered with whose directory cannot be made.
pub fn uncreated(memory_dir: &str, cause: &str) -> (r: ToolResult)
    ensures
        r@ == said("Failed to create "@ + memory_dir@ + ": "@ + cause@, true),
{
    let mut out = "Failed to create ".to_string();
    out.push_str(memory_dir);
    out.push_str(": ");
    out.push_str(cause);
    ToolResult::error(out)
}

/// What an append is answered with whose file cannot be written.
pub fn unwritten(path: &str, cause: &str) -> (r: ToolResult)
    ensures
        r@ == said("Failed to write "@ + path@ + ": "@ + cause@, true),
{
    let mut out = "Failed to write ".to_string();
    out.push_str(path);
    out.push_str(": ");
    out.push_str(cause);
    ToolResult::error(out)
}

// ---------------------------------------------------------------------------
// What holds of the files
// ---------------------------------------------------------------------------

/// Whether an entry reads back as it was written: its first line is a heading
/// and no other is, it ends in no white space, no carriage return ends one of
/// its lines, and its key is that of its item line.
pub open spec fn sound(e: Record) -> bool {
    let all = lines(e.text);
    &&& all.len() > 0
    &&& heading(all[0])
    &&& forall|i: int| 0 < i < all.len() ==> !heading(#[trigger] all[i])
    &&& join(all, "\n"@) == e.text
    &&& trim_end(e.text) == e.text
    &&& e.key == key_from(all, 1)
}

/// Whether a text is one whole frontmatter block.
pub open spec fn is_frontmatter(text: Seq<char>) -> bool {
    "---\n"@.is_prefix_of(text) && find(text.skip(4), "\n---\n"@) == Some(text.len() - 9)
}

proof fn body_behind_frontmatter(front: Seq<char>, body: Seq<char>)
    requires
        is_frontmatter(front),
    ensures
        body_of(front + body) == body,
{
    reveal_strlit("---\n");
    reveal_strlit("\n---\n");
    let mark = "\n---\n"@;
    let text = front + body;
    let end = front.len() - 9;
    let head = front.skip(4);
    let rest = text.skip(4);
    assert("---\n"@ =~= text.subrange(0, 4)) by {
        assert(front.subrange(0, 4) =~= text.subrange(0, 4));
    }
    contains_first(head, mark);
    assert(first_at(head, mark, end));
    assert(rest.subrange(end, end + 5) =~= head.subrange(end, end + 5));
    assert forall|j: int| 0 <= j < end implies !occurs_at(rest, mark, j) by {
        assert(!occurs_at(head, mark, j));
        assert(rest.subrange(j, j + 5) =~= head.subrange(j, j + 5));
    }
    find_is(rest, mark, end);
    assert(text.skip(front.len() as int) =~= body);
}

/// Where a text is found, it has a first place.
proof fn contains_first(s: Seq<char>, sub: Seq<char>)
    requires
        crate::text::contains(s, sub),
    ensures
        exists|at: int| first_at(s, sub, at),
{
    let at = choose|at: int| occurs_at(s, sub, at);
    first_before(s, sub, at);
}

proof fn first_before(s: Seq<char>, sub: Seq<char>, at: int)
    requires
        occurs_at(s, sub, at),
    ensures
        exists|k: int| first_at(s, sub, k),
    decreases at,
{
    if exists|j: int| 0 <= j < at && occurs_at(s, sub, j) {
        let j = choose|j: int| 0 <= j < at && occurs_at(s, sub, j);
        first_before(s, sub, j);
    } else {
        assert(first_at(s, sub, at));
    }
}

/// The lines of the rendered entries.
spec fn rendered_lines(all: Seq<Record>) -> Seq<Seq<char>>
    decreases all.len(),
{
    if all.len() == 0 {
        seq![]
    } else {
        rendered_lines(all.drop_last()) + seq![Seq::<char>::empty()] + lines(all.last().text)
    }
}

proof fn trim_end_last(s: Seq<char>)
    requires
        s.len() > 0,
        trim_end(s) == s,
    ensures
        !white(s.last()),
{
    if white(s.last()) {
        trim_end_shorter(s.drop_last());
    }
}

proof fn trim_end_shorter(s: Seq<char>)
    ensures
        trim_end(s).len() <= s.len(),
    decreases s.len(),
{
    if s.len() > 0 && white(s.last()) {
        trim_end_shorter(s.drop_last());
    }
}

proof fn lines_of_rendered(all: Seq<Record>)
    requires
        forall|i: int| 0 <= i < all.len() ==> sound(#[trigger] all[i]),
    ensures
        lines(rendered_entries(all)) == rendered_lines(all),
        all.len() > 0 ==> rendered_entries(all).len() > 0 && rendered_entries(all).last() == '\n',
    decreases all.len(),
{
    reveal_strlit("\n");
    assert("\n"@ =~= seq!['\n']);
    if all.len() > 0 {
        let front = all.drop_last();
        let t = all.last().text;
        assert forall|i: int| 0 <= i < front.len() implies sound(#[trigger] front[i]) by {
            assert(front[i] == all[i]);
        }
        lines_of_rendered(front);
        assert(sound(all[all.len() - 1]));
        assert(t.len() > 0);
        trim_end_last(t);
        lines_terminated(t);
        let before = rendered_entries(front);
        let feed = seq!['\n'];
        lines_append(before, t + feed);
        assert(rendered_entries(all) =~= before + feed + (t + feed));
        // The blank line between two entries.
        let blank = Seq::<char>::empty();
        assert(lines(blank) =~= seq![]);
        crate::text::index_of_is(feed, '\n', 0);
        assert(feed.take(0) =~= blank);
        assert(feed.skip(1) =~= blank);
        assert(lines(feed) =~= seq![blank]);
        if front.len() == 0 {
            assert(before =~= blank);
            assert(before + feed =~= feed);
            assert(lines(before + feed) =~= rendered_lines(front) + seq![blank]);
        } else {
            let cut = before.drop_last();
            assert(before =~= cut + feed);
            lines_append(cut, feed);
            assert(lines(before + feed) =~= rendered_lines(front) + seq![blank]);
        }
        assert(rendered_entries(all).last() == '\n');
    } else {
        assert(lines(rendered_entries(all)) =~= rendered_lines(all));
    }
}

proof fn sections_of_blank(all: Seq<Seq<char>>)
    ensures
        sections(all.push(Seq::<char>::empty())) == (if sections(all).len() > 0 {
            sections(all).drop_last().push(sections(all).last().push(Seq::<char>::empty()))
        } else {
            sections(all)
        }),
{
    reveal_strlit("## ");
    let blank = Seq::<char>::empty();
    assert(all.push(blank).drop_last() =~= all);
    assert(!heading(blank));
}

proof fn sections_of_block(before: Seq<Seq<char>>, block: Seq<Seq<char>>, n: int)
    requires
        0 < n <= block.len(),
        heading(block[0]),
        forall|i: int| 0 < i < block.len() ==> !heading(#[trigger] block[i]),
    ensures
        sections(before + block.take(n)) == sections(before).push(block.take(n)),
    decreases n,
{
    let all = before + block.take(n);
    assert(all.drop_last() =~= before + block.take(n - 1));
    assert(all.last() == block[n - 1]);
    if n == 1 {
        assert(before + block.take(0) =~= before);
        assert(block.take(1) =~= seq![block[0]]);
    } else {
        sections_of_block(before, block, n - 1);
        assert(block.take(n - 1).push(block[n - 1]) =~= block.take(n));
        let front = sections(all.drop_last());
        assert(front.drop_last() =~= sections(before));
        assert(sections(all) =~= sections(before).push(block.take(n)));
    }
}

/// The blocks the rendered entries fall into: each entry's lines, with a blank
/// one after all but the last.
spec fn rendered_blocks(all: Seq<Record>) -> Seq<Seq<Seq<char>>> {
    Seq::new(
        all.len(),
        |i: int|
            if i < all.len() - 1 {
                lines(all[i].text).push(Seq::<char>::empty())
            } else {
                lines(all[i].text)
            },
    )
}

proof fn sections_of_rendered(all: Seq<Record>)
    requires
        forall|i: int| 0 <= i < all.len() ==> sound(#[trigger] all[i]),
    ensures
        sections(rendered_lines(all)) == rendered_blocks(all),
    decreases all.len(),
{
    if all.len() == 0 {
        assert(sections(rendered_lines(all)) =~= rendered_blocks(all));
    } else {
        let front = all.drop_last();
        assert forall|i: int| 0 <= i < front.len() implies sound(#[trigger] front[i]) by {
            assert(front[i] == all[i]);
        }
        sections_of_rendered(front);
        let blank = Seq::<char>::empty();
        let before = rendered_lines(front);
        let block = lines(all.last().text);
        assert(sound(all[all.len() - 1]));
        sections_of_blank(before);
        assert(before + seq![blank] =~= before.push(blank));
        sections_of_block(before.push(blank), block, block.len() as int);
        assert(block.take(block.len() as int) =~= block);
        let parts = sections(before.push(blank));
        assert(sections(rendered_lines(all)) == parts.push(block));
        assert(parts.push(block) =~= rendered_blocks(all)) by {
            assert forall|i: int| 0 <= i < all.len() implies parts.push(block)[i]
                == rendered_blocks(all)[i] by {
                if i < front.len() {
                    assert(front[i] == all[i]);
                    assert(parts[i] == rendered_blocks(all)[i]);
                }
            }
        }
    }
}

proof fn key_of_padded(block: Seq<Seq<char>>, from: int)
    requires
        0 <= from <= block.len(),
    ensures
        key_from(block.push(Seq::<char>::empty()), from) == key_from(block, from),
    decreases block.len() - from,
{
    let padded = block.push(Seq::<char>::empty());
    if from < block.len() {
        assert(padded[from] == block[from]);
        key_of_padded(block, from + 1);
    } else {
        assert(trimmed(padded[from]) =~= seq![]);
        assert(key_from(padded, from + 1) =~= seq![]);
    }
}

proof fn record_of_padded(e: Record)
    requires
        sound(e),
    ensures
        record_of(lines(e.text)) == e,
        record_of(lines(e.text).push(Seq::<char>::empty())) == e,
{
    reveal_strlit("\n");
    let block = lines(e.text);
    let padded = block.push(Seq::<char>::empty());
    key_of_padded(block, 1);
    assert(e.text != "##"@) by {
        reveal_strlit("##");
        reveal_strlit("## ");
        if e.text == "##"@ {
            crate::text::index_of_is(e.text, '\n', 2);
            assert(block =~= seq![e.text]);
        }
    }
    assert(padded.drop_last() =~= block);
    assert(join(padded, "\n"@) =~= e.text.push('\n'));
    assert(e.text.push('\n').drop_last() =~= e.text);
    assert(trim_end(e.text.push('\n')) == trim_end(e.text));
}

/// The file survives a round trip: what is rendered reads back as the same
/// entries, or a second call would lose what the first one wrote.
pub proof fn rendered_entries_read_back(front: Seq<char>, all: Seq<Record>)
    requires
        is_frontmatter(front),
        forall|i: int| 0 <= i < all.len() ==> sound(#[trigger] all[i]),
    ensures
        entries_of(body_of(front + rendered_entries(all))) == all,
{
    body_behind_frontmatter(front, rendered_entries(all));
    lines_of_rendered(all);
    sections_of_rendered(all);
    let read = entries_of(rendered_entries(all));
    assert(read =~= all) by {
        assert forall|i: int| 0 <= i < all.len() implies read[i] == all[i] by {
            assert(sound(all[i]));
            record_of_padded(all[i]);
        }
    }
}

// A recorded item, found again.

proof fn word_is_solid(s: Seq<char>)
    ensures
        forall|k: int| 0 <= k < word_end(s) ==> !white(#[trigger] s[k]),
    decreases s.len(),
{
    if s.len() > 0 && !white(s[0]) {
        word_is_solid(s.skip(1));
        word_end_bounds(s.skip(1));
        assert forall|k: int| 0 <= k < word_end(s) implies !white(#[trigger] s[k]) by {
            if k > 0 {
                assert(s[k] == s.skip(1)[k - 1]);
            }
        }
    }
}

proof fn words_are_solid(s: Seq<char>)
    ensures
        forall|i: int, k: int|
            0 <= i < words(s).len() && 0 <= k < words(s)[i].len() ==> !white(
                #[trigger] words(s)[i][k],
            ),
    decreases s.len(),
{
    let t = trim_start(s);
    let n = word_end(t);
    trim_start_shorter(s);
    word_end_bounds(t);
    if t.len() > 0 {
        word_is_solid(t);
        words_are_solid(t.skip(n));
        assert forall|i: int, k: int|
            0 <= i < words(s).len() && 0 <= k < words(s)[i].len() implies !white(
            #[trigger] words(s)[i][k],
        ) by {
            if i == 0 {
                assert(words(s)[0] == t.take(n));
                assert(t.take(n)[k] == t[k]);
            } else {
                assert(words(s)[i] == words(t.skip(n))[i - 1]);
                assert(!white(words(t.skip(n))[i - 1][k]));
            }
        }
    }
}

proof fn joined_has_no_feed(parts: Seq<Seq<char>>)
    requires
        forall|i: int, k: int|
            0 <= i < parts.len() && 0 <= k < parts[i].len() ==> !white(#[trigger] parts[i][k]),
    ensures
        !join(parts, " "@).contains('\n'),
    decreases parts.len(),
{
    reveal_strlit(" ");
    let text = join(parts, " "@);
    if parts.len() > 0 {
        let last = parts.last();
        assert(!last.contains('\n')) by {
            assert forall|k: int| 0 <= k < last.len() implies last[k] != '\n' by {
                assert(!white(parts[parts.len() - 1][k]));
            }
        }
        if parts.len() > 1 {
            let front = parts.drop_last();
            assert forall|i: int, k: int|
                0 <= i < front.len() && 0 <= k < front[i].len() implies !white(
                #[trigger] front[i][k],
            ) by {
                assert(!white(parts[i][k]));
            }
            joined_has_no_feed(front);
            let head = join(front, " "@);
            assert forall|k: int| 0 <= k < text.len() implies text[k] != '\n' by {
                if k < head.len() {
                    assert(head.contains(head[k]));
                } else if k > head.len() {
                    assert(last.contains(last[k - head.len() - 1]));
                }
            }
        }
    }
}

/// A heading stands on one line, whatever the topic.
proof fn heading_is_one_line(date: Seq<char>, topic: Option<Seq<char>>)
    requires
        !date.contains('\n'),
    ensures
        !heading_text(date, topic).contains('\n'),
        heading(heading_text(date, topic)),
{
    reveal_strlit("## ");
    reveal_strlit(" — ");
    let text = heading_text(date, topic);
    assert(text.subrange(0, 3) =~= "## "@);
    let tail = match topic {
        Some(t) => if trimmed(t).len() > 0 {
            one_line(trimmed(t))
        } else {
            seq![]
        },
        None => seq![],
    };
    assert(!tail.contains('\n')) by {
        if let Some(t) = topic {
            words_are_solid(trimmed(t));
            joined_has_no_feed(words(trimmed(t)));
        }
    }
    assert forall|k: int| 0 <= k < text.len() implies text[k] != '\n' by {
        if 3 <= k < 3 + date.len() {
            assert(date.contains(date[k - 3]));
        } else if k >= 6 + date.len() {
            assert(tail.contains(tail[k - 6 - date.len()]));
        }
    }
}

/// The line that a feed ends.
proof fn split_cons(first: Seq<char>, rest: Seq<char>)
    requires
        !first.contains('\n'),
    ensures
        split(first + seq!['\n'] + rest, '\n') == seq![first] + split(rest, '\n'),
{
    let whole = first + seq!['\n'] + rest;
    let n = first.len() as int;
    assert forall|j: int| 0 <= j < n implies whole[j] != '\n' by {
        assert(first.contains(first[j]));
        assert(whole[j] == first[j]);
    }
    index_of_is(whole, '\n', n);
    assert(whole.take(n) =~= first);
    assert(whole.skip(n + 1) =~= rest);
}

/// A feed parts the lines before it from those behind it.
proof fn split_append(a: Seq<char>, b: Seq<char>)
    ensures
        split(a + seq!['\n'] + b, '\n') == split(a, '\n') + split(b, '\n'),
    decreases a.len(),
{
    let feed = seq!['\n'];
    let n = index_of(a, '\n');
    index_of_bounds(a, '\n');
    if n < a.len() {
        let first = a.take(n);
        let rest = a.skip(n + 1);
        assert(!first.contains('\n'));
        split_append(rest, b);
        assert(a + feed + b =~= first + feed + (rest + feed + b));
        split_cons(first, rest + feed + b);
        assert(split(a + feed + b, '\n') =~= split(a, '\n') + split(b, '\n'));
    } else {
        assert(!a.contains('\n'));
        split_cons(a, b);
    }
}

/// The lines of a text, joined, are the text.
proof fn split_rejoins(s: Seq<char>)
    ensures
        split(s, '\n').len() > 0,
        join(split(s, '\n'), "\n"@) == s,
    decreases s.len(),
{
    reveal_strlit("\n");
    let n = index_of(s, '\n');
    index_of_bounds(s, '\n');
    if n < s.len() {
        let rest = s.skip(n + 1);
        split_rejoins(rest);
        join_cons(split(s, '\n'), "\n"@);
        assert(split(s, '\n').skip(1) =~= split(rest, '\n'));
        assert(join(split(s, '\n'), "\n"@) =~= s);
    } else {
        assert(split(s, '\n') =~= seq![s]);
    }
}

/// How a text starts, its first line starts.
proof fn first_line_starts(s: Seq<char>, p: Seq<char>)
    requires
        p.is_prefix_of(s),
        !p.contains('\n'),
    ensures
        split(s, '\n').len() > 0,
        p.is_prefix_of(split(s, '\n')[0]),
{
    let n = index_of(s, '\n');
    index_of_bounds(s, '\n');
    assert(s.subrange(0, p.len() as int) == p);
    assert(n >= p.len()) by {
        if n < p.len() {
            assert(s[n] == p[n]);
            assert(p.contains(p[n]));
        }
    }
    if n < s.len() {
        assert(s.take(n).subrange(0, p.len() as int) =~= p);
    } else {
        assert(split(s, '\n') =~= seq![s]);
    }
}

/// The first heading at or after `from`, or the number of lines.
spec fn heading_from(all: Seq<Seq<char>>, from: int) -> int
    decreases all.len() - from,
{
    if from < 0 || from >= all.len() || heading(all[from]) {
        from
    } else {
        heading_from(all, from + 1)
    }
}

proof fn heading_from_bounds(all: Seq<Seq<char>>, from: int)
    requires
        0 <= from <= all.len(),
    ensures
        from <= heading_from(all, from) <= all.len(),
        heading_from(all, from) < all.len() ==> heading(all[heading_from(all, from)]),
        forall|k: int| from <= k < heading_from(all, from) ==> !heading(#[trigger] all[k]),
    decreases all.len() - from,
{
    if from < all.len() && !heading(all[from]) {
        heading_from_bounds(all, from + 1);
    }
}

/// The first block goes from the first heading to the next.
proof fn first_section(all: Seq<Seq<char>>, end: int, n: int)
    requires
        2 <= n <= all.len(),
        2 <= end <= all.len(),
        !heading(all[0]),
        heading(all[1]),
        forall|k: int| 2 <= k < end ==> !heading(#[trigger] all[k]),
        end < all.len() ==> heading(all[end]),
    ensures
        sections(all.take(n)).len() > 0,
        n <= end ==> sections(all.take(n)).len() == 1,
        sections(all.take(n))[0] == all.subrange(1, if n <= end {
            n
        } else {
            end
        }),
    decreases n,
{
    let now = all.take(n);
    assert(now.drop_last() =~= all.take(n - 1));
    assert(now.last() == all[n - 1]);
    if n == 2 {
        assert(all.take(1).drop_last() =~= seq![]);
        assert(sections(all.take(1)) =~= seq![]) by {
            assert(all.take(1).last() == all[0]);
            assert(sections(all.take(1).drop_last()) =~= seq![]);
        }
        assert(sections(now) =~= seq![seq![all[1]]]);
        assert(all.subrange(1, 2) =~= seq![all[1]]);
    } else {
        first_section(all, end, n - 1);
        let front = sections(all.take(n - 1));
        if n <= end {
            assert(!heading(all[n - 1]));
            assert(sections(now) =~= seq![front[0].push(all[n - 1])]);
            assert(all.subrange(1, n - 1).push(all[n - 1]) =~= all.subrange(1, n));
        } else if n - 1 == end {
            assert(heading(all[end]));
        } else {
            assert(front.len() > 0);
            if !heading(all[n - 1]) && front.len() == 1 {
                first_section_is_closed(all, end, n - 1);
            }
        }
    }
}

/// Behind the second heading there are two blocks or more.
proof fn first_section_is_closed(all: Seq<Seq<char>>, end: int, n: int)
    requires
        2 <= end < n <= all.len(),
        heading(all[1]),
        heading(all[end]),
    ensures
        sections(all.take(n)).len() > 1,
    decreases n,
{
    let now = all.take(n);
    assert(now.drop_last() =~= all.take(n - 1));
    assert(now.last() == all[n - 1]);
    if n == end + 1 {
        a_heading_opens(all, n - 1);
    } else {
        first_section_is_closed(all, end, n - 1);
    }
}

/// Behind a heading there is a block.
proof fn a_heading_opens(all: Seq<Seq<char>>, n: int)
    requires
        2 <= n <= all.len(),
        heading(all[1]),
    ensures
        sections(all.take(n)).len() > 0,
    decreases n,
{
    let now = all.take(n);
    assert(now.drop_last() =~= all.take(n - 1));
    assert(now.last() == all[n - 1]);
    if n > 2 {
        a_heading_opens(all, n - 1);
    }
}

/// Every block starts with its heading.
proof fn sections_start_with_headings(all: Seq<Seq<char>>)
    ensures
        forall|i: int|
            0 <= i < sections(all).len() ==> (#[trigger] sections(all)[i]).len() > 0 && heading(
                sections(all)[i][0],
            ),
    decreases all.len(),
{
    if all.len() > 0 {
        sections_start_with_headings(all.drop_last());
        let front = sections(all.drop_last());
        assert forall|i: int| 0 <= i < sections(all).len() implies (#[trigger] sections(
            all,
        )[i]).len() > 0 && heading(sections(all)[i][0]) by {
            if i < front.len() {
                assert(front[i].len() > 0 && heading(front[i][0]));
                if i == front.len() - 1 && !heading(all.last()) {
                    assert(sections(all)[i] == front.last().push(all.last()));
                    assert(sections(all)[i][0] == front[i][0]);
                } else {
                    assert(sections(all)[i] == front[i]);
                }
            } else {
                assert(sections(all)[i] == seq![all.last()]);
            }
        }
    }
}

proof fn trim_end_prefix(s: Seq<char>, n: int)
    requires
        0 < n <= s.len(),
        !white(s[n - 1]),
    ensures
        n <= trim_end(s).len() <= s.len(),
        trim_end(s) == s.take(trim_end(s).len() as int),
        !white(trim_end(s).last()),
    decreases s.len(),
{
    if white(s.last()) {
        trim_end_prefix(s.drop_last(), n);
        assert(s.drop_last().take(trim_end(s).len() as int) =~= s.take(trim_end(s).len() as int));
    } else {
        assert(s.take(s.len() as int) =~= s);
    }
}

proof fn join_starts(parts: Seq<Seq<char>>, sep: Seq<char>)
    requires
        parts.len() > 0,
    ensures
        parts[0].is_prefix_of(join(parts, sep)),
    decreases parts.len(),
{
    if parts.len() > 1 {
        join_starts(parts.drop_last(), sep);
        let front = join(parts.drop_last(), sep);
        let k = parts[0].len() as int;
        assert(join(parts, sep).subrange(0, k) =~= front.subrange(0, k));
    } else {
        assert(parts[0].subrange(0, parts[0].len() as int) =~= parts[0]);
    }
}

/// What is read as an entry is written with its heading.
proof fn an_entry_keeps_its_heading(block: Seq<Seq<char>>)
    requires
        block.len() > 0,
        heading(block[0]),
    ensures
        "## "@.is_prefix_of(entry_text(block)),
{
    reveal_strlit("## ");
    reveal_strlit("##");
    let whole = join(block, "\n"@);
    join_starts(block, "\n"@);
    let k = block[0].len() as int;
    assert(whole.subrange(0, k) == block[0]);
    assert(block[0].subrange(0, 3) == "## "@);
    assert(whole[0] == block[0][0] && block[0][0] == "## "@[0]);
    assert(whole[1] == block[0][1] && block[0][1] == "## "@[1]);
    assert(whole[2] == block[0][2] && block[0][2] == "## "@[2]);
    trim_end_prefix(whole, 2);
    let text = trim_end(whole);
    if text.len() == 2 {
        assert(text =~= "##"@);
        assert("## "@.subrange(0, 3) =~= "## "@);
    } else {
        assert(text.subrange(0, 3) =~= "## "@);
    }
}

proof fn rendered_first(first: Record, rest: Seq<Record>)
    ensures
        rendered_entries(seq![first] + rest) == "\n"@ + first.text + "\n"@ + rendered_entries(rest),
    decreases rest.len(),
{
    let all = seq![first] + rest;
    if rest.len() == 0 {
        assert(all.drop_last() =~= seq![]);
        assert(all.last() == first);
        assert(rendered_entries(all.drop_last()) =~= seq![]);
        assert(rendered_entries(all) =~= "\n"@ + first.text + "\n"@ + rendered_entries(rest));
    } else {
        assert(all.drop_last() =~= seq![first] + rest.drop_last());
        assert(all.last() == rest.last());
        rendered_first(first, rest.drop_last());
        assert(rendered_entries(all) =~= "\n"@ + first.text + "\n"@ + rendered_entries(rest));
    }
}

/// The lines of an entry that was written, and of what follows: a blank line, the
/// heading, the item, and either the context or what comes next.
proof fn lines_of_written(
    date: Seq<char>,
    topic: Option<Seq<char>>,
    item: Seq<char>,
    context: Option<Masked>,
    rest: Seq<char>,
) -> (after: Seq<Seq<char>>)
    requires
        !date.contains('\n'),
    ensures
        split(
            "\n"@ + block_text(date, topic, item, context) + "\n"@ + rest,
            '\n',
        ) == seq![
            Seq::<char>::empty(),
            heading_text(date, topic),
        ] + split(item, '\n') + after,
        context_line(context).len() == 0 ==> after == split(rest, '\n'),
        context_line(context).len() > 0 ==> after.len() >= 2 && after[0].len() == 0
            && "_context: "@.is_prefix_of(after[1]),
{
    reveal_strlit("\n");
    reveal_strlit("\n\n_context: ");
    reveal_strlit("_context: ");
    reveal_strlit("_");
    let feed = seq!['\n'];
    let none = Seq::<char>::empty();
    assert("\n"@ =~= feed);
    heading_is_one_line(date, topic);
    let head = heading_text(date, topic);
    let tail = context_line(context);
    let under = item + tail + feed + rest;
    let text = "\n"@ + block_text(date, topic, item, context) + "\n"@ + rest;
    assert(text =~= none + feed + (head + feed + under));
    assert(!none.contains('\n'));
    split_cons(none, head + feed + under);
    split_cons(head, under);
    if tail.len() == 0 {
        assert(under =~= item + feed + rest);
        split_append(item, rest);
        assert(split(text, '\n') =~= seq![none, head] + split(item, '\n') + split(rest, '\n'));
        split(rest, '\n')
    } else {
        let words_in = context->Some_0.text@;
        let from = "_context: "@ + words_in + "_"@ + feed + rest;
        assert(under =~= item + feed + (none + feed + from));
        split_append(item, none + feed + from);
        split_cons(none, from);
        let p = "_context: "@;
        assert(from.subrange(0, p.len() as int) =~= p);
        first_line_starts(from, p);
        let after = seq![none] + split(from, '\n');
        assert(split(text, '\n') =~= seq![none, head] + split(item, '\n') + after);
        after
    }
}

/// An item that was written first in a body is found there.
proof fn a_written_item_is_found(
    date: Seq<char>,
    topic: Option<Seq<char>>,
    item: Seq<char>,
    context: Option<Masked>,
    rest: Seq<Record>,
)
    requires
        !date.contains('\n'),
        forall|i: int| 0 <= i < split(item, '\n').len() ==> !heading(#[trigger] split(item, '\n')[i]),
        forall|i: int| 0 <= i < rest.len() ==> "## "@.is_prefix_of((#[trigger] rest[i]).text),
    ensures
        ({
            let body = rendered_entries(seq![new_entry(date, topic, item, context)] + rest);
            &&& sections(split(body, '\n')).len() > 0
            &&& records_item(sections(split(body, '\n'))[0], normalised(item))
        }),
{
    reveal_strlit("\n");
    reveal_strlit("## ");
    reveal_strlit("_context: ");
    let feed = seq!['\n'];
    assert("\n"@ =~= feed);
    let none = Seq::<char>::empty();
    let new = new_entry(date, topic, item, context);
    let behind = rendered_entries(rest);
    rendered_first(new, rest);
    let body = rendered_entries(seq![new] + rest);
    let after = lines_of_written(date, topic, item, context, behind);
    let head = heading_text(date, topic);
    let own = split(item, '\n');
    let all = seq![none, head] + own + after;
    assert(split(body, '\n') == all);
    heading_is_one_line(date, topic);
    assert(!heading(none));
    split_rejoins(item);
    let k = 2 + own.len() as int;
    assert forall|j: int| 2 <= j < k implies !heading(#[trigger] all[j]) by {
        assert(all[j] == own[j - 2]);
    }
    heading_from_bounds(all, k);
    let end = heading_from(all, k);
    assert forall|j: int| 2 <= j < end implies !heading(#[trigger] all[j]) by {}
    first_section(all, end, all.len() as int);
    assert(all.take(all.len() as int) =~= all);
    let block = sections(all)[0];
    assert(block == all.subrange(1, end));
    assert(block.subrange(1, k - 1) =~= own);
    if context_line(context).len() == 0 {
        if rest.len() > 0 {
            let first = rest[0];
            assert(rest =~= seq![first] + rest.skip(1));
            rendered_first(first, rest.skip(1));
            let text = first.text + feed + rendered_entries(rest.skip(1));
            assert(behind =~= none + feed + text);
            split_cons(none, text);
                    assert(first.text.subrange(0, 3) == "## "@);
            assert(text.subrange(0, 3) =~= first.text.subrange(0, 3));
            first_line_starts(text, "## "@);
            assert(after =~= seq![none] + split(text, '\n'));
            assert(all[k] == none);
            assert(all[k + 1] == split(text, '\n')[0]);
            assert(heading(all[k + 1]));
            assert(end == k + 1) by {
                assert(heading_from(all, k) == heading_from(all, k + 1));
            }
            assert(trimmed(none) =~= none);
        } else {
            assert(behind =~= none);
            assert(after =~= seq![none]);
            assert(trimmed(none) =~= none);
        }
        assert(item_ends(block, k - 1)) by {
            assert forall|j: int| k - 1 <= j < block.len() implies trimmed(
                #[trigger] block[j],
            ).len() == 0 by {
                assert(block[j] == all[j + 1]);
            }
        }
    } else {
        assert(all[k] == after[0]);
        assert(all[k + 1] == after[1]);
        assert(!heading(after[0]));
        assert(!heading(after[1])) by {
            assert(after[1].subrange(0, 10) == "_context: "@);
            assert(after[1][0] == "_context: "@[0]);
            if heading(after[1]) {
                assert(after[1].subrange(0, 3) == "## "@);
                assert(after[1][0] == "## "@[0]);
            }
        }
        assert(end >= k + 2) by {
            assert(heading_from(all, k) == heading_from(all, k + 1));
            assert(heading_from(all, k + 1) == heading_from(all, k + 2));
            heading_from_bounds(all, k + 2);
        }
        assert(block[k - 1] == all[k]);
        assert(block[k] == all[k + 1]);
        assert(item_ends(block, k - 1));
    }
    assert(records_until(block, normalised(item), k - 1));
}

/// An item that was just recorded, or found recorded, is not recorded again: the
/// file is left as it is, whatever the topics, the contexts and the days. It may
/// come back in other capitals and other spacing. An item with a heading among its
/// lines is read back as two.
pub proof fn a_recorded_item_is_a_duplicate(
    existing: Seq<char>,
    front: Seq<char>,
    cap: nat,
    item: Seq<char>,
    date: Seq<char>,
    topic: Option<Seq<char>>,
    context: Option<Masked>,
    again: Seq<char>,
    later: Record,
)
    requires
        is_frontmatter(front),
        cap > 0,
        !date.contains('\n'),
        forall|i: int|
            0 <= i < split(item, '\n').len() ==> !heading(#[trigger] split(item, '\n')[i]),
        normalised(again) == normalised(item),
    ensures
        ({
            let new = new_entry(date, topic, item, context);
            match content_after(existing, front, cap, new, item) {
                Some(content) => recorded(body_of(content), again) && content_after(
                    content,
                    front,
                    cap,
                    later,
                    again,
                ) is None,
                None => recorded(body_of(existing), again) && content_after(
                    existing,
                    front,
                    cap,
                    later,
                    again,
                ) is None,
            }
        }),
{
    let new = new_entry(date, topic, item, context);
    let all = entries_of(body_of(existing));
    let after = with_entry(all, new, cap);
    let rest = after.skip(1);
    assert(after =~= seq![new] + rest);
    sections_start_with_headings(lines(body_of(existing)));
    assert forall|i: int| 0 <= i < rest.len() implies "## "@.is_prefix_of(
        (#[trigger] rest[i]).text,
    ) by {
        let block = sections(lines(body_of(existing)))[i];
        assert(rest[i] == all[i]);
        assert(all[i] == record_of(block));
        an_entry_keeps_its_heading(block);
    }
    a_written_item_is_found(date, topic, item, context, rest);
    body_behind_frontmatter(front, rendered_entries(after));
}

/// Whether a text stands as one entry of a file and reads back as it was written: it
/// starts with the one heading that it has, ends in no white space and holds no
/// carriage return.
pub open spec fn stands_alone(text: Seq<char>) -> bool {
    &&& heading(text)
    &&& trim_end(text) == text
    &&& !text.contains('\r')
    &&& forall|i: int|
        0 < i < split(text, '\n').len() ==> !heading(#[trigger] split(text, '\n')[i])
}

/// Whether an entry's text holds the whole item.
pub open spec fn text_holds(text: Seq<char>, item: Seq<char>) -> bool {
    stands_alone(text) && records_item(
        split(text, '\n').push(Seq::<char>::empty()),
        normalised(item),
    )
}

/// Whether every entry starts with a heading.
pub open spec fn headed(all: Seq<Record>) -> bool {
    forall|i: int| 0 <= i < all.len() ==> heading((#[trigger] all[i]).text)
}

/// Whether one of the entries holds the whole item.
pub open spec fn keeps(all: Seq<Record>, item: Seq<char>) -> bool {
    exists|i: int| 0 <= i < all.len() && text_holds((#[trigger] all[i]).text, item)
}

proof fn rendered_append(a: Seq<Record>, b: Seq<Record>)
    ensures
        rendered_entries(a + b) == rendered_entries(a) + rendered_entries(b),
    decreases b.len(),
{
    if b.len() == 0 {
        assert(a + b =~= a);
        assert(rendered_entries(a) + rendered_entries(b) =~= rendered_entries(a));
    } else {
        rendered_append(a, b.drop_last());
        assert((a + b).drop_last() =~= a + b.drop_last());
        assert((a + b).last() == b.last());
        assert(rendered_entries(a + b) =~= rendered_entries(a) + rendered_entries(b));
    }
}

/// A block between other lines is one of the blocks.
proof fn a_block_is_found(
    before: Seq<Seq<char>>,
    block: Seq<Seq<char>>,
    after: Seq<Seq<char>>,
)
    requires
        block.len() > 0,
        heading(block[0]),
        forall|i: int| 0 < i < block.len() ==> !heading(#[trigger] block[i]),
        after.len() > 0 ==> heading(after[0]),
    ensures
        sections(before + block + after).len() > sections(before).len(),
        after.len() > 0 ==> sections(before + block + after).len() > sections(before).len() + 1,
        sections(before + block + after)[sections(before).len() as int] == block,
    decreases after.len(),
{
    let at = sections(before).len() as int;
    sections_of_block(before, block, block.len() as int);
    assert(block.take(block.len() as int) =~= block);
    if after.len() == 0 {
        assert(before + block + after =~= before + block);
    } else {
        let whole = before + block + after;
        let earlier = after.drop_last();
        assert(whole.drop_last() =~= before + block + earlier);
        assert(whole.last() == after.last());
        if earlier.len() > 0 {
            assert(earlier[0] == after[0]);
        } else {
            assert(after.last() == after[0]);
        }
        a_block_is_found(before, block, earlier);
    }
}

/// What follows an entry in a file: nothing, or a blank line and a heading.
proof fn what_follows(rest: Seq<Record>) -> (next: Seq<char>)
    requires
        headed(rest),
    ensures
        rest.len() == 0 ==> rendered_entries(rest) == Seq::<char>::empty(),
        rest.len() > 0 ==> rendered_entries(rest) == seq!['\n'] + next && heading(next),
{
    reveal_strlit("\n");
    reveal_strlit("## ");
    assert("\n"@ =~= seq!['\n']);
    if rest.len() == 0 {
        Seq::empty()
    } else {
        let first = rest[0];
        assert(rest =~= seq![first] + rest.skip(1));
        rendered_first(first, rest.skip(1));
        let next = first.text + seq!['\n'] + rendered_entries(rest.skip(1));
        assert(rendered_entries(rest) =~= seq!['\n'] + next);
        assert(first.text.subrange(0, 3) == "## "@);
        assert(next.subrange(0, 3) =~= first.text.subrange(0, 3));
        next
    }
}

proof fn no_return_no_strip(s: Seq<char>)
    requires
        !s.contains('\r'),
        s.len() > 0,
        s.last() != '\n',
    ensures
        lines(s) == split(s, '\n'),
    decreases s.len(),
{
    let n = index_of(s, '\n');
    index_of_bounds(s, '\n');
    if n < s.len() {
        let first = s.take(n);
        let rest = s.skip(n + 1);
        assert(rest.len() > 0);
        assert(rest.last() == s.last());
        assert(!rest.contains('\r')) by {
            if rest.contains('\r') {
                let k = choose|k: int| 0 <= k < rest.len() && rest[k] == '\r';
                assert(s[k + n + 1] == '\r');
            }
        }
        assert(strip_cr(first) == first) by {
            if first.len() > 0 {
                assert(first.last() == s[n - 1]);
                assert(s.contains(s[n - 1]));
            }
        }
        no_return_no_strip(rest);
        assert(lines(s) =~= split(s, '\n'));
    } else {
        assert(lines(s) =~= seq![s]);
        assert(split(s, '\n') =~= seq![s]);
    }
}

/// The parts of a file around one of its entries.
proof fn around(all: Seq<Record>, i: int)
    requires
        0 <= i < all.len(),
    ensures
        rendered_entries(all) == rendered_entries(all.take(i)) + seq!['\n'] + (all[i].text
            + seq!['\n'] + rendered_entries(all.skip(i + 1))),
{
    reveal_strlit("\n");
    assert("\n"@ =~= seq!['\n']);
    let rest = all.skip(i + 1);
    assert(all =~= all.take(i) + (seq![all[i]] + rest));
    rendered_append(all.take(i), seq![all[i]] + rest);
    rendered_first(all[i], rest);
    assert(rendered_entries(all) =~= rendered_entries(all.take(i)) + seq!['\n'] + (all[i].text
        + seq!['\n'] + rendered_entries(rest)));
}

proof fn alone_has_lines(text: Seq<char>)
    requires
        stands_alone(text),
    ensures
        split(text, '\n').len() > 0,
        heading(split(text, '\n')[0]),
        lines(text) == split(text, '\n'),
        lines(text + seq!['\n']) == split(text, '\n'),
{
    reveal_strlit("## ");
    let p = "## "@;
    assert(text.subrange(0, 3) == p);
    assert(!p.contains('\n'));
    first_line_starts(text, p);
    assert(text.len() >= 3);
    trim_end_last(text);
    assert(text.contains(text.last()));
    no_return_no_strip(text);
    lines_terminated(text);
}

/// An item that an entry holds is recorded in the file, wherever the entry stands.
pub proof fn a_kept_item_is_recorded(
    front: Seq<char>,
    all: Seq<Record>,
    item: Seq<char>,
    again: Seq<char>,
)
    requires
        is_frontmatter(front),
        headed(all),
        keeps(all, item),
        normalised(again) == normalised(item),
    ensures
        recorded(body_of(front + rendered_entries(all)), again),
{
    reveal_strlit("## ");
    let i = choose|i: int| 0 <= i < all.len() && text_holds((#[trigger] all[i]).text, item);
    let text = all[i].text;
    let none = Seq::<char>::empty();
    let body = rendered_entries(all);
    let rest = all.skip(i + 1);
    body_behind_frontmatter(front, body);
    around(all, i);
    alone_has_lines(text);
    let prior = rendered_entries(all.take(i));
    let behind = rendered_entries(rest);
    let before = split(prior, '\n');
    let own = split(text, '\n');
    split_append(prior, text + seq!['\n'] + behind);
    split_append(text, behind);
    assert(headed(rest)) by {
        assert forall|k: int| 0 <= k < rest.len() implies heading((#[trigger] rest[k]).text) by {
            assert(rest[k] == all[k + i + 1]);
        }
    }
    let next = what_follows(rest);
    let block = own.push(none);
    let after = if rest.len() == 0 {
        Seq::<Seq<char>>::empty()
    } else {
        split(next, '\n')
    };
    assert(split(body, '\n') =~= before + block + after) by {
        if rest.len() == 0 {
            assert(split(behind, '\n') =~= seq![none]);
        } else {
            assert(behind =~= none + seq!['\n'] + next);
            split_cons(none, next);
        }
    }
    if rest.len() > 0 {
        assert(next.subrange(0, 3) == "## "@);
        assert(!"## "@.contains('\n'));
        first_line_starts(next, "## "@);
    }
    assert(!heading(none));
    assert forall|k: int| 0 < k < block.len() implies !heading(#[trigger] block[k]) by {
        if k < own.len() {
            assert(block[k] == own[k]);
        }
    }
    assert(block[0] == own[0]);
    a_block_is_found(before, block, after);
    let at = sections(before).len() as int;
    assert(records_item(sections(split(body, '\n'))[at], normalised(again)));
}

/// Reading a file back loses no entry that stands alone, and what is read back
/// starts with headings.
pub proof fn reading_keeps_what_stands_alone(
    front: Seq<char>,
    all: Seq<Record>,
    item: Seq<char>,
)
    requires
        is_frontmatter(front),
        headed(all),
        keeps(all, item),
    ensures
        headed(entries_of(body_of(front + rendered_entries(all)))),
        keeps(entries_of(body_of(front + rendered_entries(all))), item),
{
    reveal_strlit("## ");
    reveal_strlit("\n");
    let i = choose|i: int| 0 <= i < all.len() && text_holds((#[trigger] all[i]).text, item);
    let text = all[i].text;
    let none = Seq::<char>::empty();
    let feed = seq!['\n'];
    let body = rendered_entries(all);
    let rest = all.skip(i + 1);
    body_behind_frontmatter(front, body);
    what_is_read_is_headed(body);
    around(all, i);
    alone_has_lines(text);
    let prior = rendered_entries(all.take(i));
    let behind = rendered_entries(rest);
    let own = split(text, '\n');
    let before = lines(prior + feed);
    lines_append(prior, text + feed + behind);
    lines_append(text, behind);
    assert(headed(rest)) by {
        assert forall|k: int| 0 <= k < rest.len() implies heading((#[trigger] rest[k]).text) by {
            assert(rest[k] == all[k + i + 1]);
        }
    }
    let next = what_follows(rest);
    let block = if rest.len() == 0 {
        own
    } else {
        own.push(none)
    };
    let after = if rest.len() == 0 {
        Seq::<Seq<char>>::empty()
    } else {
        lines(next)
    };
    assert(lines(body) =~= before + block + after) by {
        if rest.len() == 0 {
            assert(lines(behind) =~= seq![]);
        } else {
            lines_append(none, next);
            assert(none + feed =~= feed);
            assert(none + feed + next =~= behind);
            index_of_is(feed, '\n', 0);
            assert(feed.take(0) =~= none);
            assert(feed.skip(1) =~= none);
            assert(strip_cr(none) =~= none);
            assert(lines(none) =~= seq![]);
            assert(lines(feed) =~= seq![none]);
        }
    }
    if rest.len() > 0 {
        a_heading_is_read(next);
    }
    assert(!heading(none));
    assert forall|k: int| 0 < k < block.len() implies !heading(#[trigger] block[k]) by {
        if k < own.len() {
            assert(block[k] == own[k]);
        }
    }
    assert(block[0] == own[0]);
    a_block_is_found(before, block, after);
    let at = sections(before).len() as int;
    let read = entries_of(body);
    assert(read[at] == record_of(block));
    assert(entry_text(block) == text) by {
        split_rejoins(text);
        let padded = own.push(none);
        assert(padded.drop_last() =~= own);
        assert(join(padded, "\n"@) =~= text.push('\n'));
        assert(text.push('\n').drop_last() =~= text);
        assert(trim_end(text.push('\n')) == trim_end(text));
        reveal_strlit("##");
        assert(text.len() >= 3) by {
            assert(text.subrange(0, 3) == "## "@);
        }
    }
    assert(text_holds(read[at].text, item));
}

/// A text that starts with a heading has one for its first line.
proof fn a_heading_is_read(text: Seq<char>)
    requires
        heading(text),
    ensures
        lines(text).len() > 0,
        heading(lines(text)[0]),
{
    reveal_strlit("## ");
    let p = "## "@;
    let n = index_of(text, '\n');
    index_of_bounds(text, '\n');
    assert(text.subrange(0, 3) == p);
    assert(text[0] == p[0] && text[1] == p[1] && text[2] == p[2]);
    assert(n >= 3);
    if n < text.len() {
        let line = text.take(n);
        assert(line[2] == ' ');
        assert(strip_cr(line).len() >= 3);
        assert(strip_cr(line).subrange(0, 3) =~= p);
    } else {
        assert(lines(text) =~= seq![text]);
    }
}

proof fn what_is_read_is_headed(body: Seq<char>)
    ensures
        headed(entries_of(body)),
{
    let all = entries_of(body);
    sections_start_with_headings(lines(body));
    assert forall|i: int| 0 <= i < all.len() implies heading((#[trigger] all[i]).text) by {
        let block = sections(lines(body))[i];
        assert(all[i] == record_of(block));
        an_entry_keeps_its_heading(block);
    }
}

/// An entry that stands alone holds the item that it was made of.
pub proof fn an_entry_holds_its_item(
    date: Seq<char>,
    topic: Option<Seq<char>>,
    item: Seq<char>,
    context: Option<Masked>,
)
    requires
        !date.contains('\n'),
        stands_alone(new_entry(date, topic, item, context).text),
    ensures
        text_holds(new_entry(date, topic, item, context).text, item),
{
    reveal_strlit("\n");
    reveal_strlit("\n\n_context: ");
    reveal_strlit("_context: ");
    reveal_strlit("_");
    let feed = seq!['\n'];
    let none = Seq::<char>::empty();
    assert("\n"@ =~= feed);
    heading_is_one_line(date, topic);
    let head = heading_text(date, topic);
    let tail = context_line(context);
    let text = block_text(date, topic, item, context);
    let own = split(item, '\n');
    let n = 1 + own.len() as int;
    assert(text =~= head + feed + (item + tail));
    split_cons(head, item + tail);
    split_rejoins(item);
    let block = split(text, '\n').push(none);
    if tail.len() == 0 {
        assert(item + tail =~= item);
        assert(block =~= seq![head] + own + seq![none]);
        assert(trimmed(none) =~= none);
        assert(item_ends(block, n));
    } else {
        let words_in = context->Some_0.text@;
        let from = "_context: "@ + words_in + "_"@;
        assert(item + tail =~= item + feed + (none + feed + from));
        split_append(item, none + feed + from);
        split_cons(none, from);
        let p = "_context: "@;
        assert(from.subrange(0, p.len() as int) =~= p);
        assert(!p.contains('\n'));
        first_line_starts(from, p);
        let lines_in = split(from, '\n');
        assert(block =~= seq![head] + own + (seq![none] + lines_in).push(none));
        assert(block[n] == none);
        assert(block[n + 1] == lines_in[0]);
        assert(item_ends(block, n));
    }
    assert(block.subrange(1, n) =~= own);
    assert(records_until(block, normalised(item), n));
}

/// A file after some appends, each an entry and its item.
pub open spec fn file_after(
    content: Seq<char>,
    front: Seq<char>,
    cap: nat,
    appends: Seq<(Record, Seq<char>)>,
) -> Seq<char>
    decreases appends.len(),
{
    if appends.len() == 0 {
        content
    } else {
        let before = file_after(content, front, cap, appends.drop_last());
        match content_after(before, front, cap, appends.last().0, appends.last().1) {
            Some(after) => after,
            None => before,
        }
    }
}

/// The entries of a file that was written hold an item, and all start with headings.
spec fn is_kept(content: Seq<char>, front: Seq<char>, item: Seq<char>, all: Seq<Record>) -> bool {
    content == front + rendered_entries(all) && headed(all) && keeps(all, item)
}

proof fn appends_keep(
    all: Seq<Record>,
    front: Seq<char>,
    cap: nat,
    item: Seq<char>,
    appends: Seq<(Record, Seq<char>)>,
) -> (kept: Seq<Record>)
    requires
        is_frontmatter(front),
        headed(all),
        keeps(all, item),
        forall|k: int| 0 <= k < appends.len() ==> heading((#[trigger] appends[k]).0.text),
        forall|n: int|
            0 <= n < appends.len() ==> entries_of(
                body_of(
                    file_after(
                        front + rendered_entries(all),
                        front,
                        cap,
                        #[trigger] appends.take(n),
                    ),
                ),
            ).len() < cap,
    ensures
        is_kept(
            file_after(front + rendered_entries(all), front, cap, appends),
            front,
            item,
            kept,
        ),
    decreases appends.len(),
{
    let start = front + rendered_entries(all);
    if appends.len() == 0 {
        all
    } else {
        let earlier = appends.drop_last();
        assert(appends.take(appends.len() - 1) =~= earlier);
        assert forall|k: int| 0 <= k < earlier.len() implies heading(
            (#[trigger] earlier[k]).0.text,
        ) by {
            assert(earlier[k] == appends[k]);
        }
        assert forall|n: int| 0 <= n < earlier.len() implies entries_of(
            body_of(file_after(start, front, cap, #[trigger] earlier.take(n))),
        ).len() < cap by {
            assert(earlier.take(n) =~= appends.take(n));
        }
        let kept = appends_keep(all, front, cap, item, earlier);
        let before = file_after(start, front, cap, earlier);
        let new = appends.last().0;
        match content_after(before, front, cap, new, appends.last().1) {
            None => kept,
            Some(after) => {
                reading_keeps_what_stands_alone(front, kept, item);
                let read = entries_of(body_of(before));
                let grown = with_entry(read, new, cap);
                assert(grown =~= seq![new] + read);
                assert(appends[appends.len() - 1] == appends.last());
                assert(headed(grown)) by {
                    assert forall|k: int| 0 <= k < grown.len() implies heading(
                        (#[trigger] grown[k]).text,
                    ) by {
                        if k > 0 {
                            assert(grown[k] == read[k - 1]);
                        }
                    }
                }
                let i = choose|i: int|
                    0 <= i < read.len() && text_holds((#[trigger] read[i]).text, item);
                assert(grown[i + 1] == read[i]);
                assert(text_holds(grown[i + 1].text, item));
                grown
            },
        }
    }
}

/// An item that was recorded is not recorded again, whatever is recorded in between,
/// as long as the cap drops nothing and the item's entry reads back as it was
/// written.
pub proof fn no_item_is_recorded_twice(
    existing: Seq<char>,
    front: Seq<char>,
    cap: nat,
    date: Seq<char>,
    topic: Option<Seq<char>>,
    item: Seq<char>,
    context: Option<Masked>,
    appends: Seq<(Record, Seq<char>)>,
    again: Seq<char>,
    later: Record,
)
    requires
        is_frontmatter(front),
        cap > 0,
        !date.contains('\n'),
        stands_alone(new_entry(date, topic, item, context).text),
        content_after(existing, front, cap, new_entry(date, topic, item, context), item) is Some,
        forall|k: int| 0 <= k < appends.len() ==> heading((#[trigger] appends[k]).0.text),
        forall|n: int|
            0 <= n < appends.len() ==> entries_of(
                body_of(
                    file_after(
                        content_after(
                            existing,
                            front,
                            cap,
                            new_entry(date, topic, item, context),
                            item,
                        )->0,
                        front,
                        cap,
                        #[trigger] appends.take(n),
                    ),
                ),
            ).len() < cap,
        normalised(again) == normalised(item),
    ensures
        content_after(
            file_after(
                content_after(
                    existing,
                    front,
                    cap,
                    new_entry(date, topic, item, context),
                    item,
                )->0,
                front,
                cap,
                appends,
            ),
            front,
            cap,
            later,
            again,
        ) is None,
{
    let new = new_entry(date, topic, item, context);
    let old_entries = entries_of(body_of(existing));
    let all = with_entry(old_entries, new, cap);
    what_is_read_is_headed(body_of(existing));
    assert(all[0] == new);
    assert(headed(all)) by {
        assert forall|k: int| 0 <= k < all.len() implies heading((#[trigger] all[k]).text) by {
            if k > 0 {
                assert(all[k] == old_entries[k - 1]);
            }
        }
    }
    an_entry_holds_its_item(date, topic, item, context);
    assert(text_holds(all[0].text, item));
    let kept = appends_keep(all, front, cap, item, appends);
    a_kept_item_is_recorded(front, kept, item, again);
}

/// An append keeps the newest first, drops only the oldest, and stays within
/// the cap.
pub proof fn an_append_drops_only_the_oldest(all: Seq<Record>, new: Record, cap: nat)
    requires
        cap > 0,
    ensures
        with_entry(all, new, cap).len() <= cap,
        with_entry(all, new, cap)[0] == new,
        with_entry(all, new, cap).skip(1).is_prefix_of(all),
{
    let after = with_entry(all, new, cap);
    assert(after.skip(1) =~= all.take(after.len() - 1));
}

/// Whether no two entries have the same key.
pub open spec fn no_duplicates(all: Seq<Record>) -> bool {
    forall|i: int, j: int|
        0 <= i < j < all.len() ==> (#[trigger] all[i]).key != (#[trigger] all[j]).key
}

/// Appending an item that is not there yet leaves no duplicates.
pub proof fn an_append_adds_no_duplicate(all: Seq<Record>, new: Record, cap: nat)
    requires
        no_duplicates(all),
        !holds(all, new.key),
    ensures
        no_duplicates(with_entry(all, new, cap)),
{
    let after = with_entry(all, new, cap);
    assert forall|i: int, j: int| 0 <= i < j < after.len() implies (#[trigger] after[i]).key != (
    #[trigger] after[j]).key by {
        assert(after[j] == all[j - 1]);
        if i > 0 {
            assert(after[i] == all[i - 1]);
        }
    }
}

/// After an append there are as many entries as before and one more, up to the cap.
pub proof fn an_append_keeps_what_fits(all: Seq<Record>, new: Record, cap: nat)
    ensures
        all.len() < cap ==> with_entry(all, new, cap) == seq![new] + all,
        all.len() >= cap > 0 ==> with_entry(all, new, cap) == seq![new] + all.take(cap - 1),
        cap == 0 ==> with_entry(all, new, cap).len() == 0,
{
    if all.len() >= cap > 0 {
        assert(with_entry(all, new, cap) =~= seq![new] + all.take(cap - 1));
    }
}

/// The entries are written each behind a blank line, in order.
pub proof fn every_entry_is_written(all: Seq<Record>)
    ensures
        rendered_entries(all) == all.map_values(
            |e: Record| seq!['\n'] + e.text + seq!['\n'],
        ).flatten(),
    decreases all.len(),
{
    reveal_strlit("\n");
    assert("\n"@ =~= seq!['\n']);
    let f = |e: Record| seq!['\n'] + e.text + seq!['\n'];
    mapped_one_more(all, f);
    if all.len() > 0 {
        every_entry_is_written(all.drop_last());
        assert(rendered_entries(all) =~= all.drop_last().map_values(f).flatten() + f(all.last()));
    }
}

proof fn sections_hold(all: Seq<Seq<char>>)
    ensures
        forall|i: int|
            0 <= i < sections(all).len() ==> (#[trigger] sections(all)[i]).len() > 0 && heading(
                sections(all)[i][0],
            ),
        forall|i: int, k: int|
            0 <= i < sections(all).len() && 0 < k < sections(all)[i].len() ==> !heading(
                #[trigger] sections(all)[i][k],
            ),
        sections(all).flatten().is_suffix_of(all),
        sections(all).len() == 0 <==> (forall|k: int|
            0 <= k < all.len() ==> !heading(#[trigger] all[k])),
        forall|k: int|
            0 <= k < all.len() - sections(all).flatten().len() ==> !heading(#[trigger] all[k]),
    decreases all.len(),
{
    if all.len() == 0 {
        assert(sections(all).flatten() =~= seq![]);
    } else {
        let front = all.drop_last();
        let before = sections(front);
        let now = sections(all);
        sections_hold(front);
        if heading(all.last()) {
            before.lemma_flatten_push(seq![all.last()]);
            assert(now.flatten() =~= before.flatten().push(all.last()));
            assert(heading(all[all.len() - 1]));
        } else if before.len() > 0 {
            let longer = before.last().push(all.last());
            before.drop_last().lemma_flatten_push(before.last());
            before.drop_last().lemma_flatten_push(longer);
            assert(before.drop_last().push(before.last()) =~= before);
            assert(now.flatten() =~= before.flatten().push(all.last()));
            assert forall|i: int, k: int|
                0 <= i < now.len() && 0 < k < now[i].len() implies !heading(
                #[trigger] now[i][k],
            ) by {
                if i < before.len() - 1 {
                    assert(now[i] == before[i]);
                    assert(!heading(before[i][k]));
                } else if k < before.last().len() {
                    assert(!heading(before[i][k]));
                }
            }
            assert forall|i: int| 0 <= i < now.len() implies (#[trigger] now[i]).len() > 0
                && heading(now[i][0]) by {
                assert(before[i].len() > 0);
            }
            assert(exists|k: int| 0 <= k < front.len() && heading(#[trigger] front[k]));
            let k = choose|k: int| 0 <= k < front.len() && heading(#[trigger] front[k]);
            assert(heading(all[k]));
        } else {
            assert forall|k: int| 0 <= k < all.len() implies !heading(#[trigger] all[k]) by {
                if k < front.len() {
                    assert(!heading(front[k]));
                }
            }
        }
        if now.len() > 0 {
            let kept = now.flatten();
            let earlier = before.flatten();
            assert(kept =~= earlier.push(all.last()));
            assert(all.skip(all.len() - kept.len()) =~= kept) by {
                assert(front.skip(front.len() - earlier.len()) =~= earlier);
                assert forall|j: int| 0 <= j < kept.len() implies all[all.len() - kept.len() + j]
                    == kept[j] by {
                    if j < earlier.len() {
                        assert(front.skip(front.len() - earlier.len())[j] == earlier[j]);
                    }
                }
            }
            assert forall|k: int| 0 <= k < all.len() - kept.len() implies !heading(
                #[trigger] all[k],
            ) by {
                assert(!heading(front[k]));
            }
        } else {
            assert(now.flatten() =~= seq![]);
            assert(before.flatten() =~= seq![]);
        }
    }
}

/// The lines fall into sections at the headings: each section starts with one and holds
/// no other, and together they are all the lines from the first heading on.
pub proof fn the_sections_are_the_lines(all: Seq<Seq<char>>)
    ensures
        forall|i: int|
            0 <= i < sections(all).len() ==> (#[trigger] sections(all)[i]).len() > 0 && heading(
                sections(all)[i][0],
            ),
        forall|i: int, k: int|
            0 <= i < sections(all).len() && 0 < k < sections(all)[i].len() ==> !heading(
                #[trigger] sections(all)[i][k],
            ),
        sections(all).flatten().is_suffix_of(all),
        forall|k: int|
            0 <= k < all.len() - sections(all).flatten().len() ==> !heading(#[trigger] all[k]),
{
    sections_hold(all);
}

/// A key is made of the first line behind the heading that is not blank.
pub proof fn a_key_is_of_the_first_line(block: Seq<Seq<char>>, from: int, k: int)
    requires
        0 <= from <= k < block.len(),
        trimmed(block[k]).len() > 0,
        forall|j: int| from <= j < k ==> trimmed(#[trigger] block[j]).len() == 0,
    ensures
        key_from(block, from) == normalised(block[k]),
    decreases k - from,
{
    if from < k {
        assert(trimmed(block[from]).len() == 0);
        a_key_is_of_the_first_line(block, from + 1, k);
    }
}

/// A text that is clipped keeps its beginning and is marked; one that fits is only
/// trimmed.
pub proof fn a_clip_keeps_the_beginning(text: Seq<char>, limit: nat)
    ensures
        trimmed(text).len() <= limit ==> clipped(text, limit) == trimmed(text),
        trimmed(text).len() > limit ==> clipped(text, limit).len() <= limit + 1 && clipped(
            text,
            limit,
        ).last() == '…' && clipped(text, limit).drop_last() == trim_end(
            trimmed(text).take(limit as int),
        ),
{
    if trimmed(text).len() > limit {
        reveal_strlit("…");
        let cut = trimmed(text).take(limit as int);
        trim_end_shorter(cut);
        assert(clipped(text, limit).drop_last() =~= trim_end(cut));
    }
}

/// The classes that were masked are told once each: first those known, then those that
/// are new, in order.
pub proof fn each_class_is_told_once(known: Seq<Seq<char>>, more: Seq<Seq<char>>)
    ensures
        known.is_prefix_of(union(known, more)),
        known.no_duplicates() ==> union(known, more).no_duplicates(),
        forall|x: Seq<char>|
            #[trigger] union(known, more).contains(x) <==> known.contains(x) || more.contains(x),
    decreases more.len(),
{
    let all = union(known, more);
    if more.len() > 0 {
        let front = more.drop_last();
        each_class_is_told_once(known, front);
        let before = union(known, front);
        let last = more.last();
        assert(known =~= all.take(known.len() as int)) by {
            assert(known =~= before.take(known.len() as int));
        }
        assert forall|x: Seq<char>| #[trigger] all.contains(x) <==> known.contains(x)
            || more.contains(x) by {
            assert(before.contains(x) <==> known.contains(x) || front.contains(x));
            assert(before.contains(last) <==> known.contains(last) || front.contains(last));
            assert(more =~= front.push(last));
            if front.contains(x) {
                let i = choose|i: int| 0 <= i < front.len() && front[i] == x;
                assert(more[i] == x);
            }
            if more.contains(x) && x != last {
                let i = choose|i: int| 0 <= i < more.len() && more[i] == x;
                assert(front[i] == x);
            }
            assert(more[more.len() - 1] == last);
            if before.contains(x) {
                let i = choose|i: int| 0 <= i < before.len() && before[i] == x;
                assert(all[i] == x);
            }
            if all.contains(x) && !before.contains(x) {
                let i = choose|i: int| 0 <= i < all.len() && all[i] == x;
                if i < before.len() {
                    assert(before[i] == x);
                }
            }
            if !before.contains(last) {
                assert(all[all.len() - 1] == last);
            }
        }
        if known.no_duplicates() && !before.contains(last) {
            assert forall|i: int, j: int|
                0 <= i < all.len() && 0 <= j < all.len() && i != j implies all[i] != all[j] by {
                if i < before.len() && j < before.len() {
                    assert(before[i] != before[j]);
                } else if i < before.len() {
                    assert(before.contains(before[i]));
                } else {
                    assert(before.contains(before[j]));
                }
            }
        }
    } else {
        assert(known =~= all.take(known.len() as int));
    }
}

/// A topic that is not blank stands in the heading behind the date, trimmed.
pub proof fn the_topic_stands_in_the_heading(date: Seq<char>, topic: Seq<char>)
    ensures
        trimmed(topic).len() > 0 && !topic.contains('\n') && !trimmed(topic).contains('\n')
            ==> heading_text(date, Some(topic)) == "## "@ + date + " — "@ + trimmed(topic),
        trimmed(topic).len() == 0 ==> heading_text(date, Some(topic)) == "## "@ + date,
        heading_text(date, None) == "## "@ + date,
        heading(heading_text(date, Some(topic))),
{
    reveal_strlit("## ");
    let text = heading_text(date, Some(topic));
    assert("## "@ =~= text.take(3));
}

} // verus!
