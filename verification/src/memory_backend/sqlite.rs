//! The engine that keeps memories in a database.
//!
//! One `memory.db` inside the memory directory holds every memory as a row,
//! mirrored into a full-text index for search. The `kind` column keeps the four
//! sources apart.
use vstd::prelude::*;
use crate::memory_append::{normalise, normalised};
use crate::memory_backend::MemoryHit;
use crate::paths::{
    file_name, file_name_of, join_path, joined, or_empty, path_extension, path_extension_of,
};
use crate::text::{
    chars_of, is_some_text, join, join_with, kept_one_more, lowercased, opt_view, same, trim,
    trimmed, views, views_push, words, words_of,
};
use crate::{said, ResultView, ToolResult};

verus! {

/// Entries kept per kind; the oldest drops when a new one arrives.
pub const CAP_PER_KIND: usize = 100;

#[derive(Debug)]
pub struct SqliteBackend {
    pub memory_dir: String,
}

impl SqliteBackend {
    pub fn new(memory_dir: String) -> (b: SqliteBackend)
        ensures
            b.memory_dir@ == memory_dir@,
    {
        SqliteBackend { memory_dir }
    }

    /// The path of the database.
    pub fn db_path(&self) -> (out: String)
        ensures
            out@ == joined(self.memory_dir@, "memory.db"@),
    {
        join_path(&self.memory_dir, "memory.db")
    }
}

/// Which kind an imported filename maps to.
pub open spec fn kind_of(filename: Seq<char>) -> Seq<char> {
    if filename == "learned.md"@ {
        "lesson"@
    } else if filename == "facts.md"@ {
        "fact"@
    } else if filename == "session-notes.md"@ {
        "session_note"@
    } else {
        "topic"@
    }
}

/// Which kind an imported filename maps to.
pub fn kind_for_filename(filename: &str) -> (out: &'static str)
    ensures
        out@ == kind_of(filename@),
{
    if same(filename, "learned.md") {
        "lesson"
    } else if same(filename, "facts.md") {
        "fact"
    } else if same(filename, "session-notes.md") {
        "session_note"
    } else {
        "topic"
    }
}

// ---------------------------------------------------------------------------
// Writing
// ---------------------------------------------------------------------------

/// A row to write.
#[derive(Debug)]
pub struct Row {
    pub kind: String,
    pub title: String,
    pub description: Option<String>,
    pub body: String,
    /// What tells the row from others of its kind.
    pub norm_key: String,
}

/// What a [`Row`] holds.
#[verifier::ext_equal]
pub struct RowView {
    pub kind: Seq<char>,
    pub title: Seq<char>,
    pub description: Option<Seq<char>>,
    pub body: Seq<char>,
    pub norm_key: Seq<char>,
}

impl View for Row {
    type V = RowView;

    open spec fn view(&self) -> RowView {
        RowView {
            kind: self.kind@,
            title: self.title@,
            description: opt_view(self.description),
            body: self.body@,
            norm_key: self.norm_key@,
        }
    }
}

/// The row that an item makes: under its topic where it has one, else under what
/// it is.
pub open spec fn row_of(
    kind: Seq<char>,
    noun: Seq<char>,
    body: Seq<char>,
    topic: Option<Seq<char>>,
) -> RowView {
    RowView {
        kind,
        title: if topic matches Some(t) && trimmed(t).len() > 0 {
            trimmed(topic->Some_0)
        } else {
            noun
        },
        description: None,
        body,
        norm_key: normalised(body),
    }
}

/// The row that an item makes. `body` is the item with credentials masked.
pub fn row_for(kind: &str, noun: &str, body: &str, topic: &Option<String>) -> (r: Row)
    ensures
        r@ == row_of(kind@, noun@, body@, opt_view(*topic)),
{
    let mut title = noun.to_string();
    if let Some(t) = topic {
        let named = trim(t);
        if !named.as_str().is_empty() {
            title = named;
        }
    }
    Row {
        kind: kind.to_string(),
        title,
        description: None,
        body: body.to_string(),
        norm_key: normalise(body),
    }
}

/// The row that a file of the memory directory is imported as, where it is: a
/// file that ends in `.md`, under the name its front matter gives, or its own.
pub open spec fn imported(
    path: Seq<char>,
    content: Seq<char>,
    name: Option<Seq<char>>,
    description: Option<Seq<char>>,
) -> Option<RowView> {
    if path_extension(path) == Some("md"@) && file_name(path) is Some {
        let filename = file_name(path)->Some_0;
        Some(
            RowView {
                kind: kind_of(filename),
                title: match name {
                    Some(n) => n,
                    None => filename,
                },
                description,
                body: content,
                norm_key: normalised(content),
            },
        )
    } else {
        None
    }
}

/// The row that a file of the memory directory is imported as. `name` and
/// `description` are what its front matter gives.
pub fn import_row(
    path: &str,
    content: &str,
    name: &Option<String>,
    description: &Option<String>,
) -> (r: Option<Row>)
    ensures
        match r {
            Some(row) => imported(path@, content@, opt_view(*name), opt_view(*description)) == Some(
                row@,
            ),
            None => imported(path@, content@, opt_view(*name), opt_view(*description)) is None,
        },
{
    if !is_some_text(&path_extension_of(path), "md") {
        return None;
    }
    let filename = match file_name_of(path) {
        Some(f) => f,
        None => {
            return None;
        },
    };
    let kind = kind_for_filename(&filename).to_string();
    let title = match name {
        Some(n) => n.clone(),
        None => filename,
    };
    let description = match description {
        Some(d) => Some(d.clone()),
        None => None,
    };
    Some(
        Row {
            kind,
            title,
            description,
            body: content.to_string(),
            norm_key: normalise(content),
        },
    )
}

/// What a written row is reported as.
pub open spec fn record_report(noun: Seq<char>, masked: Seq<Seq<char>>) -> Seq<char> {
    let base = "Recorded a "@ + noun + " in the memory database."@;
    if masked.len() > 0 {
        base + (" A credential was masked before writing ("@ + join(masked, ", "@) + ")."@)
    } else {
        base
    }
}

/// What a written row is reported as.
pub fn build_record_report(noun: &str, masked: &Vec<String>) -> (out: String)
    ensures
        out@ == record_report(noun@, views(masked@)),
{
    assert(views(masked@).len() == masked@.len());
    let mut out = "Recorded a ".to_string();
    out.push_str(noun);
    out.push_str(" in the memory database.");
    if masked.len() > 0 {
        let mut note = " A credential was masked before writing (".to_string();
        note.push_str(&join_with(masked, ", "));
        note.push_str(").");
        out.push_str(&note);
    }
    out
}

/// How writing a row went.
#[derive(Debug)]
pub enum Recorded {
    /// The database could not be opened.
    Unopened(String),
    /// A new row was written.
    New,
    /// A row of the kind with the same key was there.
    Duplicate,
    /// The row could not be written.
    Failed(String),
}

/// What recording an item answers.
pub open spec fn record_answer(noun: Seq<char>, masked: Seq<Seq<char>>, how: Recorded) -> ResultView {
    match how {
        Recorded::Unopened(e) => said("Could not open memory database: "@ + e@, true),
        Recorded::New => said(record_report(noun, masked), false),
        Recorded::Duplicate => said(
            "Already recorded, so nothing was written. The memory database holds this "@ + noun
                + "."@,
            false,
        ),
        Recorded::Failed(e) => said("Could not write the "@ + noun + ": "@ + e@, true),
    }
}

/// Answer the recording of an item.
pub fn record(noun: &str, masked: &Vec<String>, how: &Recorded) -> (r: ToolResult)
    ensures
        r@ == record_answer(noun@, views(masked@), *how),
{
    match how {
        Recorded::Unopened(e) => {
            let mut out = "Could not open memory database: ".to_string();
            out.push_str(e);
            ToolResult::error(out)
        },
        Recorded::New => ToolResult::success(build_record_report(noun, masked)),
        Recorded::Duplicate => {
            let mut out =
                "Already recorded, so nothing was written. The memory database holds this ".to_string();
            out.push_str(noun);
            out.push_str(".");
            ToolResult::success(out)
        },
        Recorded::Failed(e) => {
            let mut out = "Could not write the ".to_string();
            out.push_str(noun);
            out.push_str(": ");
            out.push_str(e);
            ToolResult::error(out)
        },
    }
}

/// Two items with the same words, whatever their case and the space between, make
/// rows with the same key, whatever their topics.
pub proof fn spacing_and_case_make_no_new_row(
    kind: Seq<char>,
    noun: Seq<char>,
    a: Seq<char>,
    a_topic: Option<Seq<char>>,
    b: Seq<char>,
    b_topic: Option<Seq<char>>,
)
    requires
        words(lowercased(a)) == words(lowercased(b)),
    ensures
        row_of(kind, noun, a, a_topic).norm_key == row_of(kind, noun, b, b_topic).norm_key,
{
}

// ---------------------------------------------------------------------------
// Reading
// ---------------------------------------------------------------------------

/// A text without its double quotes.
pub open spec fn unquoted(s: Seq<char>) -> Seq<char>
    decreases s.len(),
{
    if s.len() == 0 {
        seq![]
    } else if s.last() == '"' {
        unquoted(s.drop_last())
    } else {
        unquoted(s.drop_last()).push(s.last())
    }
}

/// One term of a search, in quotes.
pub open spec fn term(word: Seq<char>) -> Seq<char> {
    "\""@ + unquoted(word) + "\""@
}

/// The terms that the words of a search make, dropping those with nothing in
/// their quotes.
pub open spec fn terms(all: Seq<Seq<char>>) -> Seq<Seq<char>>
    decreases all.len(),
{
    if all.len() == 0 {
        seq![]
    } else if unquoted(all.last()).len() > 0 {
        terms(all.drop_last()).push(term(all.last()))
    } else {
        terms(all.drop_last())
    }
}

/// The query of a search: its words, each in quotes, any of which is enough.
pub open spec fn fts_query(query: Seq<char>) -> Seq<char> {
    join(terms(words(query)), " OR "@)
}

fn unquote(s: &str) -> (out: String)
    ensures
        out@ == unquoted(s@),
{
    let x = chars_of(s);
    let mut out = String::new();
    let mut i: usize = 0;
    assert(x@.take(0) =~= seq![]);
    while i < x.len()
        invariant
            i <= x@.len(),
            out@ == unquoted(x@.take(i as int)),
        decreases x.len() - i,
    {
        assert(x@.take(i + 1).drop_last() =~= x@.take(i as int));
        assert(x@.take(i + 1).last() == x@[i as int]);
        if x[i] != '"' {
            out.push(x[i]);
        }
        i += 1;
    }
    assert(x@.take(x@.len() as int) =~= s@);
    out
}

/// Quote each term and OR them, so punctuation in a query cannot break the
/// full-text grammar and any term matching is enough to surface a row.
pub fn build_fts_query(query: &str) -> (out: String)
    ensures
        out@ == fts_query(query@),
{
    broadcast use views_push;

    let all = words_of(query);
    let ghost model = views(all@);
    let mut found: Vec<String> = Vec::new();
    let mut i: usize = 0;
    assert(model.take(0) =~= seq![]);
    assert(views(found@) =~= seq![]);
    while i < all.len()
        invariant
            i <= all@.len(),
            model == views(all@),
            views(found@) == terms(model.take(i as int)),
        decreases all.len() - i,
    {
        assert(model.take(i + 1).drop_last() =~= model.take(i as int));
        assert(model.take(i + 1).last() == all@[i as int]@);
        let bare = unquote(&all[i]);
        if !bare.as_str().is_empty() {
            let mut quoted = "\"".to_string();
            quoted.push_str(&bare);
            quoted.push_str("\"");
            found.push(quoted);
        }
        i += 1;
    }
    assert(model.take(model.len() as int) =~= model);
    join_with(&found, " OR ")
}

/// A row that a search found, as a hit: under its title, or its kind where it has
/// none.
pub fn hit_from_row(title: &Option<String>, kind: &str, body: &str, updated: i64) -> (h: MemoryHit)
    ensures
        h.title@ == (match opt_view(*title) {
            Some(t) => t,
            None => kind@,
        }),
        h.body@ == body@,
        h.modified_secs == (if updated > 0 {
            updated as int
        } else {
            0
        }),
{
    let title = match title {
        Some(t) => t.clone(),
        None => kind.to_string(),
    };
    MemoryHit {
        title,
        body: body.to_string(),
        modified_secs: if updated > 0 {
            updated as u64
        } else {
            0
        },
    }
}

/// One row of the index, with its age in words.
#[derive(Debug)]
pub struct IndexRow {
    pub title: Option<String>,
    pub description: Option<String>,
    pub age: String,
}

/// One line of the index.
pub open spec fn index_line(r: IndexRow) -> Seq<char> {
    let base = "\n- "@ + or_empty(opt_view(r.title)) + " ("@ + r.age@ + ")"@;
    if r.description matches Some(d) && d@.len() > 0 {
        base + (": "@ + r.description->Some_0@)
    } else {
        base
    }
}

/// The first `n` lines of the index.
pub open spec fn index_lines(rows: Seq<IndexRow>, n: int) -> Seq<char>
    decreases n,
{
    if n <= 0 || n > rows.len() {
        seq![]
    } else {
        index_lines(rows, n - 1) + index_line(rows[n - 1])
    }
}

/// The block of the system prompt that lists the memories; empty where there are none.
pub open spec fn block(db_path: Seq<char>, rows: Seq<IndexRow>) -> Seq<char> {
    if rows.len() == 0 {
        seq![]
    } else {
        "Memory database: "@ + db_path
            + "\nFor one durable lesson, call the `Learn` tool; for a durable fact, call `Retain`. Both file and deduplicate for you.\n\n## Memory Index"@
            + index_lines(rows, rows.len() as int)
    }
}

fn line_of(r: &IndexRow) -> (out: String)
    ensures
        out@ == index_line(*r),
{
    let mut out = "\n- ".to_string();
    if let Some(title) = &r.title {
        out.push_str(title);
    } else {
        let none = String::new();
        out.push_str(&none);
    }
    out.push_str(" (");
    out.push_str(&r.age);
    out.push_str(")");
    if let Some(d) = &r.description {
        if !d.as_str().is_empty() {
            let mut tail = ": ".to_string();
            tail.push_str(d);
            out.push_str(&tail);
        }
    }
    out
}

/// The block of the system prompt that lists the memories.
pub fn prompt_block(db_path: &str, rows: &Vec<IndexRow>) -> (out: String)
    ensures
        out@ == block(db_path@, rows@),
{
    if rows.len() == 0 {
        return String::new();
    }
    let mut out = "Memory database: ".to_string();
    out.push_str(db_path);
    out.push_str(
        "\nFor one durable lesson, call the `Learn` tool; for a durable fact, call `Retain`. Both file and deduplicate for you.\n\n## Memory Index",
    );
    let ghost head = out@;
    let mut listed = String::new();
    let mut i: usize = 0;
    while i < rows.len()
        invariant
            i <= rows@.len(),
            listed@ == index_lines(rows@, i as int),
        decreases rows.len() - i,
    {
        let line = line_of(&rows[i]);
        listed.push_str(&line);
        i += 1;
    }
    out.push_str(&listed);
    out
}

proof fn quotes_go(s: Seq<char>)
    ensures
        unquoted(s) == s.filter(|c: char| c != '"'),
    decreases s.len(),
{
    kept_one_more(s, |c: char| c != '"');
    if s.len() > 0 {
        quotes_go(s.drop_last());
    }
}

/// Each word of a search that holds more than quotes is a term of the query, in order,
/// in quotes and without the quotes it held.
pub proof fn every_word_is_searched_for(all: Seq<Seq<char>>)
    ensures
        terms(all) == all.map_values(|word: Seq<char>| word.filter(|c: char| c != '"')).filter(
            |word: Seq<char>| word.len() > 0,
        ).map_values(|word: Seq<char>| seq!['"'] + word + seq!['"']),
    decreases all.len(),
{
    reveal_strlit("\"");
    assert("\""@ =~= seq!['"']);
    let f = |word: Seq<char>| word.filter(|c: char| c != '"');
    let g = |word: Seq<char>| seq!['"'] + word + seq!['"'];
    let keep = |word: Seq<char>| word.len() > 0;
    let bare = all.map_values(f);
    kept_one_more(bare, keep);
    if all.len() > 0 {
        every_word_is_searched_for(all.drop_last());
        assert(bare.drop_last() =~= all.drop_last().map_values(f));
        quotes_go(all.last());
        assert(bare.last() == unquoted(all.last()));
        assert(term(all.last()) =~= g(bare.last()));
    }
    assert(terms(all) =~= bare.filter(keep).map_values(g));
}

/// No term holds a quote but the two it stands between.
pub proof fn a_term_is_quoted_once(word: Seq<char>, i: int)
    requires
        0 < i < term(word).len() - 1,
    ensures
        term(word)[i] != '"',
{
    reveal_strlit("\"");
    quotes_go(word);
    let bare = unquoted(word);
    word.lemma_filter_pred(|c: char| c != '"', i - 1);
    assert(term(word)[i] == bare[i - 1]);
}

/// Each memory has a line of its own in the block, in order: its title, its age, and
/// its description where it has one.
pub proof fn every_memory_is_listed(rows: Seq<IndexRow>, n: int, told: Seq<Seq<char>>)
    requires
        0 <= n <= rows.len(),
        told.len() == rows.len(),
        forall|i: int|
            0 <= i < told.len() ==> #[trigger] told[i] == (match rows[i].description {
                Some(d) => if d@.len() > 0 {
                    ": "@ + d@
                } else {
                    seq![]
                },
                None => seq![],
            }),
    ensures
        index_lines(rows, n) == Seq::new(
            n as nat,
            |i: int|
                "\n- "@ + or_empty(opt_view(rows[i].title)) + " ("@ + rows[i].age@ + ")"@ + told[i],
        ).flatten(),
    decreases n,
{
    let parts = Seq::new(
        n as nat,
        |i: int|
            "\n- "@ + or_empty(opt_view(rows[i].title)) + " ("@ + rows[i].age@ + ")"@ + told[i],
    );
    if n > 0 {
        every_memory_is_listed(rows, n - 1, told);
        let fewer = Seq::new(
            (n - 1) as nat,
            |i: int|
                "\n- "@ + or_empty(opt_view(rows[i].title)) + " ("@ + rows[i].age@ + ")"@ + told[i],
        );
        let r = rows[n - 1];
        let part = "\n- "@ + or_empty(opt_view(r.title)) + " ("@ + r.age@ + ")"@ + told[n - 1];
        fewer.lemma_flatten_push(part);
        assert(parts =~= fewer.push(part));
        assert(told[n - 1] == told[n - 1]);
        assert(index_line(r) =~= part);
    } else {
        assert(parts =~= seq![]);
        assert(parts.flatten() =~= seq![]);
    }
}

/// Each of the three files has its own kind, and every other is a topic.
pub proof fn each_file_has_its_kind(filename: Seq<char>)
    ensures
        kind_of(filename) == "lesson"@ <==> filename == "learned.md"@,
        kind_of(filename) == "fact"@ <==> filename == "facts.md"@,
        kind_of(filename) == "session_note"@ <==> filename == "session-notes.md"@,
        filename != "learned.md"@ && filename != "facts.md"@ && filename != "session-notes.md"@
            ==> kind_of(filename) == "topic"@,
{
    reveal_strlit("lesson");
    reveal_strlit("fact");
    reveal_strlit("session_note");
    reveal_strlit("topic");
    reveal_strlit("learned.md");
    reveal_strlit("facts.md");
    reveal_strlit("session-notes.md");
    assert("lesson"@.len() == 6 && "fact"@.len() == 4 && "session_note"@.len() == 12
        && "topic"@.len() == 5);
    assert("learned.md"@.len() == 10 && "facts.md"@.len() == 8 && "session-notes.md"@.len() == 16);
}

/// The block is empty where there are no memories, and else tells where they are kept
/// and lists them all.
pub proof fn the_block_lists_them_all(db_path: Seq<char>, rows: Seq<IndexRow>)
    ensures
        block(db_path, rows).len() == 0 <==> rows.len() == 0,
        rows.len() > 0 ==> ("Memory database: "@ + db_path).is_prefix_of(block(db_path, rows)),
        rows.len() > 0 ==> index_lines(rows, rows.len() as int).is_suffix_of(block(db_path, rows)),
{
    reveal_strlit("Memory database: ");
    if rows.len() > 0 {
        let whole = block(db_path, rows);
        let head = "Memory database: "@ + db_path;
        let tail = index_lines(rows, rows.len() as int);
        assert(head =~= whole.take(head.len() as int));
        assert(tail =~= whole.skip(whole.len() - tail.len()));
    }
}

/// A file is imported where, and only where, it ends in `.md`: with all it says, under
/// the name it gives itself, or its own.
pub proof fn a_file_is_imported_whole(
    path: Seq<char>,
    content: Seq<char>,
    name: Option<Seq<char>>,
    description: Option<Seq<char>>,
)
    ensures
        imported(path, content, name, description) is Some <==> path_extension(path) == Some(
            "md"@,
        ),
        path_extension(path) == Some("md"@) ==> {
            let row = imported(path, content, name, description)->0;
            &&& row.body == content
            &&& row.description == description
            &&& row.title == (match name {
                Some(n) => n,
                None => file_name(path)->0,
            })
            &&& row.kind == kind_of(file_name(path)->0)
            &&& row.norm_key == normalised(content)
        },
{
}

/// An item is filed with what it says, under its topic where that is not blank.
pub proof fn an_item_is_filed_under_its_topic(
    kind: Seq<char>,
    noun: Seq<char>,
    body: Seq<char>,
    topic: Seq<char>,
)
    ensures
        row_of(kind, noun, body, Some(topic)).body == body,
        row_of(kind, noun, body, Some(topic)).kind == kind,
        row_of(kind, noun, body, Some(topic)).norm_key == normalised(body),
        trimmed(topic).len() > 0 ==> row_of(kind, noun, body, Some(topic)).title == trimmed(topic),
        trimmed(topic).len() == 0 ==> row_of(kind, noun, body, Some(topic)).title == noun,
        row_of(kind, noun, body, None).title == noun,
{
}

} // verus!
