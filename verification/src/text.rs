//! Text as sequences of characters: what a line, a word, a trimmed string or a
//! decimal number is, and functions that compute them.
use vstd::prelude::*;

verus! {

/// `String::push`: appends one character to the end of the string.
pub assume_specification[ String::push ](s: &mut String, c: char)
    ensures
        final(s)@ == old(s)@.push(c),
;

/// `String::push_str`: appends a string slice to the end of the string.
pub assume_specification[ String::push_str ](s: &mut String, other: &str)
    ensures
        final(s)@ == old(s)@ + other@,
;

/// What the strings of `v` hold, in order.
pub open spec fn views(v: Seq<String>) -> Seq<Seq<char>> {
    Seq::new(v.len(), |i: int| v[i]@)
}

/// What an optional string holds.
pub open spec fn opt_view(s: Option<String>) -> Option<Seq<char>> {
    match s {
        Some(s) => Some(s@),
        None => None,
    }
}

pub broadcast proof fn views_push(v: Seq<String>, s: String)
    ensures
        #[trigger] views(v.push(s)) == views(v).push(s@),
{
    assert(views(v.push(s)) =~= views(v).push(s@));
}

// ---------------------------------------------------------------------------
// Characters and strings
// ---------------------------------------------------------------------------

/// The characters of `s`, in order.
pub fn chars_of(s: &str) -> (out: Vec<char>)
    ensures
        out@ == s@,
{
    let mut out: Vec<char> = Vec::new();
    for c in it: s.chars()
        invariant
            out@ == s@.take(it.index() as int),
            it.seq() == s@,
    {
        out.push(c);
        assert(out@ == s@.take(it.index() + 1));
    }
    assert(s@.take(s@.len() as int) == s@);
    out
}

/// The characters `chars[from..to]` as a string.
pub fn string_of(chars: &[char], from: usize, to: usize) -> (out: String)
    requires
        from <= to <= chars@.len(),
    ensures
        out@ == chars@.subrange(from as int, to as int),
{
    let mut out = String::new();
    let mut i: usize = from;
    while i < to
        invariant
            from <= i <= to <= chars@.len(),
            out@ == chars@.subrange(from as int, i as int),
        decreases to - i,
    {
        out.push(chars[i]);
        i += 1;
        assert(out@ == chars@.subrange(from as int, i as int));
    }
    out
}

/// Whether `chars[at..]` starts with `sub`.
pub fn matches_at(chars: &[char], at: usize, sub: &[char]) -> (r: bool)
    requires
        at <= chars@.len(),
    ensures
        r == (at + sub@.len() <= chars@.len() && chars@.subrange(at as int, at + sub@.len()) == sub@),
{
    let total: usize = chars.len();
    if sub.len() > total - at {
        return false;
    }
    let mut i: usize = 0;
    while i < sub.len()
        invariant
            i <= sub.len(),
            total == chars@.len(),
            at + sub@.len() <= total,
            forall|j: int| 0 <= j < i ==> chars@[at + j] == sub@[j],
        decreases sub.len() - i,
    {
        if chars[at + i] != sub[i] {
            assert(chars@.subrange(at as int, at + sub@.len())[i as int] != sub@[i as int]);
            return false;
        }
        i += 1;
    }
    assert(chars@.subrange(at as int, at + sub@.len()) =~= sub@);
    true
}

/// Whether two strings hold the same characters.
pub fn same(a: &str, b: &str) -> (r: bool)
    ensures
        r == (a@ == b@),
{
    let x = chars_of(a);
    let y = chars_of(b);
    let r = x.len() == y.len() && matches_at(&x, 0, &y);
    assert(x@.subrange(0, x@.len() as int) =~= x@);
    r
}

/// Whether an optional string is the given text.
pub fn is_some_text(a: &Option<String>, b: &str) -> (r: bool)
    ensures
        r == (opt_view(*a) == Some(b@)),
{
    match a {
        Some(s) => same(s, b),
        None => false,
    }
}

/// Whether `s` starts with `prefix`.
pub fn starts_with(s: &str, prefix: &str) -> (r: bool)
    ensures
        r == prefix@.is_prefix_of(s@),
{
    let x = chars_of(s);
    let y = chars_of(prefix);
    matches_at(&x, 0, &y)
}

/// Whether `s` ends with `suffix`.
pub fn ends_with(s: &str, suffix: &str) -> (r: bool)
    ensures
        r == suffix@.is_suffix_of(s@),
{
    let x = chars_of(s);
    let y = chars_of(suffix);
    x.len() >= y.len() && matches_at(&x, x.len() - y.len(), &y)
}

/// Whether `sub` stands in `s` at position `at`.
pub open spec fn occurs_at(s: Seq<char>, sub: Seq<char>, at: int) -> bool {
    0 <= at && at + sub.len() <= s.len() && s.subrange(at, at + sub.len()) == sub
}

/// Whether `sub` stands anywhere in `s`.
pub open spec fn contains(s: Seq<char>, sub: Seq<char>) -> bool {
    exists|at: int| occurs_at(s, sub, at)
}

/// Whether `at` is the first position at which `sub` stands in `s`.
pub open spec fn first_at(s: Seq<char>, sub: Seq<char>, at: int) -> bool {
    occurs_at(s, sub, at) && forall|j: int| 0 <= j < at ==> !occurs_at(s, sub, j)
}

/// The first position at or after `from` at which `sub` stands in `chars`.
pub fn find_from(chars: &[char], sub: &[char], from: usize) -> (r: Option<usize>)
    requires
        from <= chars@.len(),
    ensures
        match r {
            Some(at) => from <= at && occurs_at(chars@, sub@, at as int) && forall|j: int|
                from <= j < at ==> !occurs_at(chars@, sub@, j),
            None => forall|j: int| from <= j ==> !occurs_at(chars@, sub@, j),
        },
{
    let mut at: usize = from;
    while at < chars.len()
        invariant
            from <= at <= chars.len(),
            forall|j: int| from <= j < at ==> !occurs_at(chars@, sub@, j),
        decreases chars.len() - at,
    {
        if matches_at(chars, at, sub) {
            return Some(at);
        }
        at += 1;
    }
    if matches_at(chars, at, sub) {
        return Some(at);
    }
    None
}

/// The first position at which `sub` stands in `s`, where it does.
pub open spec fn find(s: Seq<char>, sub: Seq<char>) -> Option<int> {
    if contains(s, sub) {
        Some(choose|at: int| first_at(s, sub, at))
    } else {
        None
    }
}

pub proof fn find_is(s: Seq<char>, sub: Seq<char>, at: int)
    requires
        first_at(s, sub, at),
    ensures
        find(s, sub) == Some(at),
{
    assert(occurs_at(s, sub, at));
    let other = choose|other: int| first_at(s, sub, other);
    assert(first_at(s, sub, other));
    if other < at {
        assert(!occurs_at(s, sub, other));
    }
    if at < other {
        assert(!occurs_at(s, sub, at));
    }
}

/// Whether `sub` stands anywhere in `s`.
pub fn has(s: &str, sub: &str) -> (r: bool)
    ensures
        r == contains(s@, sub@),
{
    let x = chars_of(s);
    let y = chars_of(sub);
    find_from(&x, &y, 0).is_some()
}

/// Whether a character stands in `s`.
pub fn has_char(s: &str, c: char) -> (r: bool)
    ensures
        r == s@.contains(c),
{
    let x = chars_of(s);
    let mut i: usize = 0;
    while i < x.len()
        invariant
            i <= x.len(),
            x@ == s@,
            forall|j: int| 0 <= j < i ==> s@[j] != c,
        decreases x.len() - i,
    {
        if x[i] == c {
            assert(s@[i as int] == c);
            return true;
        }
        i += 1;
    }
    false
}

/// The strings of `v`, copied.
pub fn copy_strings(v: &[String]) -> (out: Vec<String>)
    ensures
        views(out@) == views(v@),
{
    broadcast use views_push;

    let mut out: Vec<String> = Vec::new();
    let mut i: usize = 0;
    while i < v.len()
        invariant
            i <= v.len(),
            views(out@) == views(v@).take(i as int),
        decreases v.len() - i,
    {
        out.push(v[i].clone());
        i += 1;
        assert(views(v@).take(i as int) =~= views(v@).take(i - 1).push(views(v@)[i - 1]));
    }
    assert(views(v@).take(v@.len() as int) =~= views(v@));
    out
}

/// Whether one of the strings of `v` holds the characters of `s`.
pub fn member(v: &[String], s: &str) -> (r: bool)
    ensures
        r == views(v@).contains(s@),
{
    let mut i: usize = 0;
    while i < v.len()
        invariant
            i <= v.len(),
            forall|j: int| 0 <= j < i ==> v@[j]@ != s@,
        decreases v.len() - i,
    {
        if same(&v[i], s) {
            assert(views(v@)[i as int] == s@);
            return true;
        }
        i += 1;
    }
    assert forall|j: int| 0 <= j < views(v@).len() implies views(v@)[j] != s@ by {
        assert(views(v@)[j] == v@[j]@);
    }
    false
}

// ---------------------------------------------------------------------------
// White space
// ---------------------------------------------------------------------------

/// Whether `c` has Unicode's `White_Space` property.
pub open spec fn white(c: char) -> bool {
    let n = c as u32;
    ||| 0x9 <= n <= 0xd
    ||| n == 0x20
    ||| n == 0x85
    ||| n == 0xa0
    ||| n == 0x1680
    ||| 0x2000 <= n <= 0x200a
    ||| n == 0x2028
    ||| n == 0x2029
    ||| n == 0x202f
    ||| n == 0x205f
    ||| n == 0x3000
}

pub fn is_white(c: char) -> (r: bool)
    ensures
        r == white(c),
{
    let n: u32 = c as u32;
    (0x9 <= n && n <= 0xd) || n == 0x20 || n == 0x85 || n == 0xa0 || n == 0x1680 || (0x2000 <= n
        && n <= 0x200a) || n == 0x2028 || n == 0x2029 || n == 0x202f || n == 0x205f || n == 0x3000
}

/// `s` without its leading white space.
pub open spec fn trim_start(s: Seq<char>) -> Seq<char>
    decreases s.len(),
{
    if s.len() > 0 && white(s[0]) {
        trim_start(s.skip(1))
    } else {
        s
    }
}

/// `s` without its trailing white space.
pub open spec fn trim_end(s: Seq<char>) -> Seq<char>
    decreases s.len(),
{
    if s.len() > 0 && white(s.last()) {
        trim_end(s.drop_last())
    } else {
        s
    }
}

/// `s` without the white space at either end.
pub open spec fn trimmed(s: Seq<char>) -> Seq<char> {
    trim_end(trim_start(s))
}

/// The first position at or after `from` that holds no white space.
fn skip_white(chars: &[char], from: usize) -> (r: usize)
    requires
        from <= chars@.len(),
    ensures
        from <= r <= chars@.len(),
        trim_start(chars@.skip(from as int)) == chars@.skip(r as int),
        r < chars@.len() ==> !white(chars@[r as int]),
{
    let mut i: usize = from;
    while i < chars.len() && is_white(chars[i])
        invariant
            from <= i <= chars@.len(),
            trim_start(chars@.skip(from as int)) == trim_start(chars@.skip(i as int)),
        decreases chars.len() - i,
    {
        assert(chars@.skip(i as int).skip(1) =~= chars@.skip(i + 1));
        assert(chars@.skip(i as int)[0] == chars@[i as int]);
        i += 1;
    }
    assert(i < chars@.len() ==> chars@.skip(i as int)[0] == chars@[i as int]);
    i
}

/// The length of `chars[from..]` without its trailing white space, as an end position.
fn drop_white(chars: &[char], from: usize) -> (r: usize)
    requires
        from <= chars@.len(),
    ensures
        from <= r <= chars@.len(),
        trim_end(chars@.skip(from as int)) == chars@.subrange(from as int, r as int),
{
    let mut end: usize = chars.len();
    assert(chars@.subrange(from as int, end as int) =~= chars@.skip(from as int));
    while end > from && is_white(chars[end - 1])
        invariant
            from <= end <= chars@.len(),
            trim_end(chars@.skip(from as int)) == trim_end(chars@.subrange(from as int, end as int)),
        decreases end,
    {
        let ghost t = chars@.subrange(from as int, end as int);
        assert(t.drop_last() =~= chars@.subrange(from as int, end - 1));
        assert(t.last() == chars@[end - 1]);
        end -= 1;
    }
    let ghost t = chars@.subrange(from as int, end as int);
    assert(end > from ==> t.last() == chars@[end - 1]);
    end
}

/// `s` without the white space at either end.
pub fn trim(s: &str) -> (out: String)
    ensures
        out@ == trimmed(s@),
{
    let x = chars_of(s);
    assert(x@.skip(0) =~= x@);
    let from = skip_white(&x, 0);
    let to = drop_white(&x, from);
    string_of(&x, from, to)
}

/// `s` without its trailing white space.
pub fn trim_right(s: &str) -> (out: String)
    ensures
        out@ == trim_end(s@),
{
    let x = chars_of(s);
    assert(x@.skip(0) =~= x@);
    let to = drop_white(&x, 0);
    string_of(&x, 0, to)
}

/// Whether `s` holds nothing but white space.
pub fn is_blank(s: &str) -> (r: bool)
    ensures
        r == (trimmed(s@).len() == 0),
{
    let t = trim(s);
    t.as_str().is_empty()
}

// ---------------------------------------------------------------------------
// Splitting and joining
// ---------------------------------------------------------------------------

/// The position of the first character of `s` that is `c`, or its length.
pub open spec fn index_of(s: Seq<char>, c: char) -> int
    decreases s.len(),
{
    if s.len() == 0 || s[0] == c {
        0
    } else {
        1 + index_of(s.skip(1), c)
    }
}

pub proof fn index_of_bounds(s: Seq<char>, c: char)
    ensures
        0 <= index_of(s, c) <= s.len(),
        index_of(s, c) < s.len() ==> s[index_of(s, c)] == c,
        forall|j: int| 0 <= j < index_of(s, c) ==> s[j] != c,
    decreases s.len(),
{
    if s.len() > 0 && s[0] != c {
        index_of_bounds(s.skip(1), c);
        assert forall|j: int| 0 <= j < index_of(s, c) implies s[j] != c by {
            if j > 0 {
                assert(s[j] == s.skip(1)[j - 1]);
            }
        }
    }
}

pub proof fn index_of_is(s: Seq<char>, c: char, at: int)
    requires
        0 <= at <= s.len(),
        at < s.len() ==> s[at] == c,
        forall|j: int| 0 <= j < at ==> s[j] != c,
    ensures
        index_of(s, c) == at,
{
    index_of_bounds(s, c);
}

/// Where the character last occurs in `s`.
pub open spec fn last_of(s: Seq<char>, c: char) -> Option<int>
    decreases s.len(),
{
    if s.len() == 0 {
        None
    } else if s.last() == c {
        Some(s.len() - 1)
    } else {
        last_of(s.drop_last(), c)
    }
}

pub proof fn last_of_bounds(s: Seq<char>, c: char)
    ensures
        last_of(s, c) matches Some(i) ==> 0 <= i < s.len() && s[i] == c,
    decreases s.len(),
{
    if s.len() > 0 && s.last() != c {
        last_of_bounds(s.drop_last(), c);
    }
}

/// Where the character last occurs among the first `end` of `chars`.
pub fn find_last(chars: &[char], c: char, end: usize) -> (r: Option<usize>)
    requires
        end <= chars@.len(),
    ensures
        match r {
            Some(i) => last_of(chars@.take(end as int), c) == Some(i as int) && i < end
                && chars@[i as int] == c,
            None => last_of(chars@.take(end as int), c) is None,
        },
{
    let mut i: usize = end;
    while i > 0
        invariant
            i <= end <= chars@.len(),
            last_of(chars@.take(end as int), c) == last_of(chars@.take(i as int), c),
        decreases i,
    {
        assert(chars@.take(i as int).drop_last() =~= chars@.take(i - 1));
        assert(chars@.take(i as int).last() == chars@[i - 1]);
        if chars[i - 1] == c {
            return Some(i - 1);
        }
        i -= 1;
    }
    None
}

/// A line without the carriage return that ended it.
pub open spec fn strip_cr(s: Seq<char>) -> Seq<char> {
    if s.len() > 0 && s.last() == '\r' {
        s.drop_last()
    } else {
        s
    }
}

/// The lines of `s`: what stands between line feeds, without the carriage
/// return before one. A line feed at the end starts no further line.
pub open spec fn lines(s: Seq<char>) -> Seq<Seq<char>>
    decreases s.len(),
{
    let n = index_of(s, '\n');
    if s.len() == 0 {
        seq![]
    } else if n < 0 || n >= s.len() {
        seq![s]
    } else {
        seq![strip_cr(s.take(n))] + lines(s.skip(n + 1))
    }
}

/// The lines of `s`, each as a string of its own.
pub fn lines_of(s: &str) -> (out: Vec<String>)
    ensures
        views(out@) == lines(s@),
{
    broadcast use views_push;

    let x = chars_of(s);
    let mut out: Vec<String> = Vec::new();
    let mut start: usize = 0;
    let mut i: usize = 0;
    assert(x@.skip(0) =~= x@);
    assert(views(out@) + lines(x@.skip(0)) =~= lines(x@));
    while i < x.len()
        invariant
            start <= i <= x@.len(),
            x@ == s@,
            views(out@) + lines(x@.skip(start as int)) == lines(s@),
            forall|j: int| start <= j < i ==> x@[j] != '\n',
        decreases x.len() - i,
    {
        if x[i] == '\n' {
            let ghost rest = x@.skip(start as int);
            proof {
                index_of_is(rest, '\n', i - start);
                assert(rest.take(i - start) =~= x@.subrange(start as int, i as int));
                assert(rest.skip(i - start + 1) =~= x@.skip(i + 1));
            }
            let end: usize = if i > start && x[i - 1] == '\r' { i - 1 } else { i };
            let line = string_of(&x, start, end);
            assert(line@ =~= strip_cr(rest.take(i - start)));
            out.push(line);
            assert(views(out@) + lines(x@.skip(i + 1)) =~= lines(s@));
            start = i + 1;
        }
        i += 1;
    }
    let ghost rest = x@.skip(start as int);
    proof {
        index_of_is(rest, '\n', rest.len() as int);
    }
    if start < x.len() {
        assert(x@.subrange(start as int, x@.len() as int) =~= rest);
        let line = string_of(&x, start, x.len());
        out.push(line);
    }
    assert(views(out@) =~= lines(s@));
    out
}

/// The pieces of `s` between the characters `c`.
pub open spec fn split(s: Seq<char>, c: char) -> Seq<Seq<char>>
    decreases s.len(),
{
    let n = index_of(s, c);
    if n < 0 || n >= s.len() {
        seq![s]
    } else {
        seq![s.take(n)] + split(s.skip(n + 1), c)
    }
}

/// The pieces of `s` between the characters `c`.
pub fn split_on(s: &str, c: char) -> (out: Vec<String>)
    ensures
        views(out@) == split(s@, c),
{
    broadcast use views_push;

    let x = chars_of(s);
    let mut out: Vec<String> = Vec::new();
    let mut start: usize = 0;
    let mut i: usize = 0;
    assert(x@.skip(0) =~= x@);
    assert(views(out@) + split(x@.skip(0), c) =~= split(x@, c));
    while i < x.len()
        invariant
            start <= i <= x@.len(),
            x@ == s@,
            views(out@) + split(x@.skip(start as int), c) == split(s@, c),
            forall|j: int| start <= j < i ==> x@[j] != c,
        decreases x.len() - i,
    {
        if x[i] == c {
            let ghost rest = x@.skip(start as int);
            proof {
                index_of_is(rest, c, i - start);
                assert(rest.take(i - start) =~= x@.subrange(start as int, i as int));
                assert(rest.skip(i - start + 1) =~= x@.skip(i + 1));
            }
            let piece = string_of(&x, start, i);
            out.push(piece);
            assert(views(out@) + split(x@.skip(i + 1), c) =~= split(s@, c));
            start = i + 1;
        }
        i += 1;
    }
    let ghost rest = x@.skip(start as int);
    proof {
        index_of_is(rest, c, rest.len() as int);
        assert(x@.subrange(start as int, x@.len() as int) =~= rest);
    }
    let piece = string_of(&x, start, x.len());
    out.push(piece);
    assert(views(out@) =~= split(s@, c));
    out
}

/// The length of the run of non-white characters that `s` starts with.
pub open spec fn word_end(s: Seq<char>) -> int
    decreases s.len(),
{
    if s.len() == 0 || white(s[0]) {
        0
    } else {
        1 + word_end(s.skip(1))
    }
}

pub proof fn word_end_bounds(s: Seq<char>)
    ensures
        0 <= word_end(s) <= s.len(),
        s.len() > 0 && !white(s[0]) ==> word_end(s) > 0,
    decreases s.len(),
{
    if s.len() > 0 && !white(s[0]) {
        word_end_bounds(s.skip(1));
    }
}

pub proof fn trim_start_shorter(s: Seq<char>)
    ensures
        trim_start(s).len() <= s.len(),
        trim_start(s).len() > 0 ==> !white(trim_start(s)[0]),
    decreases s.len(),
{
    if s.len() > 0 && white(s[0]) {
        trim_start_shorter(s.skip(1));
    }
}

/// The runs of non-white characters of `s`, in order.
pub open spec fn words(s: Seq<char>) -> Seq<Seq<char>>
    decreases s.len(),
    via words_shrinks
{
    let t = trim_start(s);
    let n = word_end(t);
    if t.len() == 0 {
        seq![]
    } else {
        seq![t.take(n)] + words(t.skip(n))
    }
}

#[via_fn]
proof fn words_shrinks(s: Seq<char>) {
    trim_start_shorter(s);
    word_end_bounds(trim_start(s));
}

/// The runs of non-white characters of `s`, each as a string of its own.
pub fn words_of(s: &str) -> (out: Vec<String>)
    ensures
        views(out@) == words(s@),
{
    broadcast use views_push;

    let x = chars_of(s);
    let mut out: Vec<String> = Vec::new();
    let mut at: usize = 0;
    assert(x@.skip(0) =~= x@);
    assert(views(out@) + words(x@.skip(0)) =~= words(x@));
    loop
        invariant
            at <= x@.len(),
            views(out@) + words(x@.skip(at as int)) == words(s@),
        ensures
            views(out@) == words(s@),
        decreases x.len() - at,
    {
        let start = skip_white(&x, at);
        if start >= x.len() {
            assert(words(x@.skip(at as int)) =~= seq![]);
            assert(views(out@) =~= words(s@));
            break;
        }
        let ghost t = x@.skip(start as int);
        let mut end: usize = start;
        assert(x@.skip(end as int) == t);
        while end < x.len() && !is_white(x[end])
            invariant
                start <= end <= x@.len(),
                t == x@.skip(start as int),
                word_end(t) == end - start + word_end(x@.skip(end as int)),
            decreases x.len() - end,
        {
            assert(x@.skip(end as int)[0] == x@[end as int]);
            assert(x@.skip(end as int).skip(1) =~= x@.skip(end + 1));
            end += 1;
        }
        assert(end < x@.len() ==> x@.skip(end as int)[0] == x@[end as int]);
        proof {
            word_end_bounds(t);
            assert(t[0] == x@[start as int]);
            assert(t.take(end - start) =~= x@.subrange(start as int, end as int));
            assert(t.skip(end - start) =~= x@.skip(end as int));
        }
        let word = string_of(&x, start, end);
        out.push(word);
        assert(views(out@) + words(x@.skip(end as int)) =~= words(s@));
        at = end;
    }
    out
}

/// The texts of `parts` with `sep` between each two.
pub open spec fn join(parts: Seq<Seq<char>>, sep: Seq<char>) -> Seq<char>
    decreases parts.len(),
{
    if parts.len() == 0 {
        seq![]
    } else if parts.len() == 1 {
        parts[0]
    } else {
        join(parts.drop_last(), sep) + sep + parts.last()
    }
}

/// The strings of `parts` with `sep` between each two.
pub fn join_with(parts: &[String], sep: &str) -> (out: String)
    ensures
        out@ == join(views(parts@), sep@),
{
    let mut out = String::new();
    let mut i: usize = 0;
    let ghost all = views(parts@);
    assert(all.take(0) =~= seq![]);
    while i < parts.len()
        invariant
            i <= parts@.len(),
            all == views(parts@),
            out@ == join(all.take(i as int), sep@),
        decreases parts.len() - i,
    {
        if i > 0 {
            out.push_str(sep);
        }
        out.push_str(&parts[i]);
        proof {
            let next = all.take(i + 1);
            assert(next.drop_last() =~= all.take(i as int));
            assert(next.last() == parts@[i as int]@);
            if i == 0 {
                assert(out@ =~= next[0]);
            }
        }
        i += 1;
    }
    assert(all.take(all.len() as int) =~= all);
    out
}

/// The pieces of `s` between the occurrences of `sep`, given that a piece starts
/// at `start` and that no occurrence starts between there and `at`.
pub open spec fn pieces(s: Seq<char>, sep: Seq<char>, start: int, at: int) -> Seq<Seq<char>>
    decreases s.len() - at,
{
    if sep.len() == 0 || at < 0 || at + sep.len() > s.len() {
        seq![s.skip(start)]
    } else if occurs_at(s, sep, at) {
        seq![s.subrange(start, at)] + pieces(s, sep, at + sep.len(), at + sep.len())
    } else {
        pieces(s, sep, start, at + 1)
    }
}

/// The pieces of `s` between the occurrences of `sep`.
pub open spec fn split_text(s: Seq<char>, sep: Seq<char>) -> Seq<Seq<char>> {
    pieces(s, sep, 0, 0)
}

/// The pieces of `s` between the occurrences of a separator that is not empty.
pub fn split_by(s: &str, sep: &str) -> (out: Vec<String>)
    requires
        sep@.len() > 0,
    ensures
        views(out@) == split_text(s@, sep@),
{
    broadcast use views_push;

    let x = chars_of(s);
    let y = chars_of(sep);
    let total: usize = x.len();
    let mut out: Vec<String> = Vec::new();
    let mut start: usize = 0;
    let mut at: usize = 0;
    assert(views(out@) + pieces(s@, sep@, 0, 0) =~= pieces(s@, sep@, 0, 0));
    while total - at >= y.len()
        invariant
            start <= at <= total,
            total == x@.len(),
            x@ == s@,
            y@ == sep@,
            y@.len() > 0,
            views(out@) + pieces(s@, sep@, start as int, at as int) == pieces(s@, sep@, 0, 0),
        decreases total - at,
    {
        if matches_at(&x, at, &y) {
            let piece = string_of(&x, start, at);
            let ghost before = views(out@);
            out.push(piece);
            assert(views(out@) + pieces(s@, sep@, at + sep@.len(), at + sep@.len()) =~= before
                + pieces(s@, sep@, start as int, at as int));
            at += y.len();
            start = at;
        } else {
            at += 1;
        }
    }
    assert(x@.subrange(start as int, total as int) =~= s@.skip(start as int));
    let piece = string_of(&x, start, total);
    out.push(piece);
    assert(views(out@) =~= pieces(s@, sep@, 0, 0));
    out
}

/// A text that falls into several pieces holds the separator.
pub proof fn pieces_are_apart(s: Seq<char>, sep: Seq<char>, start: int, at: int)
    requires
        pieces(s, sep, start, at).len() > 1,
    ensures
        contains(s, sep),
    decreases s.len() - at,
{
    if sep.len() == 0 || at < 0 || at + sep.len() > s.len() {
    } else if occurs_at(s, sep, at) {
        assert(contains(s, sep));
    } else {
        pieces_are_apart(s, sep, start, at + 1);
    }
}

/// `s` without the characters `c` it starts with.
pub open spec fn strip_front(s: Seq<char>, c: char) -> Seq<char>
    decreases s.len(),
{
    if s.len() > 0 && s[0] == c {
        strip_front(s.skip(1), c)
    } else {
        s
    }
}

/// `s` without the characters `c` it ends with.
pub open spec fn strip_back(s: Seq<char>, c: char) -> Seq<char>
    decreases s.len(),
{
    if s.len() > 0 && s.last() == c {
        strip_back(s.drop_last(), c)
    } else {
        s
    }
}

/// `s` without the characters `c` at its end.
pub fn trim_back(s: &str, c: char) -> (out: String)
    ensures
        out@ == strip_back(s@, c),
{
    let x = chars_of(s);
    let mut end: usize = x.len();
    assert(x@.subrange(0, end as int) =~= x@);
    while end > 0 && x[end - 1] == c
        invariant
            end <= x@.len(),
            strip_back(x@, c) == strip_back(x@.subrange(0, end as int), c),
        decreases end,
    {
        assert(x@.subrange(0, end as int).drop_last() =~= x@.subrange(0, end - 1));
        assert(x@.subrange(0, end as int).last() == x@[end - 1]);
        end -= 1;
    }
    assert(end > 0 ==> x@.subrange(0, end as int).last() == x@[end - 1]);
    string_of(&x, 0, end)
}

/// `s` without the characters `c` at its start.
pub fn trim_front(s: &str, c: char) -> (out: String)
    ensures
        out@ == strip_front(s@, c),
{
    let x = chars_of(s);
    let mut from: usize = 0;
    assert(x@.skip(0) =~= x@);
    while from < x.len() && x[from] == c
        invariant
            from <= x@.len(),
            strip_front(x@, c) == strip_front(x@.skip(from as int), c),
        decreases x.len() - from,
    {
        assert(x@.skip(from as int).skip(1) =~= x@.skip(from + 1));
        assert(x@.skip(from as int)[0] == x@[from as int]);
        from += 1;
    }
    assert(from < x@.len() ==> x@.skip(from as int)[0] == x@[from as int]);
    assert(x@.subrange(from as int, x@.len() as int) =~= x@.skip(from as int));
    string_of(&x, from, x.len())
}

/// `s` without the copies of `prefix` it starts with.
pub open spec fn unprefixed(s: Seq<char>, prefix: Seq<char>) -> Seq<char>
    decreases s.len(),
{
    if prefix.len() > 0 && prefix.is_prefix_of(s) {
        unprefixed(s.skip(prefix.len() as int), prefix)
    } else {
        s
    }
}

/// `s` without the copies of `prefix` it starts with.
pub fn trim_prefixes(s: &str, prefix: &str) -> (out: String)
    requires
        prefix@.len() > 0,
    ensures
        out@ == unprefixed(s@, prefix@),
{
    let x = chars_of(s);
    let y = chars_of(prefix);
    let mut from: usize = 0;
    assert(x@.skip(0) =~= x@);
    while matches_at(&x, from, &y)
        invariant
            from <= x@.len(),
            y@ == prefix@,
            y@.len() > 0,
            unprefixed(x@, prefix@) == unprefixed(x@.skip(from as int), prefix@),
        decreases x.len() - from,
    {
        let ghost rest = x@.skip(from as int);
        assert(rest.subrange(0, y@.len() as int) =~= x@.subrange(from as int, from + y@.len()));
        assert(prefix@.is_prefix_of(rest));
        assert(rest.skip(y@.len() as int) =~= x@.skip(from + y@.len()));
        from += y.len();
    }
    let ghost rest = x@.skip(from as int);
    assert(!prefix@.is_prefix_of(rest)) by {
        if prefix@.is_prefix_of(rest) {
            assert(rest.subrange(0, y@.len() as int) =~= x@.subrange(
                from as int,
                from + y@.len(),
            ));
        }
    }
    assert(x@.subrange(from as int, x@.len() as int) =~= rest);
    string_of(&x, from, x.len())
}

/// The text `{:?}` writes for a string: in quotes, with escapes.
pub uninterp spec fn quoted(s: Seq<char>) -> Seq<char>;

/// `format!` with `{:?}` on a string, which puts it in quotes and escapes what
/// cannot stand there. Which characters are escaped, and how, is not stated.
#[verifier::external_body]
pub(crate) fn quote(s: &str) -> (out: String)
    ensures
        out@ == quoted(s@),
{
    format!("{:?}", s)
}

/// The text `str::to_lowercase` gives back.
pub uninterp spec fn lowercased(s: Seq<char>) -> Seq<char>;

/// `str::to_lowercase`: the lower-case equivalent of a text, by Unicode's
/// `Lowercase` mapping. What that mapping is, is not stated.
#[verifier::external_body]
pub(crate) fn lowercase(s: &str) -> (out: String)
    ensures
        out@ == lowercased(s@),
{
    s.to_lowercase()
}

/// A line feed ends the line before it, whatever follows.
pub proof fn lines_append(a: Seq<char>, b: Seq<char>)
    ensures
        lines(a + seq!['\n'] + b) == lines(a + seq!['\n']) + lines(b),
    decreases a.len(),
{
    let head = a + seq!['\n'];
    let whole = head + b;
    let n = index_of(head, '\n');
    index_of_bounds(head, '\n');
    assert(n <= a.len()) by {
        if n > a.len() {
            assert(head[a.len() as int] == '\n');
        }
    }
    assert forall|j: int| 0 <= j < n implies whole[j] != '\n' by {
        assert(whole[j] == head[j]);
    }
    assert(whole[n] == head[n]);
    index_of_is(whole, '\n', n);
    assert(whole.take(n) =~= head.take(n));
    if n == a.len() {
        assert(head.skip(n + 1) =~= seq![]);
        assert(lines(head.skip(n + 1)) =~= seq![]);
        assert(whole.skip(n + 1) =~= b);
        assert(lines(whole) =~= lines(head) + lines(b));
    } else {
        let rest = a.skip(n + 1);
        lines_append(rest, b);
        assert(head.skip(n + 1) =~= rest + seq!['\n']);
        assert(whole.skip(n + 1) =~= rest + seq!['\n'] + b);
        assert(lines(whole) =~= lines(head) + lines(b));
    }
}

/// A line feed at the end starts no further line, and ends none that was not
/// there, unless a carriage return stands before it.
pub proof fn lines_terminated(a: Seq<char>)
    requires
        a.len() > 0,
        a.last() != '\n',
        a.last() != '\r',
    ensures
        lines(a + seq!['\n']) == lines(a),
    decreases a.len(),
{
    let whole = a + seq!['\n'];
    let n = index_of(a, '\n');
    index_of_bounds(a, '\n');
    assert forall|j: int| 0 <= j < n implies whole[j] != '\n' by {
        assert(whole[j] == a[j]);
    }
    if n == a.len() {
        index_of_is(whole, '\n', n);
        assert(whole.take(n) =~= a);
        assert(whole.skip(n + 1) =~= seq![]);
        assert(lines(whole.skip(n + 1)) =~= seq![]);
        assert(lines(whole) =~= seq![a]);
    } else {
        assert(whole[n] == a[n]);
        index_of_is(whole, '\n', n);
        assert(whole.take(n) =~= a.take(n));
        assert(whole.skip(n + 1) =~= a.skip(n + 1) + seq!['\n']);
        assert(n < a.len() - 1);
        assert(a.skip(n + 1).last() == a.last());
        lines_terminated(a.skip(n + 1));
    }
}

pub proof fn join_cons(parts: Seq<Seq<char>>, sep: Seq<char>)
    requires
        parts.len() >= 2,
    ensures
        join(parts, sep) == parts[0] + sep + join(parts.skip(1), sep),
    decreases parts.len(),
{
    let front = parts.drop_last();
    if parts.len() == 2 {
        assert(join(front, sep) == parts[0]);
        assert(parts.skip(1).len() == 1);
        assert(join(parts.skip(1), sep) == parts[1]);
    } else {
        join_cons(front, sep);
        assert(parts.skip(1).drop_last() =~= front.skip(1));
        assert(parts.skip(1).last() == parts.last());
        assert(join(parts, sep) =~= parts[0] + sep + join(parts.skip(1), sep));
    }
}

/// Whether `all` is what some text falls into as lines: no line holds a line
/// feed, only the last may end in a carriage return, and the last is not empty.
pub open spec fn proper_lines(all: Seq<Seq<char>>) -> bool {
    &&& forall|i: int| 0 <= i < all.len() ==> !(#[trigger] all[i]).contains('\n')
    &&& forall|i: int| 0 <= i < all.len() - 1 ==> strip_cr(#[trigger] all[i]) == all[i]
    &&& all.len() > 0 ==> all.last().len() > 0
}

/// Splitting joined lines gives them back.
pub proof fn lines_of_joined(all: Seq<Seq<char>>)
    requires
        proper_lines(all),
    ensures
        lines(join(all, "\n"@)) == all,
    decreases all.len(),
{
    reveal_strlit("\n");
    let text = join(all, "\n"@);
    if all.len() == 0 {
    } else if all.len() == 1 {
        assert(!all[0].contains('\n'));
        index_of_is(text, '\n', text.len() as int);
        assert(lines(text) =~= all);
    } else {
        join_cons(all, "\n"@);
        let first = all[0];
        let rest = all.skip(1);
        assert(proper_lines(rest)) by {
            assert forall|i: int| 0 <= i < rest.len() implies !(#[trigger] rest[i]).contains(
                '\n',
            ) by {
                assert(rest[i] == all[i + 1]);
            }
            assert forall|i: int| 0 <= i < rest.len() - 1 implies strip_cr(#[trigger] rest[i])
                == rest[i] by {
                assert(rest[i] == all[i + 1]);
            }
            assert(rest.last() == all.last());
        }
        lines_of_joined(rest);
        assert(!first.contains('\n'));
        assert forall|j: int| 0 <= j < first.len() implies text[j] != '\n' by {
            assert(text[j] == first[j]);
            assert(first.contains(first[j]));
        }
        assert(text[first.len() as int] == '\n');
        index_of_is(text, '\n', first.len() as int);
        assert(text.take(first.len() as int) =~= first);
        assert(text.skip(first.len() as int + 1) =~= join(rest, "\n"@));
        assert(strip_cr(first) == first);
        assert(lines(text) =~= all);
    }
}

// ---------------------------------------------------------------------------
// Numbers
// ---------------------------------------------------------------------------

/// The decimal digit of `n`.
pub open spec fn digit(n: int) -> char {
    (0x30 + n) as char
}

/// `n` in decimal, without leading zeros.
pub open spec fn decimal(n: nat) -> Seq<char>
    decreases n,
{
    if n < 10 {
        seq![digit(n as int)]
    } else {
        decimal(n / 10).push(digit((n % 10) as int))
    }
}

/// `n` in decimal.
pub fn number(n: u64) -> (out: String)
    ensures
        out@ == decimal(n as nat),
    decreases n,
{
    if n < 10 {
        let mut out = String::new();
        out.push(digit_char(n as u8));
        assert(out@ =~= decimal(n as nat));
        out
    } else {
        let mut out = number(n / 10);
        out.push(digit_char((n % 10) as u8));
        out
    }
}

fn digit_char(d: u8) -> (c: char)
    requires
        d < 10,
    ensures
        c == digit(d as int),
{
    (0x30u8 + d) as char
}

/// `n` in decimal.
pub fn count(n: usize) -> (out: String)
    ensures
        out@ == decimal(n as nat),
{
    number(n as u64)
}

/// A signed number in decimal.
pub open spec fn signed(n: int) -> Seq<char> {
    if n < 0 {
        seq!['-'] + decimal((-n) as nat)
    } else {
        decimal(n as nat)
    }
}

/// `n` in decimal, with a minus sign where it is negative.
pub fn signed_number(n: i64) -> (out: String)
    ensures
        out@ == signed(n as int),
{
    if n < 0 {
        let mut out = String::new();
        out.push('-');
        let rest = number((-(n + 1)) as u64 + 1);
        out.push_str(&rest);
        assert(out@ =~= signed(n as int));
        out
    } else {
        number(n as u64)
    }
}

/// Whether `c` is a decimal digit.
pub open spec fn is_digit(c: char) -> bool {
    '0' <= c <= '9'
}

/// Whether `s` is made of decimal digits alone.
pub open spec fn all_digits(s: Seq<char>) -> bool {
    forall|i: int| 0 <= i < s.len() ==> is_digit(#[trigger] s[i])
}

/// The number that a run of digits denotes.
pub open spec fn value_of(s: Seq<char>) -> nat
    decreases s.len(),
{
    if s.len() == 0 {
        0
    } else {
        (value_of(s.drop_last()) * 10 + (s.last() as int - 0x30)) as nat
    }
}

/// `s` without a leading plus sign.
pub open spec fn unplus(s: Seq<char>) -> Seq<char> {
    if s.len() > 0 && s[0] == '+' {
        s.skip(1)
    } else {
        s
    }
}

/// The number `s` reads as: digits, with an optional plus sign before them,
/// whose value is at most `max`.
pub open spec fn parsed(s: Seq<char>, max: nat) -> Option<nat> {
    let digits = unplus(s);
    if digits.len() > 0 && all_digits(digits) && value_of(digits) <= max {
        Some(value_of(digits))
    } else {
        None
    }
}

/// What an optional number is.
pub open spec fn opt_nat(n: Option<usize>) -> Option<nat> {
    match n {
        Some(n) => Some(n as nat),
        None => None,
    }
}

pub proof fn value_of_grows(s: Seq<char>, n: int)
    requires
        0 <= n <= s.len(),
        all_digits(s),
    ensures
        value_of(s.take(n)) <= value_of(s),
    decreases s.len() - n,
{
    if n < s.len() {
        value_of_grows(s, n + 1);
        assert(s.take(n + 1).drop_last() =~= s.take(n));
        assert(is_digit(s[n]));
        assert(s.take(n + 1).last() == s[n]);
    } else {
        assert(s.take(n) =~= s);
    }
}

/// A number written in decimal reads back as itself.
pub proof fn decimal_reads_back(n: nat)
    ensures
        decimal(n).len() > 0,
        all_digits(decimal(n)),
        value_of(decimal(n)) == n,
    decreases n,
{
    if n < 10 {
        assert(decimal(n).drop_last() =~= seq![]);
        assert(value_of(Seq::<char>::empty()) == 0);
        assert(decimal(n).last() == digit(n as int));
    } else {
        decimal_reads_back(n / 10);
        let front = decimal(n / 10);
        let last = digit((n % 10) as int);
        assert(decimal(n).drop_last() =~= front);
        assert(decimal(n).last() == last);
        assert forall|i: int| 0 <= i < decimal(n).len() implies is_digit(
            #[trigger] decimal(n)[i],
        ) by {
            if i < front.len() {
                assert(decimal(n)[i] == front[i]);
            }
        }
        assert(n == (n / 10) * 10 + n % 10) by (nonlinear_arith);
    }
}

/// Different numbers are written differently.
pub proof fn decimal_is_unique(a: nat, b: nat)
    requires
        decimal(a) == decimal(b),
    ensures
        a == b,
{
    decimal_reads_back(a);
    decimal_reads_back(b);
}

/// The number `s` reads as, where it is one that fits.
pub fn parse_count(s: &str) -> (r: Option<usize>)
    ensures
        opt_nat(r) == parsed(s@, usize::MAX as nat),
{
    let x = chars_of(s);
    let from: usize = if x.len() > 0 && x[0] == '+' { 1 } else { 0 };
    let ghost digits = unplus(s@);
    assert(digits =~= x@.skip(from as int));
    if from >= x.len() {
        return None;
    }
    let mut n: usize = 0;
    let mut i: usize = from;
    assert(digits.take(0) =~= seq![]);
    while i < x.len()
        invariant
            from <= i <= x@.len(),
            from < x@.len(),
            x@ == s@,
            digits == unplus(s@),
            digits == x@.skip(from as int),
            n == value_of(digits.take(i - from)),
            all_digits(digits.take(i - from)),
        decreases x.len() - i,
    {
        let c = x[i];
        assert(digits[i - from] == c);
        if !(c >= '0' && c <= '9') {
            assert(!is_digit(digits[i - from]));
            return None;
        }
        let d: usize = (c as u32 - 0x30) as usize;
        let ghost next = digits.take(i - from + 1);
        proof {
            assert(next.drop_last() =~= digits.take(i - from));
            assert(next.last() == c);
            assert(value_of(next) == n * 10 + d);
            if all_digits(digits) {
                value_of_grows(digits, i - from + 1);
            }
            assert forall|j: int| 0 <= j < next.len() implies is_digit(#[trigger] next[j]) by {
                if j < i - from {
                    assert(next[j] == digits.take(i - from)[j]);
                }
            }
        }
        match n.checked_mul(10) {
            None => {
                return None;
            },
            Some(m) => match m.checked_add(d) {
                None => {
                    return None;
                },
                Some(k) => {
                    n = k;
                },
            },
        }
        i += 1;
    }
    assert(digits.take(digits.len() as int) =~= digits);
    Some(n)
}

// ---------------------------------------------------------------------------
// Bytes
// ---------------------------------------------------------------------------

/// The number of bytes of `c` in UTF-8.
pub open spec fn width(c: char) -> nat {
    let n = c as u32;
    if n < 0x80 {
        1
    } else if n < 0x800 {
        2
    } else if n < 0x10000 {
        3
    } else {
        4
    }
}

pub fn char_width(c: char) -> (w: usize)
    ensures
        w == width(c),
{
    let n: u32 = c as u32;
    if n < 0x80 {
        1
    } else if n < 0x800 {
        2
    } else if n < 0x10000 {
        3
    } else {
        4
    }
}

/// The number of bytes of `s` in UTF-8.
pub open spec fn byte_len(s: Seq<char>) -> nat
    decreases s.len(),
{
    if s.len() == 0 {
        0
    } else {
        byte_len(s.drop_last()) + width(s.last())
    }
}

pub proof fn byte_len_cons(s: Seq<char>)
    requires
        s.len() > 0,
    ensures
        byte_len(s) == width(s[0]) + byte_len(s.skip(1)),
    decreases s.len(),
{
    if s.len() == 1 {
        assert(s.drop_last() =~= seq![]);
        assert(s.skip(1) =~= seq![]);
    } else {
        byte_len_cons(s.drop_last());
        assert(s.drop_last().skip(1) =~= s.skip(1).drop_last());
    }
}

pub proof fn byte_len_encoded(s: Seq<char>)
    ensures
        vstd::utf8::encode_utf8(s).len() == byte_len(s),
    decreases s.len(),
{
    if s.len() > 0 {
        byte_len_encoded(s.drop_first());
        byte_len_cons(s);
        assert(s.drop_first() =~= s.skip(1));
        let c = s[0] as u32;
        vstd::utf8::char_is_scalar(s[0]);
        assert(vstd::utf8::has_width_1_encoding(c) == (c < 0x80));
        assert(vstd::utf8::has_width_2_encoding(c) == (0x80 <= c < 0x800));
        assert(vstd::utf8::has_width_3_encoding(c) == (0x800 <= c < 0x10000));
        assert(vstd::utf8::encode_scalar(c).len() == width(s[0]));
    }
}

pub proof fn byte_len_append(a: Seq<char>, b: Seq<char>)
    ensures
        byte_len(a + b) == byte_len(a) + byte_len(b),
    decreases b.len(),
{
    if b.len() == 0 {
        assert(a + b =~= a);
    } else {
        byte_len_append(a, b.drop_last());
        assert((a + b).drop_last() =~= a + b.drop_last());
    }
}

/// The number of bytes of `s` in UTF-8.
pub fn size(s: &str) -> (n: usize)
    ensures
        n == byte_len(s@),
{
    proof {
        byte_len_encoded(s@);
    }
    s.as_bytes().len()
}

// ---------------------------------------------------------------------------
// What holds of splitting and joining
// ---------------------------------------------------------------------------

/// Two lists joined one after the other are joined with the separator between.
pub proof fn join_append(a: Seq<Seq<char>>, b: Seq<Seq<char>>, sep: Seq<char>)
    requires
        a.len() > 0,
        b.len() > 0,
    ensures
        join(a + b, sep) == join(a, sep) + sep + join(b, sep),
    decreases b.len(),
{
    let whole = a + b;
    assert(whole.last() == b.last());
    assert(whole.drop_last() =~= a + b.drop_last());
    if b.len() == 1 {
        assert(whole.drop_last() =~= a);
        assert(join(b, sep) == b[0]);
    } else {
        join_append(a, b.drop_last(), sep);
        assert(join(whole, sep) =~= join(a, sep) + sep + join(b, sep));
    }
}

/// How long the joined texts are, for one separator against another: the difference
/// comes from the places between, one fewer than the texts.
pub proof fn joined_lengths(parts: Seq<Seq<char>>, a: Seq<char>, b: Seq<char>)
    requires
        parts.len() > 0,
    ensures
        join(parts, a).len() - join(parts, b).len() == (parts.len() - 1) * (a.len() - b.len()),
    decreases parts.len(),
{
    let n = parts.len() as int;
    let d = a.len() - b.len();
    if n > 1 {
        joined_lengths(parts.drop_last(), a, b);
        assert((n - 1) * d == (n - 2) * d + d) by (nonlinear_arith);
    } else {
        assert((n - 1) * d == 0) by (nonlinear_arith)
            requires
                n == 1,
        ;
    }
}

/// What stands in a part of a text stands in the text.
pub proof fn occurs_in_the_whole(s: Seq<char>, from: int, to: int, sub: Seq<char>, at: int)
    requires
        0 <= from <= to <= s.len(),
        occurs_at(s.subrange(from, to), sub, at),
    ensures
        occurs_at(s, sub, from + at),
{
    assert(s.subrange(from + at, from + at + sub.len()) =~= s.subrange(from, to).subrange(
        at,
        at + sub.len(),
    ));
}

proof fn first_piece(s: Seq<char>, sep: Seq<char>, start: int, at: int)
    requires
        0 <= start <= at,
        occurs_at(s, sep, at),
        forall|j: int| start <= j < at ==> !occurs_at(s, sep, j),
    ensures
        first_at(s.subrange(start, at) + sep, sep, at - start),
{
    let next = at + sep.len();
    let ended = s.subrange(start, at) + sep;
    assert(ended == s.subrange(start, next)) by {
        assert(s.subrange(at, next) == sep);
        assert(ended =~= s.subrange(start, next));
    }
    assert(occurs_at(ended, sep, at - start)) by {
        assert(ended.subrange(at - start, at - start + sep.len()) =~= s.subrange(at, next));
    }
    assert forall|j: int| 0 <= j < at - start implies !occurs_at(ended, sep, j) by {
        if occurs_at(ended, sep, j) {
            occurs_in_the_whole(s, start, next, sep, j);
            assert(occurs_at(s, sep, start + j));
        }
    }
}

/// Between the occurrences of a separator stand the texts that, joined by it, are the
/// text again. Each ends where the separator is first found behind it, and the last
/// holds none.
#[verifier::rlimit(50)]
pub proof fn pieces_stand_between(s: Seq<char>, sep: Seq<char>, start: int, at: int)
    requires
        sep.len() > 0,
        0 <= start <= at,
        start <= s.len(),
        forall|j: int| start <= j < at ==> !occurs_at(s, sep, j),
    ensures
        ({
            let all = pieces(s, sep, start, at);
            &&& all.len() >= 1
            &&& join(all, sep) == s.skip(start)
            &&& forall|k: int|
                0 <= k < all.len() - 1 ==> first_at(
                    (#[trigger] all[k]) + sep,
                    sep,
                    all[k].len() as int,
                )
            &&& !contains(all.last(), sep)
        }),
    decreases s.len() - at,
{
    let all = pieces(s, sep, start, at);
    if at + sep.len() > s.len() {
        let rest = s.skip(start);
        assert forall|j: int| !occurs_at(rest, sep, j) by {
            if occurs_at(rest, sep, j) {
                assert(rest =~= s.subrange(start, s.len() as int));
                occurs_in_the_whole(s, start, s.len() as int, sep, j);
            }
        }
    } else if occurs_at(s, sep, at) {
        let next = at + sep.len();
        let first = s.subrange(start, at);
        let others = pieces(s, sep, next, next);
        pieces_stand_between(s, sep, next, next);
        join_append(seq![first], others, sep);
        assert(all =~= seq![first] + others);
        assert(join(seq![first], sep) == first);
        assert(first + sep + s.skip(next) =~= s.skip(start)) by {
            assert(s.subrange(at, next) == sep);
        }
        first_piece(s, sep, start, at);
        assert forall|k: int| 0 <= k < all.len() - 1 implies first_at(
            (#[trigger] all[k]) + sep,
            sep,
            all[k].len() as int,
        ) by {
            if k > 0 {
                assert(all[k] == others[k - 1]);
            }
        }
        assert(all.last() == others.last());
    } else {
        pieces_stand_between(s, sep, start, at + 1);
    }
}

/// A text that is split at a separator falls into the texts that, joined by it, are
/// the text again; each ends where the separator is first found behind it, and the
/// last holds none.
pub proof fn split_text_stands_between(s: Seq<char>, sep: Seq<char>)
    requires
        sep.len() > 0,
    ensures
        split_text(s, sep).len() >= 1,
        join(split_text(s, sep), sep) == s,
        forall|k: int|
            0 <= k < split_text(s, sep).len() - 1 ==> first_at(
                (#[trigger] split_text(s, sep)[k]) + sep,
                sep,
                split_text(s, sep)[k].len() as int,
            ),
        !contains(split_text(s, sep).last(), sep),
{
    pieces_stand_between(s, sep, 0, 0);
    assert(s.skip(0) =~= s);
}

/// A text that is split at a character falls into the texts that, joined by it, are
/// the text again, and none of them holds it.
pub proof fn split_stands_between(s: Seq<char>, c: char)
    ensures
        split(s, c).len() >= 1,
        join(split(s, c), seq![c]) == s,
        forall|k: int| 0 <= k < split(s, c).len() ==> !(#[trigger] split(s, c)[k]).contains(c),
    decreases s.len(),
{
    let n = index_of(s, c);
    index_of_bounds(s, c);
    let all = split(s, c);
    if n < s.len() {
        let first = s.take(n);
        let rest = s.skip(n + 1);
        split_stands_between(rest, c);
        join_append(seq![first], split(rest, c), seq![c]);
        assert(join(seq![first], seq![c]) == first);
        assert(first + seq![c] + rest =~= s);
        assert forall|k: int| 0 <= k < all.len() implies !(#[trigger] all[k]).contains(c) by {
            if k > 0 {
                assert(all[k] == split(rest, c)[k - 1]);
            }
        }
    } else {
        assert(all =~= seq![s]);
        assert(!s.contains(c));
    }
}

/// The lines of a text are what stands between its line feeds, without the carriage
/// return before one; nothing behind the last line feed is no line.
pub proof fn lines_stand_between(s: Seq<char>)
    ensures
        ({
            let parts = split(s, '\n');
            let n = lines(s).len() as int;
            &&& n == (if parts.last().len() == 0 {
                parts.len() - 1
            } else {
                parts.len() as int
            })
            &&& forall|i: int|
                0 <= i < n ==> (#[trigger] lines(s)[i] == (if i < parts.len() - 1
                    && parts[i].len() > 0 && parts[i].last() == '\r' {
                    parts[i].drop_last()
                } else {
                    parts[i]
                }))
        }),
    decreases s.len(),
{
    let n = index_of(s, '\n');
    index_of_bounds(s, '\n');
    let parts = split(s, '\n');
    if n < s.len() {
        let rest = s.skip(n + 1);
        lines_stand_between(rest);
        let others = split(rest, '\n');
        split_stands_between(rest, '\n');
        assert(parts =~= seq![s.take(n)] + others);
        assert(parts.last() == others.last());
        assert forall|i: int| 0 <= i < lines(s).len() implies (#[trigger] lines(s)[i] == (if i
            < parts.len() - 1 && parts[i].len() > 0 && parts[i].last() == '\r' {
            parts[i].drop_last()
        } else {
            parts[i]
        })) by {
            if i > 0 {
                assert(lines(s)[i] == lines(rest)[i - 1]);
                assert(parts[i] == others[i - 1]);
            }
        }
    } else {
        assert(parts =~= seq![s]);
    }
}

/// A trimmed text is what is left of the text between the white space around it.
pub proof fn trimming_takes_white_space(s: Seq<char>)
    ensures
        exists|a: int, b: int|
            #![trigger s.subrange(a, b)]
            0 <= a <= b <= s.len() && trimmed(s) == s.subrange(a, b) && (forall|i: int|
                0 <= i < a || b <= i < s.len() ==> white(#[trigger] s[i])) && (a < b ==> !white(
                s[a],
            ) && !white(s[b - 1])),
{
    let t = trim_start(s);
    trim_start_keeps(s);
    trim_end_keeps(t);
    let a = s.len() - t.len();
    let b = a + trimmed(s).len();
    assert(trimmed(s) =~= s.subrange(a, b));
    assert forall|i: int| 0 <= i < a || b <= i < s.len() implies white(#[trigger] s[i]) by {
        if i >= b {
            assert(t[i - a] == s[i]);
        }
    }
    if a < b {
        assert(t[0] == s[a]);
        assert(trimmed(s).last() == s[b - 1]);
    }
}

proof fn trim_start_keeps(s: Seq<char>)
    ensures
        trim_start(s).len() <= s.len(),
        trim_start(s) == s.skip(s.len() - trim_start(s).len()),
        forall|i: int| 0 <= i < s.len() - trim_start(s).len() ==> white(#[trigger] s[i]),
        trim_start(s).len() > 0 ==> !white(trim_start(s)[0]),
    decreases s.len(),
{
    if s.len() > 0 && white(s[0]) {
        let rest = s.skip(1);
        trim_start_keeps(rest);
        assert(rest.skip(rest.len() - trim_start(s).len()) =~= s.skip(
            s.len() - trim_start(s).len(),
        ));
        assert forall|i: int| 0 <= i < s.len() - trim_start(s).len() implies white(
            #[trigger] s[i],
        ) by {
            if i > 0 {
                assert(rest[i - 1] == s[i]);
            }
        }
    } else {
        assert(s.skip(0) =~= s);
    }
}

proof fn trim_end_keeps(s: Seq<char>)
    ensures
        trim_end(s).len() <= s.len(),
        trim_end(s) == s.take(trim_end(s).len() as int),
        forall|i: int| trim_end(s).len() <= i < s.len() ==> white(#[trigger] s[i]),
        trim_end(s).len() > 0 ==> !white(trim_end(s).last()),
    decreases s.len(),
{
    if s.len() > 0 && white(s.last()) {
        let rest = s.drop_last();
        trim_end_keeps(rest);
        assert(rest.take(trim_end(s).len() as int) =~= s.take(trim_end(s).len() as int));
        assert forall|i: int| trim_end(s).len() <= i < s.len() implies white(#[trigger] s[i]) by {
            if i < rest.len() {
                assert(rest[i] == s[i]);
            }
        }
    } else {
        assert(s.take(s.len() as int) =~= s);
    }
}

/// Parts put one after the other, one more at the end.
pub proof fn one_more(parts: Seq<Seq<char>>, part: Seq<char>)
    ensures
        parts.push(part).flatten() == parts.flatten() + part,
{
    parts.lemma_flatten_push(part);
}

proof fn pieces_move(s: Seq<char>, k: int, sep: Seq<char>, start: int, at: int)
    requires
        0 <= k,
        0 <= start <= at,
        k + start <= s.len(),
    ensures
        pieces(s, sep, k + start, k + at) == pieces(s.skip(k), sep, start, at),
    decreases s.len() - k - at,
{
    let rest = s.skip(k);
    if sep.len() == 0 || at + sep.len() > rest.len() {
        assert(s.skip(k + start) =~= rest.skip(start));
    } else {
        assert(s.subrange(k + at, k + at + sep.len()) =~= rest.subrange(at, at + sep.len()));
        if occurs_at(s, sep, k + at) {
            pieces_move(s, k, sep, at + sep.len(), at + sep.len());
            assert(s.subrange(k + start, k + at) =~= rest.subrange(start, at));
        } else {
            pieces_move(s, k, sep, start, at + 1);
        }
    }
}

proof fn pieces_pass(s: Seq<char>, sep: Seq<char>, start: int, at: int, to: int)
    requires
        0 <= start <= at <= to,
        sep.len() > 0,
        to + sep.len() <= s.len(),
        forall|j: int| at <= j < to ==> !occurs_at(s, sep, j),
    ensures
        pieces(s, sep, start, at) == pieces(s, sep, start, to),
    decreases to - at,
{
    if at < to {
        pieces_pass(s, sep, start, at + 1, to);
    }
}

/// A text falls at the first place of the separator into what stands before it and the
/// pieces of what stands behind it.
pub proof fn split_text_falls_at_the_first(a: Seq<char>, sep: Seq<char>, b: Seq<char>)
    requires
        sep.len() > 0,
        first_at(a + sep, sep, a.len() as int),
    ensures
        split_text(a + sep + b, sep) == seq![a] + split_text(b, sep),
{
    let s = a + sep + b;
    let n = a.len() as int;
    assert(s.subrange(n, n + sep.len()) =~= sep);
    assert forall|j: int| 0 <= j < n implies !occurs_at(s, sep, j) by {
        assert(!occurs_at(a + sep, sep, j));
        assert((a + sep).subrange(j, j + sep.len()) =~= s.subrange(j, j + sep.len()));
    }
    pieces_pass(s, sep, 0, 0, n);
    pieces_move(s, n + sep.len(), sep, 0, 0);
    assert(s.skip(n + sep.len()) =~= b);
    assert(s.subrange(0, n) =~= a);
}

proof fn one_piece_from(s: Seq<char>, sep: Seq<char>, at: int)
    requires
        0 <= at,
        !contains(s, sep),
    ensures
        pieces(s, sep, 0, at) == seq![s],
    decreases s.len() - at,
{
    assert(s.skip(0) =~= s);
    if sep.len() > 0 && at + sep.len() <= s.len() {
        assert(!occurs_at(s, sep, at));
        one_piece_from(s, sep, at + 1);
    }
}

/// A text that does not hold the separator is one piece.
pub proof fn split_text_of_one(s: Seq<char>, sep: Seq<char>)
    requires
        !contains(s, sep),
    ensures
        split_text(s, sep) == seq![s],
{
    one_piece_from(s, sep, 0);
}

/// A text that neither starts nor ends with the character is what is left between runs
/// of it.
pub proof fn stripping_takes_the_runs(s: Seq<char>, c: char, a: nat, b: nat)
    requires
        s.len() > 0,
        s[0] != c,
        s.last() != c,
    ensures
        strip_back(strip_front(Seq::new(a, |i: int| c) + s + Seq::new(b, |i: int| c), c), c) == s,
{
    front_run_goes(s + Seq::new(b, |i: int| c), c, a);
    assert(Seq::new(a, |i: int| c) + (s + Seq::new(b, |i: int| c)) =~= Seq::new(a, |i: int| c) + s
        + Seq::new(b, |i: int| c));
    back_run_goes(s, c, b);
}

proof fn front_run_goes(s: Seq<char>, c: char, n: nat)
    requires
        s.len() > 0,
        s[0] != c,
    ensures
        strip_front(Seq::new(n, |i: int| c) + s, c) == s,
    decreases n,
{
    let all = Seq::new(n, |i: int| c) + s;
    if n > 0 {
        front_run_goes(s, c, (n - 1) as nat);
        assert(all.skip(1) =~= Seq::new((n - 1) as nat, |i: int| c) + s);
    } else {
        assert(all =~= s);
    }
}

proof fn back_run_goes(s: Seq<char>, c: char, n: nat)
    requires
        s.len() > 0,
        s.last() != c,
    ensures
        strip_back(s + Seq::new(n, |i: int| c), c) == s,
    decreases n,
{
    let all = s + Seq::new(n, |i: int| c);
    if n > 0 {
        back_run_goes(s, c, (n - 1) as nat);
        assert(all.drop_last() =~= s + Seq::new((n - 1) as nat, |i: int| c));
    } else {
        assert(all =~= s);
    }
}

/// Texts that do not hold the character come back when what they make, joined by it,
/// is split at it.
pub proof fn splitting_undoes_joining(parts: Seq<Seq<char>>, c: char)
    requires
        parts.len() > 0,
        forall|i: int| 0 <= i < parts.len() ==> !(#[trigger] parts[i]).contains(c),
    ensures
        split(join(parts, seq![c]), c) == parts,
    decreases parts.len(),
{
    let s = join(parts, seq![c]);
    assert(!parts[0].contains(c));
    if parts.len() == 1 {
        assert(s == parts[0]);
        index_of_is(s, c, s.len() as int);
        assert(split(s, c) =~= parts);
    } else {
        join_cons(parts, seq![c]);
        let rest = parts.skip(1);
        assert forall|i: int| 0 <= i < rest.len() implies !(#[trigger] rest[i]).contains(c) by {
            assert(rest[i] == parts[i + 1]);
        }
        splitting_undoes_joining(rest, c);
        let n = parts[0].len() as int;
        assert(s[n] == c);
        assert forall|j: int| 0 <= j < n implies s[j] != c by {
            assert(s[j] == parts[0][j]);
        }
        index_of_is(s, c, n);
        assert(s.take(n) =~= parts[0]);
        assert(s.skip(n + 1) =~= join(rest, seq![c]));
        assert(split(s, c) =~= parts);
    }
}

proof fn word_end_is(s: Seq<char>, at: int)
    requires
        0 <= at <= s.len(),
        forall|j: int| 0 <= j < at ==> !white(#[trigger] s[j]),
        at < s.len() ==> white(s[at]),
    ensures
        word_end(s) == at,
    decreases s.len(),
{
    if at > 0 {
        assert(!white(s[0]));
        let rest = s.skip(1);
        assert forall|j: int| 0 <= j < at - 1 implies !white(#[trigger] rest[j]) by {
            assert(rest[j] == s[j + 1]);
        }
        word_end_is(rest, at - 1);
    }
}

/// Texts without white space come back as words when they stand behind one another
/// with one space between them.
pub proof fn words_of_joined(parts: Seq<Seq<char>>)
    requires
        forall|i: int| 0 <= i < parts.len() ==> (#[trigger] parts[i]).len() > 0,
        forall|i: int, j: int|
            0 <= i < parts.len() && 0 <= j < parts[i].len() ==> !white(#[trigger] parts[i][j]),
    ensures
        words(join(parts, seq![' '])) == parts,
    decreases parts.len(),
{
    let s = join(parts, seq![' ']);
    if parts.len() == 0 {
        assert(s =~= seq![]);
    } else {
        let n = parts[0].len() as int;
        let rest = parts.skip(1);
        assert forall|i: int, j: int| 0 <= i < rest.len() && 0 <= j < rest[i].len() implies !white(
            #[trigger] rest[i][j],
        ) by {
            assert(rest[i] == parts[i + 1]);
        }
        assert forall|i: int| 0 <= i < rest.len() implies (#[trigger] rest[i]).len() > 0 by {
            assert(rest[i] == parts[i + 1]);
        }
        words_of_joined(rest);
        if parts.len() == 1 {
            assert(s == parts[0]);
        } else {
            join_cons(parts, seq![' ']);
            assert(s[n] == ' ');
        }
        assert forall|j: int| 0 <= j < n implies !white(#[trigger] s[j]) by {
            assert(s[j] == parts[0][j]);
        }
        word_end_is(s, n);
        assert(trim_start(s) == s);
        assert(s.take(n) =~= parts[0]);
        let behind = s.skip(n);
        if parts.len() == 1 {
            assert(behind =~= seq![]);
            assert(rest =~= seq![]);
        } else {
            assert(behind =~= seq![' '] + join(rest, seq![' ']));
            assert(behind.skip(1) =~= join(rest, seq![' ']));
            assert(trim_start(behind) == trim_start(behind.skip(1)));
        }
        same_words(behind, join(rest, seq![' ']));
        assert(words(s) =~= seq![parts[0]] + words(behind));
        assert(words(s) =~= parts);
    }
}

proof fn same_words(a: Seq<char>, b: Seq<char>)
    requires
        trim_start(a) == trim_start(b),
    ensures
        words(a) == words(b),
{
}

/// Trimming a text keeps what stands in it between two characters that are not white
/// space.
pub proof fn trimming_keeps_the_inside(front: Seq<char>, inside: Seq<char>, back: Seq<char>)
    requires
        inside.len() > 0,
        !white(inside[0]),
        !white(inside.last()),
    ensures
        contains(trimmed(front + inside + back), inside),
{
    let s = front + inside + back;
    trimming_takes_white_space(s);
    let (a, b) = choose|a: int, b: int|
        #![trigger s.subrange(a, b)]
        0 <= a <= b <= s.len() && trimmed(s) == s.subrange(a, b) && (forall|i: int|
            0 <= i < a || b <= i < s.len() ==> white(#[trigger] s[i])) && (a < b ==> !white(s[a])
            && !white(s[b - 1]));
    let p = front.len() as int;
    let q = p + inside.len();
    assert(s[p] == inside[0]);
    assert(s[q - 1] == inside.last());
    assert(a <= p && q <= b);
    assert(s.subrange(a, b).subrange(p - a, q - a) =~= inside);
    assert(occurs_at(trimmed(s), inside, p - a));
}

/// What the parts of all but the last make up, and the part of the last behind it.
pub proof fn mapped_one_more<A>(s: Seq<A>, f: spec_fn(A) -> Seq<char>)
    ensures
        s.len() == 0 ==> s.map_values(f).flatten() == Seq::<char>::empty(),
        s.len() > 0 ==> s.map_values(f).flatten() == s.drop_last().map_values(f).flatten() + f(
            s.last(),
        ),
{
    if s.len() > 0 {
        let fewer = s.drop_last().map_values(f);
        fewer.lemma_flatten_push(f(s.last()));
        assert(s.map_values(f) =~= fewer.push(f(s.last())));
    } else {
        assert(s.map_values(f) =~= seq![]);
        assert(s.map_values(f).flatten() =~= seq![]);
    }
}

/// What is kept of all but the last, and the last behind it where it is kept.
pub proof fn kept_one_more<A>(s: Seq<A>, keep: spec_fn(A) -> bool)
    ensures
        s.len() == 0 ==> s.filter(keep) == Seq::<A>::empty(),
        s.len() > 0 && keep(s.last()) ==> s.filter(keep) == s.drop_last().filter(keep).push(
            s.last(),
        ),
        s.len() > 0 && !keep(s.last()) ==> s.filter(keep) == s.drop_last().filter(keep),
{
    reveal(Seq::filter);
}

/// The first where it is kept, and what is kept of the rest behind it.
pub proof fn kept_one_less<A>(s: Seq<A>, keep: spec_fn(A) -> bool)
    requires
        s.len() > 0,
    ensures
        s.filter(keep) == (if keep(s[0]) {
            seq![s[0]]
        } else {
            seq![]
        }) + s.skip(1).filter(keep),
    decreases s.len(),
{
    let rest = s.skip(1);
    let first = if keep(s[0]) {
        seq![s[0]]
    } else {
        seq![]
    };
    kept_one_more(s, keep);
    kept_one_more(rest, keep);
    let front = s.drop_last();
    if rest.len() == 0 {
        assert(front =~= seq![]);
        kept_one_more(front, keep);
        assert(s.filter(keep) =~= first + rest.filter(keep));
    } else {
        kept_one_less(front, keep);
        assert(front.skip(1) =~= rest.drop_last());
        assert(rest.last() == s.last());
        assert(s.filter(keep) =~= first + rest.filter(keep));
    }
}

/// The character last stands where it stands and nowhere behind; nowhere where it does
/// not stand at all.
pub proof fn the_last_place_is_the_last(s: Seq<char>, c: char)
    ensures
        match last_of(s, c) {
            Some(at) => 0 <= at < s.len() && s[at] == c && forall|j: int|
                at < j < s.len() ==> s[j] != c,
            None => !s.contains(c),
        },
    decreases s.len(),
{
    if s.len() > 0 && s.last() != c {
        let front = s.drop_last();
        the_last_place_is_the_last(front, c);
        match last_of(s, c) {
            Some(at) => {
                assert forall|j: int| at < j < s.len() implies s[j] != c by {
                    if j < front.len() {
                        assert(front[j] == s[j]);
                    }
                }
            },
            None => {
                assert forall|j: int| 0 <= j < s.len() implies s[j] != c by {
                    if j < front.len() {
                        assert(front[j] == s[j]);
                        assert(front.contains(front[j]));
                    }
                }
            },
        }
    }
}

/// A number in decimal reads as itself where it fits, with or without a plus sign, and
/// as nothing where it does not; a text that holds another character reads as nothing.
pub proof fn a_number_is_read(n: nat, max: nat, s: Seq<char>, i: int)
    ensures
        n <= max ==> parsed(decimal(n), max) == Some(n),
        n <= max ==> parsed(seq!['+'] + decimal(n), max) == Some(n),
        n > max ==> parsed(decimal(n), max) is None,
        0 < i < s.len() && !is_digit(s[i]) ==> parsed(s, max) is None,
        parsed(seq![], max) is None,
{
    decimal_reads_back(n);
    assert(is_digit(decimal(n)[0]));
    assert(unplus(decimal(n)) == decimal(n));
    assert((seq!['+'] + decimal(n)).skip(1) =~= decimal(n));
    if 0 < i < s.len() && !is_digit(s[i]) {
        let digits = unplus(s);
        if s[0] == '+' {
            assert(digits[i - 1] == s[i]);
        } else {
            assert(digits[i] == s[i]);
        }
        assert(!all_digits(digits));
    }
}

/// A prefix is taken off as often as it stands there and no more.
pub proof fn prefixes_are_taken_off(s: Seq<char>, prefix: Seq<char>)
    requires
        prefix.len() > 0,
    ensures
        unprefixed(prefix + s, prefix) == unprefixed(s, prefix),
        !prefix.is_prefix_of(s) ==> unprefixed(s, prefix) == s,
        !prefix.is_prefix_of(unprefixed(s, prefix)),
        unprefixed(s, prefix).is_suffix_of(s),
    decreases s.len(),
{
    let whole = prefix + s;
    assert(prefix =~= whole.take(prefix.len() as int));
    assert(whole.skip(prefix.len() as int) =~= s);
    let left = unprefixed(s, prefix);
    if prefix.is_prefix_of(s) {
        let rest = s.skip(prefix.len() as int);
        prefixes_are_taken_off(rest, prefix);
        assert(left =~= rest.skip(rest.len() - left.len()));
        assert(left =~= s.skip(s.len() - left.len()));
    } else {
        assert(left =~= s.skip(0));
    }
}

/// No word is empty or holds white space.
pub proof fn words_are_without_white_space(s: Seq<char>)
    ensures
        forall|i: int| 0 <= i < words(s).len() ==> (#[trigger] words(s)[i]).len() > 0,
        forall|i: int, j: int|
            0 <= i < words(s).len() && 0 <= j < words(s)[i].len() ==> !white(
                #[trigger] words(s)[i][j],
            ),
    decreases s.len(),
{
    let t = trim_start(s);
    let n = word_end(t);
    trim_start_shorter(s);
    word_end_bounds(t);
    if t.len() > 0 {
        let rest = words(t.skip(n));
        words_are_without_white_space(t.skip(n));
        word_is_dark(t);
        let all = words(s);
        assert forall|i: int| 0 <= i < all.len() implies (#[trigger] all[i]).len() > 0 by {
            if i > 0 {
                assert(all[i] == rest[i - 1]);
            }
        }
        assert forall|i: int, j: int| 0 <= i < all.len() && 0 <= j < all[i].len() implies !white(
            #[trigger] all[i][j],
        ) by {
            if i > 0 {
                assert(all[i] == rest[i - 1]);
                assert(!white(rest[i - 1][j]));
            } else {
                assert(all[0][j] == t[j]);
            }
        }
    }
}

proof fn word_is_dark(s: Seq<char>)
    ensures
        forall|j: int| 0 <= j < word_end(s) ==> !white(#[trigger] s[j]),
    decreases s.len(),
{
    if s.len() > 0 && !white(s[0]) {
        let rest = s.skip(1);
        word_is_dark(rest);
        word_end_bounds(rest);
        assert forall|j: int| 0 <= j < word_end(s) implies !white(#[trigger] s[j]) by {
            if j > 0 {
                assert(s[j] == rest[j - 1]);
            }
        }
    }
}

proof fn leading_white_space_goes(s: Seq<char>)
    ensures
        trim_start(s).filter(|c: char| !white(c)) == s.filter(|c: char| !white(c)),
    decreases s.len(),
{
    if s.len() > 0 && white(s[0]) {
        leading_white_space_goes(s.skip(1));
        kept_one_less(s, |c: char| !white(c));
        assert(s.filter(|c: char| !white(c)) =~= s.skip(1).filter(|c: char| !white(c)));
    }
}

proof fn dark_is_kept(s: Seq<char>)
    requires
        forall|j: int| 0 <= j < s.len() ==> !white(#[trigger] s[j]),
    ensures
        s.filter(|c: char| !white(c)) == s,
    decreases s.len(),
{
    kept_one_more(s, |c: char| !white(c));
    if s.len() > 0 {
        let front = s.drop_last();
        assert(!white(s[s.len() - 1]));
        assert forall|j: int| 0 <= j < front.len() implies !white(#[trigger] front[j]) by {
            assert(front[j] == s[j]);
        }
        dark_is_kept(front);
        assert(front.push(s.last()) =~= s);
    }
}

/// The words of a text are all of it but its white space, in order.
pub proof fn words_leave_nothing_out(s: Seq<char>)
    ensures
        words(s).flatten() == s.filter(|c: char| !white(c)),
    decreases s.len(),
{
    let keep = |c: char| !white(c);
    let t = trim_start(s);
    let n = word_end(t);
    trim_start_shorter(s);
    word_end_bounds(t);
    leading_white_space_goes(s);
    if t.len() == 0 {
        assert(words(s).flatten() =~= seq![]);
        kept_one_more(t, keep);
    } else {
        let word = t.take(n);
        let rest = t.skip(n);
        words_leave_nothing_out(rest);
        word_is_dark(t);
        assert forall|j: int| 0 <= j < word.len() implies !white(#[trigger] word[j]) by {
            assert(word[j] == t[j]);
        }
        dark_is_kept(word);
        Seq::filter_distributes_over_add(word, rest, keep);
        assert(word + rest =~= t);
        assert(words(s).drop_first() =~= words(rest));
        assert(words(s).flatten() =~= word + words(rest).flatten());
    }
}

} // verus!
