//! Editing text without disturbing its line endings.
//!
//! Matching is done on a view in which every line ends in a bare line feed, so
//! that a carriage return never decides whether a text is found. The edit itself
//! is made on the text as it is: what it does not touch keeps its line endings,
//! and what it puts in takes the file's own.
use vstd::prelude::*;
use crate::text::{
    chars_of, index_of, index_of_bounds, index_of_is, join, join_append, occurs_at, pieces,
    pieces_stand_between, split, split_stands_between, split_text,
};

verus! {

/// How many characters the first unit of a text has: two where it is a carriage
/// return with its line feed, otherwise one.
pub open spec fn unit(s: Seq<char>) -> int {
    if s.len() >= 2 && s[0] == '\r' && s[1] == '\n' {
        2
    } else {
        1
    }
}

/// What the first unit of a text reads as.
pub open spec fn reads_as(s: Seq<char>) -> char {
    if unit(s) == 2 {
        '\n'
    } else {
        s[0]
    }
}

/// A text with every carriage return before a line feed left out.
pub open spec fn normal(s: Seq<char>) -> Seq<char>
    decreases s.len(),
{
    if s.len() == 0 {
        seq![]
    } else {
        seq![reads_as(s)] + normal(s.skip(unit(s)))
    }
}

/// How many characters the first `k` units of a text have.
pub open spec fn extent(s: Seq<char>, k: int) -> int
    decreases s.len(),
{
    if k <= 0 || s.len() == 0 {
        0
    } else {
        unit(s) + extent(s.skip(unit(s)), k - 1)
    }
}

proof fn extent_bounds(s: Seq<char>, k: int)
    ensures
        0 <= extent(s, k) <= s.len(),
        k > 0 && s.len() > 0 ==> extent(s, k) > 0,
    decreases s.len(),
{
    if k > 0 && s.len() > 0 {
        extent_bounds(s.skip(unit(s)), k - 1);
    }
}

/// The characters of the first `k` units read as the first `k` characters of the
/// normal view.
proof fn extent_reads_as(s: Seq<char>, k: int)
    requires
        0 <= k <= normal(s).len(),
    ensures
        normal(s.take(extent(s, k))) == normal(s).take(k),
    decreases s.len(),
{
    extent_bounds(s, k);
    let n = extent(s, k);
    if k == 0 || s.len() == 0 {
        assert(s.take(n) =~= seq![]);
        assert(normal(s).take(k) =~= seq![]);
    } else {
        let u = unit(s);
        let rest = s.skip(u);
        assert(normal(s).len() == normal(rest).len() + 1);
        extent_reads_as(rest, k - 1);
        extent_bounds(rest, k - 1);
        let part = s.take(n);
        assert(unit(part) == u);
        assert(reads_as(part) == reads_as(s));
        assert(part.skip(u) =~= rest.take(n - u));
        assert(normal(s).take(k) =~= seq![reads_as(s)] + normal(rest).take(k - 1));
    }
}

/// The text with `old`, found in its normal view, replaced by `new`: at its first
/// place, or at every place that does not overlap an earlier one.
pub open spec fn replaced(s: Seq<char>, old_text: Seq<char>, new: Seq<char>, all: bool) -> Seq<char>
    decreases s.len(),
    via replaced_decreases
{
    if s.len() == 0 || old_text.len() == 0 {
        s
    } else if old_text.is_prefix_of(normal(s)) {
        let rest = s.skip(extent(s, old_text.len() as int));
        if all {
            new + replaced(rest, old_text, new, all)
        } else {
            new + rest
        }
    } else {
        s.take(unit(s)) + replaced(s.skip(unit(s)), old_text, new, all)
    }
}

#[via_fn]
proof fn replaced_decreases(s: Seq<char>, old_text: Seq<char>, new: Seq<char>, all: bool) {
    extent_bounds(s, old_text.len() as int);
}

/// A text with each line feed written as the line ending.
pub open spec fn rendered(s: Seq<char>, eol: LineEnding) -> Seq<char>
    decreases s.len(),
{
    if s.len() == 0 {
        seq![]
    } else if s.last() == '\n' && eol == LineEnding::Crlf {
        rendered(s.drop_last(), eol).push('\r').push('\n')
    } else {
        rendered(s.drop_last(), eol).push(s.last())
    }
}

/// How many lines of a text end in a carriage return and a line feed.
pub open spec fn crlf_count(s: Seq<char>) -> nat
    decreases s.len(),
{
    if s.len() == 0 {
        0
    } else {
        crlf_count(s.skip(unit(s))) + (if unit(s) == 2 {
            1nat
        } else {
            0nat
        })
    }
}

/// How many lines of a text end in a bare line feed.
pub open spec fn lf_count(s: Seq<char>) -> nat
    decreases s.len(),
{
    if s.len() == 0 {
        0
    } else {
        lf_count(s.skip(unit(s))) + (if unit(s) == 1 && s[0] == '\n' {
            1nat
        } else {
            0nat
        })
    }
}

/// How lines end.
#[derive(Debug, PartialEq, Eq, Clone, Copy, Structural)]
pub enum LineEnding {
    Lf,
    Crlf,
}

/// The line ending that most lines of a text have.
pub open spec fn dominant(s: Seq<char>) -> LineEnding {
    if crlf_count(s) > lf_count(s) {
        LineEnding::Crlf
    } else {
        LineEnding::Lf
    }
}

fn unit_at(x: &[char], at: usize) -> (n: usize)
    requires
        at < x@.len(),
    ensures
        n == unit(x@.skip(at as int)),
        at + n <= x@.len(),
        n == 1 || n == 2,
{
    let total: usize = x.len();
    assert(x@.skip(at as int)[0] == x@[at as int]);
    assert(total - at >= 2 ==> x@.skip(at as int)[1] == x@[at + 1]);
    if total - at >= 2 && x[at] == '\r' && x[at + 1] == '\n' {
        2
    } else {
        1
    }
}

impl LineEnding {
    /// The line ending that most lines of a text have.
    pub fn detect(s: &str) -> (eol: LineEnding)
        ensures
            eol == dominant(s@),
    {
        let x = chars_of(s);
        let mut crlf: usize = 0;
        let mut lf: usize = 0;
        let mut at: usize = 0;
        assert(x@.skip(0) =~= s@);
        while at < x.len()
            invariant
                at <= x@.len(),
                crlf + lf <= at,
                crlf_count(s@) == crlf + crlf_count(x@.skip(at as int)),
                lf_count(s@) == lf + lf_count(x@.skip(at as int)),
            decreases x.len() - at,
        {
            let n: usize = unit_at(&x, at);
            assert(x@.skip(at as int).skip(n as int) =~= x@.skip(at + n));
            assert(x@.skip(at as int)[0] == x@[at as int]);
            if n == 2 {
                crlf += 1;
            } else if x[at] == '\n' {
                lf += 1;
            }
            at += n;
        }
        if crlf > lf {
            LineEnding::Crlf
        } else {
            LineEnding::Lf
        }
    }
}

/// A text with every carriage return before a line feed left out.
pub fn to_lf(s: &str) -> (out: String)
    ensures
        out@ == normal(s@),
{
    let x = chars_of(s);
    let mut out = String::new();
    let mut at: usize = 0;
    assert(x@.skip(0) =~= s@);
    assert(out@ + normal(x@.skip(0)) =~= normal(s@));
    while at < x.len()
        invariant
            at <= x@.len(),
            out@ + normal(x@.skip(at as int)) == normal(s@),
        decreases x.len() - at,
    {
        let ghost before = out@;
        let ghost here = x@.skip(at as int);
        let n: usize = unit_at(&x, at);
        assert(here.skip(n as int) =~= x@.skip(at + n));
        assert(here[0] == x@[at as int]);
        if n == 2 {
            out.push('\n');
        } else {
            out.push(x[at]);
        }
        assert(out@ + normal(x@.skip(at + n)) =~= before + normal(here));
        at += n;
    }
    assert(out@ =~= normal(s@));
    out
}

/// A text with each line feed written as the line ending.
pub fn render(s: &str, eol: LineEnding) -> (out: String)
    ensures
        out@ == rendered(s@, eol),
{
    let x = chars_of(s);
    let mut out = String::new();
    let mut at: usize = 0;
    assert(x@.take(0) =~= seq![]);
    while at < x.len()
        invariant
            at <= x@.len(),
            out@ == rendered(x@.take(at as int), eol),
        decreases x.len() - at,
    {
        assert(x@.take(at + 1).drop_last() =~= x@.take(at as int));
        assert(x@.take(at + 1).last() == x@[at as int]);
        if x[at] == '\n' && eol == LineEnding::Crlf {
            out.push('\r');
        }
        out.push(x[at]);
        at += 1;
    }
    assert(x@.take(x@.len() as int) =~= s@);
    out
}

proof fn prefix_step(a: Seq<char>, b: Seq<char>)
    requires
        a.len() > 0,
        b.len() > 0,
    ensures
        a.is_prefix_of(b) == (a[0] == b[0] && a.skip(1).is_prefix_of(b.skip(1))),
{
    if a[0] == b[0] && a.skip(1).is_prefix_of(b.skip(1)) {
        assert(a =~= seq![a[0]] + a.skip(1));
        assert(b.take(a.len() as int) =~= seq![b[0]] + b.skip(1).take(a.len() - 1));
        assert(a =~= b.take(a.len() as int));
    }
    if a.is_prefix_of(b) {
        assert(a =~= b.take(a.len() as int));
        assert(a.skip(1) =~= b.skip(1).take(a.len() - 1));
    }
}

/// Where a text found in the normal view ends in the text itself, where it is
/// found at `at`.
fn found_at(x: &[char], at: usize, sub: &[char]) -> (r: Option<usize>)
    requires
        at <= x@.len(),
    ensures
        match r {
            Some(end) => sub@.is_prefix_of(normal(x@.skip(at as int))) && end == at + extent(
                x@.skip(at as int),
                sub@.len() as int,
            ) && end <= x@.len(),
            None => !sub@.is_prefix_of(normal(x@.skip(at as int))),
        },
{
    let ghost here = x@.skip(at as int);
    let mut k: usize = 0;
    let mut q: usize = at;
    assert(sub@.skip(0) =~= sub@);
    while k < sub.len()
        invariant
            k <= sub@.len(),
            at <= q <= x@.len(),
            here == x@.skip(at as int),
            sub@.is_prefix_of(normal(here)) == sub@.skip(k as int).is_prefix_of(
                normal(x@.skip(q as int)),
            ),
            extent(here, sub@.len() as int) == (q - at) + extent(
                x@.skip(q as int),
                sub@.len() - k,
            ),
        decreases sub.len() - k,
    {
        let ghost rest = x@.skip(q as int);
        let ghost want = sub@.skip(k as int);
        if q >= x.len() {
            assert(normal(rest).len() == 0);
            return None;
        }
        let n: usize = unit_at(x, q);
        let c: char = if n == 2 {
            '\n'
        } else {
            x[q]
        };
        proof {
            assert(rest[0] == x@[q as int]);
            assert(rest.skip(n as int) =~= x@.skip(q + n));
            assert(normal(rest)[0] == reads_as(rest));
            assert(normal(rest).skip(1) =~= normal(x@.skip(q + n)));
            prefix_step(want, normal(rest));
            assert(want[0] == sub@[k as int]);
            assert(want.skip(1) =~= sub@.skip(k + 1));
        }
        if c != sub[k] {
            return None;
        }
        q += n;
        k += 1;
    }
    assert(sub@.skip(k as int) =~= seq![]);
    assert(sub@.skip(k as int).is_prefix_of(normal(x@.skip(q as int)))) by {
        assert(normal(x@.skip(q as int)).take(0) =~= seq![]);
    }
    Some(q)
}

/// Replace `old_text`, found in the normal view of `content`, by `new_text`
/// written with the line ending `eol`. What lies outside the places replaced is
/// kept as it is.
pub fn replace_preserving_eol(
    content: &str,
    old_text: &str,
    new_text: &str,
    eol: LineEnding,
    all: bool,
) -> (out: String)
    ensures
        out@ == replaced(content@, old_text@, rendered(new_text@, eol), all),
{
    let x = chars_of(content);
    let y = chars_of(old_text);
    let new = render(new_text, eol);
    let mut out = String::new();
    if y.len() == 0 {
        return content.to_string();
    }
    let mut at: usize = 0;
    let mut done = false;
    assert(x@.skip(0) =~= content@);
    assert(out@ + replaced(content@, y@, new@, all) =~= replaced(content@, y@, new@, all));
    while at < x.len()
        invariant
            at <= x@.len(),
            y@ == old_text@,
            y@.len() > 0,
            new@ == rendered(new_text@, eol),
            done ==> !all,
            out@ + (if done {
                x@.skip(at as int)
            } else {
                replaced(x@.skip(at as int), y@, new@, all)
            }) == replaced(content@, y@, new@, all),
        decreases x.len() - at,
    {
        let ghost before = out@;
        let ghost here = x@.skip(at as int);
        assert(here[0] == x@[at as int]);
        if done {
            out.push(x[at]);
            assert(out@ + x@.skip(at + 1) =~= before + here);
            at += 1;
        } else {
            match found_at(&x, at, &y) {
                Some(end) => {
                    proof {
                        extent_bounds(here, y@.len() as int);
                        assert(here.skip(end - at) =~= x@.skip(end as int));
                    }
                    out.push_str(&new);
                    if all {
                        assert(out@ + replaced(x@.skip(end as int), y@, new@, all) =~= before
                            + replaced(here, y@, new@, all));
                    } else {
                        done = true;
                        assert(out@ + x@.skip(end as int) =~= before + replaced(
                            here,
                            y@,
                            new@,
                            all,
                        ));
                    }
                    at = end;
                },
                None => {
                    let n: usize = unit_at(&x, at);
                    assert(here.skip(n as int) =~= x@.skip(at + n));
                    assert(n == 2 ==> here[1] == x@[at + 1]);
                    out.push(x[at]);
                    if n == 2 {
                        out.push(x[at + 1]);
                    }
                    assert(out@ =~= before + here.take(n as int));
                    assert(out@ + replaced(x@.skip(at + n), y@, new@, all) =~= before + replaced(
                        here,
                        y@,
                        new@,
                        all,
                    ));
                    at += n;
                },
            }
        }
    }
    assert(x@.skip(at as int) =~= seq![]);
    assert(out@ =~= replaced(content@, y@, new@, all));
    out
}

// ---------------------------------------------------------------------------
// Laws
// ---------------------------------------------------------------------------

/// Whether an edit of one place reads as this: the text before `a`, the new text,
/// the text from `b` on, where what stood between reads as the old text.
pub open spec fn one_place(
    s: Seq<char>,
    old_text: Seq<char>,
    new: Seq<char>,
    a: int,
    b: int,
) -> bool {
    &&& 0 <= a <= b <= s.len()
    &&& normal(s.subrange(a, b)) == old_text
    &&& replaced(s, old_text, new, false) == s.take(a) + new + s.skip(b)
}

/// An edit of one place changes that place and nothing else, where the old text
/// is found at all.
pub proof fn one_edit_keeps_the_rest(s: Seq<char>, old_text: Seq<char>, new: Seq<char>, at: int)
    requires
        old_text.len() > 0,
        crate::text::occurs_at(normal(s), old_text, at),
    ensures
        exists|a: int, b: int| one_place(s, old_text, new, a, b),
    decreases s.len(),
{
    if old_text.is_prefix_of(normal(s)) {
        let n = extent(s, old_text.len() as int);
        extent_bounds(s, old_text.len() as int);
        extent_reads_as(s, old_text.len() as int);
        assert(s.subrange(0, n) =~= s.take(n));
        assert(old_text =~= normal(s).take(old_text.len() as int));
        assert(s.take(0) + new + s.skip(n) =~= new + s.skip(n));
        assert(one_place(s, old_text, new, 0, n));
    } else {
        assert(at != 0) by {
            if at == 0 {
                assert(old_text =~= normal(s).take(old_text.len() as int));
            }
        }
        let u = unit(s);
        let rest = s.skip(u);
        assert(normal(rest) =~= normal(s).skip(1));
        assert(normal(rest).subrange(at - 1, at - 1 + old_text.len()) =~= normal(s).subrange(
            at,
            at + old_text.len(),
        ));
        one_edit_keeps_the_rest(rest, old_text, new, at - 1);
        let (a, b) = choose|a: int, b: int| one_place(rest, old_text, new, a, b);
        assert(s.subrange(a + u, b + u) =~= rest.subrange(a, b));
        assert(s.take(a + u) + new + s.skip(b + u) =~= s.take(u) + (rest.take(a) + new + rest.skip(
            b,
        )));
        assert(one_place(s, old_text, new, a + u, b + u));
    }
}

/// The plain replacement of every place of `old_text` in a text, from the front, none
/// overlapping an earlier one.
pub open spec fn plainly_replaced(
    s: Seq<char>,
    old_text: Seq<char>,
    new: Seq<char>,
) -> Seq<char>
    decreases s.len(),
{
    if s.len() == 0 || old_text.len() == 0 {
        s
    } else if old_text.is_prefix_of(s) {
        new + plainly_replaced(s.skip(old_text.len() as int), old_text, new)
    } else {
        seq![s[0]] + plainly_replaced(s.skip(1), old_text, new)
    }
}

/// Whether replacing every place lets no carriage return that stood apart come to
/// stand before a line feed, where `open` says that one has just been put down.
pub open spec fn keeps_apart(
    s: Seq<char>,
    old_text: Seq<char>,
    new: Seq<char>,
    open: bool,
) -> bool
    decreases s.len(),
    via keeps_apart_decreases
{
    if s.len() == 0 || old_text.len() == 0 {
        !(open && s.len() > 0 && s[0] == '\n')
    } else if old_text.is_prefix_of(normal(s)) {
        let rest = s.skip(extent(s, old_text.len() as int));
        if new.len() == 0 {
            keeps_apart(rest, old_text, new, open)
        } else {
            !(open && new[0] == '\n') && keeps_apart(rest, old_text, new, new.last() == '\r')
        }
    } else {
        !(open && s[0] == '\n') && keeps_apart(
            s.skip(unit(s)),
            old_text,
            new,
            unit(s) == 1 && s[0] == '\r',
        )
    }
}

#[via_fn]
proof fn keeps_apart_decreases(s: Seq<char>, old_text: Seq<char>, new: Seq<char>, open: bool) {
    extent_bounds(s, old_text.len() as int);
}

/// After a carriage return, what is kept apart starts with no line feed.
proof fn kept_apart_starts(s: Seq<char>, old_text: Seq<char>, new: Seq<char>)
    requires
        keeps_apart(s, old_text, new, true),
    ensures
        ({
            let out = replaced(s, old_text, new, true);
            out.len() > 0 ==> out[0] != '\n'
        }),
    decreases s.len(),
{
    if s.len() > 0 && old_text.len() > 0 {
        if old_text.is_prefix_of(normal(s)) {
            extent_bounds(s, old_text.len() as int);
            let rest = s.skip(extent(s, old_text.len() as int));
            if new.len() == 0 {
                kept_apart_starts(rest, old_text, new);
                assert(new + replaced(rest, old_text, new, true) =~= replaced(
                    rest,
                    old_text,
                    new,
                    true,
                ));
            }
        } else {
            assert(s.take(unit(s))[0] == s[0]);
        }
    }
}

/// The normal view of two texts put together is that of each, unless they make a
/// carriage return with its line feed at the seam.
proof fn normal_append(a: Seq<char>, b: Seq<char>)
    requires
        !(a.len() > 0 && a.last() == '\r' && b.len() > 0 && b[0] == '\n'),
    ensures
        normal(a + b) == normal(a) + normal(b),
    decreases a.len(),
{
    if a.len() == 0 {
        assert(a + b =~= b);
        assert(normal(a) + normal(b) =~= normal(b));
    } else {
        let u = unit(a);
        assert(unit(a + b) == u) by {
            if a.len() == 1 && a[0] == '\r' {
                assert(a.last() == '\r');
                if b.len() > 0 {
                    assert((a + b)[1] == b[0]);
                }
            } else if a.len() >= 2 {
                assert((a + b)[1] == a[1]);
            }
        }
        assert((a + b)[0] == a[0]);
        let rest = a.skip(u);
        assert((a + b).skip(u) =~= rest + b);
        if rest.len() > 0 {
            assert(rest.last() == a.last());
        }
        normal_append(rest, b);
        assert(normal(a + b) =~= normal(a) + normal(b));
    }
}

/// The normal view behind the first `k` units.
proof fn extent_skips(s: Seq<char>, k: int)
    requires
        0 <= k <= normal(s).len(),
    ensures
        normal(s.skip(extent(s, k))) == normal(s).skip(k),
    decreases s.len(),
{
    extent_bounds(s, k);
    if k == 0 || s.len() == 0 {
        assert(s.skip(0) =~= s);
        assert(normal(s).skip(0) =~= normal(s));
        assert(k == 0 || normal(s).len() == 0);
    } else {
        let u = unit(s);
        let rest = s.skip(u);
        assert(normal(s).skip(1) =~= normal(rest));
        extent_skips(rest, k - 1);
        extent_bounds(rest, k - 1);
        assert(s.skip(extent(s, k)) =~= rest.skip(extent(rest, k - 1)));
        assert(normal(s).skip(k) =~= normal(rest).skip(k - 1));
    }
}

proof fn replacing_all_reads_so(s: Seq<char>, old_text: Seq<char>, new: Seq<char>, open: bool)
    requires
        old_text.len() > 0,
        keeps_apart(s, old_text, new, open),
    ensures
        normal(replaced(s, old_text, new, true)) == plainly_replaced(
            normal(s),
            old_text,
            normal(new),
        ),
    decreases s.len(),
{
    if s.len() == 0 {
        assert(normal(s) =~= seq![]);
    } else if old_text.is_prefix_of(normal(s)) {
        let n = extent(s, old_text.len() as int);
        extent_bounds(s, old_text.len() as int);
        extent_skips(s, old_text.len() as int);
        let rest = s.skip(n);
        let after = replaced(rest, old_text, new, true);
        if new.len() == 0 {
            replacing_all_reads_so(rest, old_text, new, open);
            assert(new + after =~= after);
            assert(normal(new) =~= seq![]);
            assert(normal(new) + plainly_replaced(normal(rest), old_text, normal(new))
                =~= plainly_replaced(normal(rest), old_text, normal(new)));
        } else {
            let ends_open = new.last() == '\r';
            replacing_all_reads_so(rest, old_text, new, ends_open);
            if ends_open {
                kept_apart_starts(rest, old_text, new);
            }
            normal_append(new, after);
        }
    } else {
        let u = unit(s);
        let rest = s.skip(u);
        let after = replaced(rest, old_text, new, true);
        let alone = u == 1 && s[0] == '\r';
        replacing_all_reads_so(rest, old_text, new, alone);
        if alone {
            kept_apart_starts(rest, old_text, new);
        }
        let first = s.take(u);
        assert(first.last() == '\r' ==> alone);
        normal_append(first, after);
        assert(unit(first) == u);
        assert(first.skip(u) =~= seq![]);
        assert(normal(first.skip(u)) =~= seq![]);
        assert(normal(first) =~= seq![reads_as(s)]);
        assert(normal(s)[0] == reads_as(s));
        assert(normal(s).skip(1) =~= normal(rest));
    }
}

/// An edit of every place, read with bare line feeds, is the plain replacement in
/// the text read with bare line feeds, as long as no carriage return that stood apart
/// comes to stand before a line feed.
pub proof fn replacing_all_reads_as_plain(s: Seq<char>, old_text: Seq<char>, new: Seq<char>)
    requires
        old_text.len() > 0,
        keeps_apart(s, old_text, new, false),
    ensures
        normal(replaced(s, old_text, new, true)) == plainly_replaced(
            normal(s),
            old_text,
            normal(new),
        ),
{
    replacing_all_reads_so(s, old_text, new, false);
}

/// Rendering with a line ending, and reading with bare line feeds, gives the text.
proof fn rendered_reads_back(new: Seq<char>, eol: LineEnding)
    requires
        bare(new),
    ensures
        normal(rendered(new, eol)) == new,
        rendered(new, eol).len() > 0 ==> rendered(new, eol).last() != '\r',
    decreases new.len(),
{
    if new.len() == 0 {
        assert(normal(rendered(new, eol)) =~= new);
    } else {
        let front = new.drop_last();
        assert forall|i: int| 0 <= i < front.len() implies (#[trigger] front[i]) != '\r' by {
            assert(new[i] != '\r');
        }
        rendered_reads_back(front, eol);
        let before = rendered(front, eol);
        assert(new[new.len() - 1] != '\r');
        let tail = if new.last() == '\n' && eol == LineEnding::Crlf {
            seq!['\r', '\n']
        } else {
            seq![new.last()]
        };
        assert(rendered(new, eol) =~= before + tail);
        normal_append(before, tail);
        assert(unit(tail) == tail.len());
        assert(tail.skip(unit(tail)) =~= seq![]);
        assert(normal(tail.skip(unit(tail))) =~= seq![]);
        assert(normal(tail) =~= seq![new.last()]);
        assert(normal(before) + normal(tail) =~= new);
        assert(rendered(new, eol).last() == new.last());
    }
}

/// A text whose carriage returns all stand before line feeds keeps apart from any
/// text that ends in none.
proof fn paired_keeps_apart(s: Seq<char>, old_text: Seq<char>, new: Seq<char>)
    requires
        bare(normal(s)),
        new.len() > 0 ==> new.last() != '\r',
    ensures
        keeps_apart(s, old_text, new, false),
    decreases s.len(),
{
    if s.len() > 0 && old_text.len() > 0 {
        if old_text.is_prefix_of(normal(s)) {
            let k = old_text.len() as int;
            extent_bounds(s, k);
            extent_skips(s, k);
            let rest = s.skip(extent(s, k));
            assert forall|i: int| 0 <= i < normal(rest).len() implies (#[trigger] normal(rest)[i])
                != '\r' by {
                assert(normal(s)[i + k] != '\r');
            }
            paired_keeps_apart(rest, old_text, new);
        } else {
            let rest = s.skip(unit(s));
            assert(normal(s)[0] == reads_as(s));
            assert(normal(s).skip(1) =~= normal(rest));
            assert forall|i: int| 0 <= i < normal(rest).len() implies (#[trigger] normal(rest)[i])
                != '\r' by {
                assert(normal(s)[i + 1] != '\r');
            }
            paired_keeps_apart(rest, old_text, new);
        }
    }
}

/// In a text whose carriage returns all stand before line feeds, an edit of every
/// place by a text without carriage returns, whatever the line ending it is written
/// with, reads as the plain replacement.
pub proof fn a_paired_text_is_edited_plainly(
    s: Seq<char>,
    old_text: Seq<char>,
    new_text: Seq<char>,
    eol: LineEnding,
)
    requires
        old_text.len() > 0,
        bare(normal(s)),
        bare(new_text),
    ensures
        normal(replaced(s, old_text, rendered(new_text, eol), true)) == plainly_replaced(
            normal(s),
            old_text,
            new_text,
        ),
{
    rendered_reads_back(new_text, eol);
    paired_keeps_apart(s, old_text, rendered(new_text, eol));
    replacing_all_reads_as_plain(s, old_text, rendered(new_text, eol));
}

/// Whether a text holds no carriage return.
pub open spec fn bare(s: Seq<char>) -> bool {
    forall|i: int| 0 <= i < s.len() ==> (#[trigger] s[i]) != '\r'
}

/// A text without carriage returns gets none from an edit that brings none.
pub proof fn a_bare_text_stays_bare(s: Seq<char>, old_text: Seq<char>, new: Seq<char>, all: bool)
    requires
        bare(s),
        bare(new),
    ensures
        bare(replaced(s, old_text, new, all)),
    decreases s.len(),
{
    if s.len() > 0 && old_text.len() > 0 {
        if old_text.is_prefix_of(normal(s)) {
            let n = extent(s, old_text.len() as int);
            extent_bounds(s, old_text.len() as int);
            let rest = s.skip(n);
            assert forall|i: int| 0 <= i < rest.len() implies (#[trigger] rest[i]) != '\r' by {
                assert(s[i + n] != '\r');
            }
            if all {
                a_bare_text_stays_bare(rest, old_text, new, all);
            }
        } else {
            let u = unit(s);
            let rest = s.skip(u);
            assert forall|i: int| 0 <= i < rest.len() implies (#[trigger] rest[i]) != '\r' by {
                assert(s[i + u] != '\r');
            }
            a_bare_text_stays_bare(rest, old_text, new, all);
            assert(bare(s.take(u)));
        }
    }
}

/// The normal view of a text without carriage returns is the text itself.
pub proof fn a_bare_text_is_normal(s: Seq<char>)
    requires
        bare(s),
    ensures
        normal(s) == s,
    decreases s.len(),
{
    if s.len() > 0 {
        let rest = s.skip(1);
        assert(s[0] != '\r');
        assert forall|i: int| 0 <= i < rest.len() implies (#[trigger] rest[i]) != '\r' by {
            assert(s[i + 1] != '\r');
        }
        a_bare_text_is_normal(rest);
        assert(seq![s[0]] + rest =~= s);
    } else {
        assert(normal(s) =~= s);
    }
}

/// How often a text stands in another, from the front, none overlapping an earlier one.
pub open spec fn plain_count(s: Seq<char>, sub: Seq<char>) -> int
    decreases s.len(),
{
    if s.len() == 0 || sub.len() == 0 {
        0
    } else if sub.is_prefix_of(s) {
        1 + plain_count(s.skip(sub.len() as int), sub)
    } else {
        plain_count(s.skip(1), sub)
    }
}

proof fn plainly_short(s: Seq<char>, sub: Seq<char>, new: Seq<char>)
    requires
        s.len() < sub.len(),
    ensures
        plainly_replaced(s, sub, new) == s,
        plain_count(s, sub) == 0,
    decreases s.len(),
{
    if s.len() > 0 {
        plainly_short(s.skip(1), sub, new);
        assert(seq![s[0]] + s.skip(1) =~= s);
    }
}

proof fn starts_where_it_occurs(s: Seq<char>, sub: Seq<char>, at: int)
    requires
        0 <= at <= s.len(),
    ensures
        sub.is_prefix_of(s.skip(at)) == occurs_at(s, sub, at),
{
    let rest = s.skip(at);
    if at + sub.len() <= s.len() {
        assert(rest.subrange(0, sub.len() as int) =~= s.subrange(at, at + sub.len()));
    }
}

proof fn pieces_are_plain(s: Seq<char>, sub: Seq<char>, new: Seq<char>, start: int, at: int)
    requires
        sub.len() > 0,
        0 <= start <= at <= s.len(),
    ensures
        join(pieces(s, sub, start, at), new) == s.subrange(start, at) + plainly_replaced(
            s.skip(at),
            sub,
            new,
        ),
        pieces(s, sub, start, at).len() == 1 + plain_count(s.skip(at), sub),
    decreases s.len() - at,
{
    let rest = s.skip(at);
    let front = s.subrange(start, at);
    starts_where_it_occurs(s, sub, at);
    if at + sub.len() > s.len() {
        plainly_short(rest, sub, new);
        assert(s.skip(start) =~= front + rest);
    } else if occurs_at(s, sub, at) {
        let next = at + sub.len();
        pieces_are_plain(s, sub, new, next, next);
        let others = pieces(s, sub, next, next);
        assert(s.subrange(next, next) =~= seq![]);
        assert(rest.skip(sub.len() as int) =~= s.skip(next));
        let more = plainly_replaced(s.skip(next), sub, new);
        assert(join(others, new) =~= more);
        split_text_stays(s, sub, next);
        join_append(seq![front], others, new);
        assert(join(seq![front], new) == front);
        assert(front + new + more =~= front + (new + more));
    } else {
        pieces_are_plain(s, sub, new, start, at + 1);
        assert(rest.skip(1) =~= s.skip(at + 1));
        assert(s.subrange(start, at + 1) =~= front + seq![s[at]]);
        assert(rest[0] == s[at]);
        let more = plainly_replaced(s.skip(at + 1), sub, new);
        assert(front + seq![s[at]] + more =~= front + (seq![s[at]] + more));
    }
}

proof fn split_text_stays(s: Seq<char>, sub: Seq<char>, at: int)
    requires
        sub.len() > 0,
        0 <= at <= s.len(),
    ensures
        pieces(s, sub, at, at).len() > 0,
{
    pieces_stand_between(s, sub, at, at);
}

/// The plain replacement of every place is the text split at the old text and joined
/// with the new one.
pub proof fn replacing_is_splitting_and_joining(s: Seq<char>, sub: Seq<char>, new: Seq<char>)
    requires
        sub.len() > 0,
    ensures
        plainly_replaced(s, sub, new) == join(split_text(s, sub), new),
        plain_count(s, sub) == split_text(s, sub).len() - 1,
{
    pieces_are_plain(s, sub, new, 0, 0);
    assert(s.skip(0) =~= s);
    assert(s.subrange(0, 0) =~= seq![]);
    assert(seq![] + plainly_replaced(s, sub, new) =~= plainly_replaced(s, sub, new));
}

/// Read with bare line feeds, a text is the text split at the carriage returns with
/// their line feeds, and joined with line feeds.
pub proof fn reading_drops_paired_returns(s: Seq<char>)
    ensures
        normal(s) == join(split_text(s, seq!['\r', '\n']), seq!['\n']),
        crlf_count(s) == split_text(s, seq!['\r', '\n']).len() - 1,
{
    normal_is_plain(s);
    replacing_is_splitting_and_joining(s, seq!['\r', '\n'], seq!['\n']);
}

proof fn normal_is_plain(s: Seq<char>)
    ensures
        normal(s) == plainly_replaced(s, seq!['\r', '\n'], seq!['\n']),
        crlf_count(s) == plain_count(s, seq!['\r', '\n']),
    decreases s.len(),
{
    let pair = seq!['\r', '\n'];
    if s.len() > 0 {
        assert(pair.is_prefix_of(s) == (unit(s) == 2)) by {
            if unit(s) == 2 {
                assert(s.subrange(0, 2) =~= pair);
            }
            if pair.is_prefix_of(s) {
                assert(s.subrange(0, 2)[0] == pair[0]);
                assert(s.subrange(0, 2)[1] == pair[1]);
            }
        }
        normal_is_plain(s.skip(unit(s)));
    }
}

/// The line feeds of a text are those that stand alone and those with a carriage
/// return before them.
pub proof fn every_line_ends_one_way(s: Seq<char>)
    ensures
        lf_count(s) + crlf_count(s) == split(s, '\n').len() - 1,
    decreases s.len(),
{
    if s.len() == 0 {
        assert(split(s, '\n') =~= seq![s]);
    } else {
        let u = unit(s);
        every_line_ends_one_way(s.skip(u));
        splitting_past(s);
        if u == 2 {
            splitting_past(s.skip(1));
            assert(s.skip(1).skip(1) =~= s.skip(2));
        }
    }
}

proof fn splitting_past(s: Seq<char>)
    requires
        s.len() > 0,
    ensures
        split(s, '\n').len() == split(s.skip(1), '\n').len() + (if s[0] == '\n' {
            1int
        } else {
            0int
        }),
{
    let rest = s.skip(1);
    let n = index_of(s, '\n');
    index_of_bounds(s, '\n');
    index_of_bounds(rest, '\n');
    if s[0] == '\n' {
        index_of_is(s, '\n', 0);
    } else if n < s.len() {
        index_of_is(rest, '\n', n - 1);
        assert(rest.skip(n) =~= s.skip(n + 1));
    } else {
        index_of_is(rest, '\n', rest.len() as int);
    }
}

/// A text is written with a line ending by putting it where the line feeds are.
pub proof fn rendering_puts_the_line_ending(s: Seq<char>, eol: LineEnding)
    ensures
        rendered(s, eol) == join(split(s, '\n'), if eol == LineEnding::Crlf {
            seq!['\r', '\n']
        } else {
            seq!['\n']
        }),
    decreases s.len(),
{
    let sep = if eol == LineEnding::Crlf {
        seq!['\r', '\n']
    } else {
        seq!['\n']
    };
    if s.len() == 0 {
        assert(split(s, '\n') =~= seq![s]);
        assert(rendered(s, eol) =~= s);
    } else {
        let front = s.drop_last();
        rendering_puts_the_line_ending(front, eol);
        splitting_the_last(s);
        let parts = split(front, '\n');
        split_stands_between(front, '\n');
        if s.last() == '\n' {
            let none = Seq::<char>::empty();
            assert(parts.push(none).drop_last() =~= parts);
            assert(rendered(s, eol) =~= join(parts, sep) + sep + none);
        } else {
            let longer = parts.drop_last().push(parts.last().push(s.last()));
            assert(longer.drop_last() =~= parts.drop_last());
            assert(rendered(s, eol) =~= join(longer, sep));
        }
    }
}

proof fn splitting_the_last(s: Seq<char>)
    requires
        s.len() > 0,
    ensures
        ({
            let parts = split(s.drop_last(), '\n');
            split(s, '\n') == (if s.last() == '\n' {
                parts.push(Seq::<char>::empty())
            } else {
                parts.drop_last().push(parts.last().push(s.last()))
            })
        }),
    decreases s.len(),
{
    let front = s.drop_last();
    let n = index_of(front, '\n');
    index_of_bounds(front, '\n');
    let none = Seq::<char>::empty();
    assert(forall|j: int| 0 <= j < front.len() ==> #[trigger] s[j] == front[j]);
    if n < front.len() {
        index_of_is(s, '\n', n);
        let rest = s.skip(n + 1);
        assert(s.take(n) =~= front.take(n));
        assert(rest.drop_last() =~= front.skip(n + 1));
        splitting_the_last(rest);
        let parts = split(rest.drop_last(), '\n');
        split_stands_between(rest.drop_last(), '\n');
        let first = seq![s.take(n)];
        assert(first + parts.push(none) =~= (first + parts).push(none));
        assert(first + parts.drop_last().push(parts.last().push(s.last())) =~= (first
            + parts).drop_last().push((first + parts).last().push(s.last())));
    } else {
        assert(split(front, '\n') =~= seq![front]);
        if s.last() == '\n' {
            index_of_is(s, '\n', front.len() as int);
            assert(s.take(front.len() as int) =~= front);
            assert(s.skip((front.len() + 1) as int) =~= none);
            assert(split(none, '\n') =~= seq![none]);
            assert(split(s, '\n') =~= seq![front].push(none));
        } else {
            index_of_is(s, '\n', s.len() as int);
            assert(front.push(s.last()) =~= s);
            assert(split(s, '\n') =~= seq![s]);
        }
    }
}

/// Texts with others between them.
pub open spec fn interleaved(kept: Seq<Seq<char>>, gone: Seq<Seq<char>>) -> Seq<char>
    decreases gone.len(),
{
    if gone.len() == 0 {
        kept[0]
    } else {
        kept[0] + gone[0] + interleaved(kept.skip(1), gone.skip(1))
    }
}

/// Whether a text falls into what an edit kept and what it took out, which reads as
/// the old text, and the edited text is what was kept, joined with the new text.
pub open spec fn woven(
    s: Seq<char>,
    old_text: Seq<char>,
    new: Seq<char>,
    out: Seq<char>,
    kept: Seq<Seq<char>>,
    gone: Seq<Seq<char>>,
) -> bool {
    &&& kept.len() == gone.len() + 1
    &&& interleaved(kept, gone) == s
    &&& forall|k: int| 0 <= k < gone.len() ==> normal(#[trigger] gone[k]) == old_text
    &&& out == join(kept, new)
}

/// An edit keeps all of the text but what reads as the old text, character for
/// character, and puts the new text where that stood: everywhere, or at one place.
pub proof fn replacing_weaves(s: Seq<char>, old_text: Seq<char>, new: Seq<char>, all: bool) -> (r:
    (Seq<Seq<char>>, Seq<Seq<char>>))
    requires
        old_text.len() > 0,
    ensures
        woven(s, old_text, new, replaced(s, old_text, new, all), r.0, r.1),
        r.1.len() == (if all || plain_count(normal(s), old_text) == 0 {
            plain_count(normal(s), old_text)
        } else {
            1
        }),
        plain_count(normal(s), old_text) >= 0,
    decreases s.len(),
{
    let none = Seq::<char>::empty();
    let out = replaced(s, old_text, new, all);
    if s.len() == 0 {
        assert(normal(s) =~= seq![]);
        (seq![s], seq![])
    } else if old_text.is_prefix_of(normal(s)) {
        let m = old_text.len() as int;
        let n = extent(s, m);
        extent_bounds(s, m);
        extent_reads_as(s, m);
        extent_skips(s, m);
        let rest = s.skip(n);
        assert(normal(s).take(m) =~= old_text);
        let (kept, gone) = replacing_weaves(rest, old_text, new, all);
        if all {
            let k = seq![none] + kept;
            let g = seq![s.take(n)] + gone;
            assert(k.skip(1) =~= kept);
            assert(g.skip(1) =~= gone);
            assert(interleaved(k, g) =~= s);
            join_append(seq![none], kept, new);
            assert(join(seq![none], new) =~= none);
            assert(join(k, new) =~= out);
            assert forall|i: int| 0 <= i < g.len() implies normal(#[trigger] g[i]) == old_text by {
                if i > 0 {
                    assert(g[i] == gone[i - 1]);
                }
            }
            (k, g)
        } else {
            let k = seq![none, rest];
            let g = seq![s.take(n)];
            assert(k.skip(1) =~= seq![rest]);
            assert(g.skip(1) =~= seq![]);
            assert(interleaved(k.skip(1), g.skip(1)) == rest);
            assert(interleaved(k, g) =~= s);
            assert(k.drop_last() =~= seq![none]);
            assert(join(seq![none], new) == none);
            assert(k.last() == rest);
            assert(join(k, new) =~= out);
            (k, g)
        }
    } else {
        let u = unit(s);
        let rest = s.skip(u);
        let (kept, gone) = replacing_weaves(rest, old_text, new, all);
        assert(normal(s).skip(1) =~= normal(rest));
        let first = s.take(u);
        let k = kept.update(0, first + kept[0]);
        assert(k.skip(1) =~= kept.skip(1));
        assert(interleaved(k, gone) =~= first + interleaved(kept, gone));
        assert(first + rest =~= s);
        join_starts_with(kept, first, new);
        (k, gone)
    }
}

proof fn join_starts_with(parts: Seq<Seq<char>>, first: Seq<char>, sep: Seq<char>)
    requires
        parts.len() > 0,
    ensures
        join(parts.update(0, first + parts[0]), sep) == first + join(parts, sep),
    decreases parts.len(),
{
    let longer = parts.update(0, first + parts[0]);
    if parts.len() > 1 {
        join_starts_with(parts.drop_last(), first, sep);
        assert(longer.drop_last() =~= parts.drop_last().update(0, first + parts[0]));
        assert(join(longer, sep) =~= first + join(parts, sep));
    }
}

/// Whether every carriage return of a text stands before a line feed.
pub open spec fn paired(s: Seq<char>) -> bool {
    forall|i: int|
        0 <= i < s.len() && #[trigger] s[i] == '\r' ==> i + 1 < s.len() && s[i + 1] == '\n'
}

/// A text whose carriage returns all stand before line feeds reads without any.
pub proof fn a_paired_text_reads_bare(s: Seq<char>)
    requires
        paired(s),
    ensures
        bare(normal(s)),
    decreases s.len(),
{
    if s.len() > 0 {
        let u = unit(s);
        let rest = s.skip(u);
        assert(s[0] == '\r' ==> u == 2);
        assert forall|i: int| 0 <= i < rest.len() && #[trigger] rest[i] == '\r' implies i + 1
            < rest.len() && rest[i + 1] == '\n' by {
            assert(s[i + u] == '\r');
        }
        a_paired_text_reads_bare(rest);
    }
}

proof fn without_a_place_nothing_changes(
    s: Seq<char>,
    old_text: Seq<char>,
    new: Seq<char>,
    all: bool,
)
    requires
        old_text.len() > 0,
        plain_count(normal(s), old_text) == 0,
    ensures
        replaced(s, old_text, new, all) == s,
    decreases s.len(),
{
    if s.len() > 0 {
        if old_text.is_prefix_of(normal(s)) {
            extent_skips(s, old_text.len() as int);
            let (kept, gone) = replacing_weaves(
                s.skip(extent(s, old_text.len() as int)),
                old_text,
                new,
                true,
            );
        } else {
            let rest = s.skip(unit(s));
            assert(normal(s).skip(1) =~= normal(rest));
            without_a_place_nothing_changes(rest, old_text, new, all);
            assert(s.take(unit(s)) + rest =~= s);
        }
    }
}

/// Where there is one place, an edit of one place is an edit of every place.
pub proof fn one_place_is_every_place(s: Seq<char>, old_text: Seq<char>, new: Seq<char>)
    requires
        old_text.len() > 0,
        plain_count(normal(s), old_text) == 1,
    ensures
        replaced(s, old_text, new, false) == replaced(s, old_text, new, true),
    decreases s.len(),
{
    if s.len() > 0 {
        if old_text.is_prefix_of(normal(s)) {
            extent_skips(s, old_text.len() as int);
            let rest = s.skip(extent(s, old_text.len() as int));
            without_a_place_nothing_changes(rest, old_text, new, true);
        } else {
            let rest = s.skip(unit(s));
            assert(normal(s).skip(1) =~= normal(rest));
            one_place_is_every_place(rest, old_text, new);
        }
    }
}

/// A text is taken to end its lines in carriage returns and line feeds where more than
/// half of its line feeds have a carriage return before them.
pub proof fn the_commoner_line_ending_is_taken(s: Seq<char>)
    ensures
        dominant(s) == LineEnding::Crlf <==> 2 * (split_text(s, seq!['\r', '\n']).len() - 1)
            > split(s, '\n').len() - 1,
{
    reading_drops_paired_returns(s);
    every_line_ends_one_way(s);
}

} // verus!
