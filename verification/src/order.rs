//! The order of texts: by the code points of their characters, which is also
//! the order of their bytes in UTF-8.
use vstd::prelude::*;
use crate::text::{chars_of, views};

verus! {

/// Whether `a` comes no later than `b`.
pub open spec fn no_later(a: Seq<char>, b: Seq<char>) -> bool
    decreases a.len(),
{
    if a.len() == 0 {
        true
    } else if b.len() == 0 {
        false
    } else if a[0] != b[0] {
        a[0] < b[0]
    } else {
        no_later(a.skip(1), b.skip(1))
    }
}

pub proof fn no_later_is_total(a: Seq<char>, b: Seq<char>)
    ensures
        no_later(a, b) || no_later(b, a),
    decreases a.len(),
{
    if a.len() > 0 && b.len() > 0 && a[0] == b[0] {
        no_later_is_total(a.skip(1), b.skip(1));
    }
}

pub proof fn no_later_is_transitive(a: Seq<char>, b: Seq<char>, c: Seq<char>)
    requires
        no_later(a, b),
        no_later(b, c),
    ensures
        no_later(a, c),
    decreases a.len(),
{
    if a.len() > 0 && a[0] == b[0] && b[0] == c[0] {
        no_later_is_transitive(a.skip(1), b.skip(1), c.skip(1));
    }
}

/// Two texts that may stand either way are the same.
pub proof fn no_later_is_antisymmetric(a: Seq<char>, b: Seq<char>)
    requires
        no_later(a, b),
        no_later(b, a),
    ensures
        a == b,
    decreases a.len(),
{
    if a.len() > 0 && b.len() > 0 {
        no_later_is_antisymmetric(a.skip(1), b.skip(1));
        assert(a =~= seq![a[0]] + a.skip(1));
        assert(b =~= seq![b[0]] + b.skip(1));
    } else {
        assert(a =~= b);
    }
}

/// Whether `a` comes no later than `b`.
pub fn comes_no_later(a: &str, b: &str) -> (r: bool)
    ensures
        r == no_later(a@, b@),
{
    let x = chars_of(a);
    let y = chars_of(b);
    let mut i: usize = 0;
    assert(x@.skip(0) =~= x@);
    assert(y@.skip(0) =~= y@);
    while i < x.len()
        invariant
            i <= x@.len(),
            i <= y@.len(),
            x@ == a@,
            y@ == b@,
            no_later(a@, b@) == no_later(x@.skip(i as int), y@.skip(i as int)),
        decreases x.len() - i,
    {
        if i >= y.len() {
            return false;
        }
        assert(x@.skip(i as int)[0] == x@[i as int]);
        assert(y@.skip(i as int)[0] == y@[i as int]);
        assert(x@.skip(i as int).skip(1) =~= x@.skip(i + 1));
        assert(y@.skip(i as int).skip(1) =~= y@.skip(i + 1));
        if x[i] != y[i] {
            return x[i] < y[i];
        }
        i += 1;
    }
    true
}

/// Whether the texts stand in order.
pub open spec fn in_order(all: Seq<Seq<char>>) -> bool {
    forall|i: int, j: int| 0 <= i <= j < all.len() ==> no_later(#[trigger] all[i], #[trigger] all[j])
}

/// The position at which `x` goes into texts that stand in order.
pub open spec fn place(all: Seq<Seq<char>>, x: Seq<char>) -> int
    decreases all.len(),
{
    if all.len() == 0 {
        0
    } else if no_later(all.last(), x) {
        all.len() as int
    } else {
        place(all.drop_last(), x)
    }
}

pub proof fn place_bounds(all: Seq<Seq<char>>, x: Seq<char>)
    ensures
        0 <= place(all, x) <= all.len(),
        place(all, x) > 0 ==> no_later(all[place(all, x) - 1], x),
        forall|i: int| place(all, x) <= i < all.len() ==> !no_later(#[trigger] all[i], x),
    decreases all.len(),
{
    if all.len() > 0 && !no_later(all.last(), x) {
        let front = all.drop_last();
        place_bounds(front, x);
        assert forall|i: int| place(all, x) <= i < all.len() implies !no_later(
            #[trigger] all[i],
            x,
        ) by {
            if i < front.len() {
                assert(front[i] == all[i]);
            }
        }
    }
}

/// The texts of `all` in order; equal ones keep theirs.
pub open spec fn sorted(all: Seq<Seq<char>>) -> Seq<Seq<char>>
    decreases all.len(),
{
    if all.len() == 0 {
        seq![]
    } else {
        let front = sorted(all.drop_last());
        front.insert(place(front, all.last()), all.last())
    }
}

/// Sorting puts the texts in order and neither loses nor invents one.
pub proof fn sorting_orders(all: Seq<Seq<char>>)
    ensures
        in_order(sorted(all)),
        sorted(all).len() == all.len(),
        sorted(all).to_multiset() == all.to_multiset(),
    decreases all.len(),
{
    if all.len() > 0 {
        let x = all.last();
        let front = sorted(all.drop_last());
        sorting_orders(all.drop_last());
        place_bounds(front, x);
        let at = place(front, x);
        let after = front.insert(at, x);
        assert forall|i: int, j: int| 0 <= i <= j < after.len() implies no_later(
            #[trigger] after[i],
            #[trigger] after[j],
        ) by {
            no_later_is_total(x, x);
            if i < at {
                assert(after[i] == front[i]);
                no_later_is_transitive(front[i], front[at - 1], x);
                if j > at {
                    assert(after[j] == front[j - 1]);
                } else if j < at {
                    assert(after[j] == front[j]);
                }
            } else if i == at {
                if j > at {
                    assert(after[j] == front[j - 1]);
                    no_later_is_total(x, front[j - 1]);
                }
            } else {
                assert(after[i] == front[i - 1]);
                assert(after[j] == front[j - 1]);
            }
        }
        front.insert_ensures(at, x);
        vstd::seq_lib::to_multiset_insert(front, at, x);
        assert(all =~= all.drop_last().push(x));
        vstd::seq_lib::to_multiset_build(all.drop_last(), x);
    } else {
        assert(sorted(all) =~= all);
    }
}

/// The texts of `all` in order.
pub fn sort(all: &Vec<String>) -> (out: Vec<String>)
    ensures
        views(out@) == sorted(views(all@)),
{
    let ghost model = views(all@);
    let mut out: Vec<String> = Vec::new();
    let mut i: usize = 0;
    assert(model.take(0) =~= seq![]);
    assert(views(out@) =~= seq![]);
    while i < all.len()
        invariant
            i <= all@.len(),
            model == views(all@),
            views(out@) == sorted(model.take(i as int)),
        decreases all.len() - i,
    {
        let ghost next = model.take(i + 1);
        let ghost front = views(out@);
        let ghost x = all@[i as int]@;
        assert(next.drop_last() =~= model.take(i as int));
        assert(next.last() == x);
        let mut at: usize = out.len();
        assert(front.take(front.len() as int) =~= front);
        while at > 0 && !comes_no_later(&out[at - 1], &all[i])
            invariant
                at <= out@.len(),
                i < all@.len(),
                front == views(out@),
                x == all@[i as int]@,
                place(front, x) == place(front.take(at as int), x),
            decreases at,
        {
            let ghost t = front.take(at as int);
            assert(t.drop_last() =~= front.take(at - 1));
            assert(t.last() == out@[at - 1]@);
            at -= 1;
        }
        let ghost t = front.take(at as int);
        assert(at > 0 ==> t.last() == out@[at - 1]@);
        assert(place(front, x) == at);
        out.insert(at, all[i].clone());
        assert(views(out@) =~= front.insert(at as int, x));
        i += 1;
    }
    assert(model.take(model.len() as int) =~= model);
    out
}

// ---------------------------------------------------------------------------
// Other orders
// ---------------------------------------------------------------------------

/// Whether a relation orders any two values, and in a chain.
pub open spec fn is_order<T>(le: spec_fn(T, T) -> bool) -> bool {
    &&& forall|a: T, b: T| #[trigger] le(a, b) || le(b, a)
    &&& forall|a: T, b: T, c: T| #[trigger] le(a, b) && #[trigger] le(b, c) ==> le(a, c)
}

/// The position at which `x` goes into values that stand in order: after all
/// those that may stand before it.
pub open spec fn place_by<T>(all: Seq<T>, x: T, le: spec_fn(T, T) -> bool) -> int
    decreases all.len(),
{
    if all.len() == 0 {
        0
    } else if le(all.last(), x) {
        all.len() as int
    } else {
        place_by(all.drop_last(), x, le)
    }
}

proof fn place_by_bounds<T>(all: Seq<T>, x: T, le: spec_fn(T, T) -> bool)
    ensures
        0 <= place_by(all, x, le) <= all.len(),
        place_by(all, x, le) > 0 ==> le(all[place_by(all, x, le) - 1], x),
        forall|i: int| place_by(all, x, le) <= i < all.len() ==> !le(#[trigger] all[i], x),
    decreases all.len(),
{
    if all.len() > 0 && !le(all.last(), x) {
        let front = all.drop_last();
        place_by_bounds(front, x, le);
        assert forall|i: int| place_by(all, x, le) <= i < all.len() implies !le(
            #[trigger] all[i],
            x,
        ) by {
            if i < front.len() {
                assert(front[i] == all[i]);
            }
        }
    }
}

/// The values of `all` in order; those that may stand either way keep theirs.
pub open spec fn sorted_by<T>(all: Seq<T>, le: spec_fn(T, T) -> bool) -> Seq<T>
    decreases all.len(),
{
    if all.len() == 0 {
        seq![]
    } else {
        let front = sorted_by(all.drop_last(), le);
        front.insert(place_by(front, all.last(), le), all.last())
    }
}

/// Whether the values stand in order.
pub open spec fn ordered_by<T>(all: Seq<T>, le: spec_fn(T, T) -> bool) -> bool {
    forall|i: int, j: int| 0 <= i < j < all.len() ==> le(#[trigger] all[i], #[trigger] all[j])
}

/// Sorting puts the values in order and neither loses nor invents one.
pub proof fn sorting_by_orders<T>(all: Seq<T>, le: spec_fn(T, T) -> bool)
    requires
        is_order(le),
    ensures
        ordered_by(sorted_by(all, le), le),
        sorted_by(all, le).len() == all.len(),
        sorted_by(all, le).to_multiset() == all.to_multiset(),
    decreases all.len(),
{
    if all.len() > 0 {
        let x = all.last();
        let front = sorted_by(all.drop_last(), le);
        sorting_by_orders(all.drop_last(), le);
        place_by_bounds(front, x, le);
        let at = place_by(front, x, le);
        let after = front.insert(at, x);
        assert forall|i: int, j: int| 0 <= i < j < after.len() implies le(
            #[trigger] after[i],
            #[trigger] after[j],
        ) by {
            if j < at {
                assert(after[i] == front[i] && after[j] == front[j]);
            } else if j == at {
                assert(after[i] == front[i] && after[j] == x);
                if i < at - 1 {
                    assert(le(front[i], front[at - 1]));
                    assert(le(front[at - 1], x));
                }
            } else if i < at {
                assert(after[i] == front[i] && after[j] == front[j - 1]);
            } else if i == at {
                assert(after[i] == x && after[j] == front[j - 1]);
                assert(!le(front[j - 1], x));
                assert(le(x, front[j - 1]) || le(front[j - 1], x));
            } else {
                assert(after[i] == front[i - 1] && after[j] == front[j - 1]);
            }
        }
        front.insert_ensures(at, x);
        vstd::seq_lib::to_multiset_insert(front, at, x);
        assert(all =~= all.drop_last().push(x));
        vstd::seq_lib::to_multiset_build(all.drop_last(), x);
    } else {
        assert(sorted_by(all, le) =~= all);
    }
}

/// Whether no two of the values may stand either way.
pub open spec fn apart<T>(all: Seq<T>, le: spec_fn(T, T) -> bool) -> bool {
    forall|a: T, b: T|
        all.contains(a) && all.contains(b) && #[trigger] le(a, b) && #[trigger] le(b, a) ==> a == b
}

/// Values that are told apart by the order stand in it in one way only.
proof fn one_order<T>(a: Seq<T>, b: Seq<T>, le: spec_fn(T, T) -> bool)
    requires
        ordered_by(a, le),
        ordered_by(b, le),
        a.to_multiset() == b.to_multiset(),
        apart(a, le),
    ensures
        a == b,
    decreases a.len(),
{
    broadcast use vstd::seq_lib::group_to_multiset_ensures;

    a.to_multiset_ensures();
    b.to_multiset_ensures();
    assert(a.len() == b.len());
    if a.len() == 0 {
        assert(a =~= b);
    } else {
        let x = a.last();
        let y = b.last();
        assert(a.contains(x)) by {
            assert(a[a.len() - 1] == x);
        }
        assert(b.contains(y)) by {
            assert(b[b.len() - 1] == y);
        }
        assert(a.to_multiset().count(y) > 0);
        assert(a.contains(y));
        assert(b.to_multiset().count(x) > 0);
        assert(b.contains(x));
        let i = choose|i: int| 0 <= i < a.len() && a[i] == y;
        let j = choose|j: int| 0 <= j < b.len() && b[j] == x;
        if x != y {
            assert(i < a.len() - 1);
            assert(le(a[i], a[a.len() - 1]));
            assert(le(y, x));
            assert(j < b.len() - 1);
            assert(le(b[j], b[b.len() - 1]));
            assert(le(x, y));
            assert(x == y);
        }
        let p = a.drop_last();
        let q = b.drop_last();
        assert(a =~= p.push(x));
        assert(b =~= q.push(x));
        vstd::seq_lib::to_multiset_build(p, x);
        vstd::seq_lib::to_multiset_build(q, x);
        assert(p.to_multiset() =~= a.to_multiset().remove(x));
        assert(q.to_multiset() =~= b.to_multiset().remove(x));
        assert forall|i: int, j: int| 0 <= i < j < p.len() implies le(
            #[trigger] p[i],
            #[trigger] p[j],
        ) by {
            assert(p[i] == a[i] && p[j] == a[j]);
        }
        assert forall|i: int, j: int| 0 <= i < j < q.len() implies le(
            #[trigger] q[i],
            #[trigger] q[j],
        ) by {
            assert(q[i] == b[i] && q[j] == b[j]);
        }
        assert forall|c: T, d: T|
            p.contains(c) && p.contains(d) && #[trigger] le(c, d) && #[trigger] le(
                d,
                c,
            ) implies c == d by {
            let m = choose|m: int| 0 <= m < p.len() && p[m] == c;
            let n = choose|n: int| 0 <= n < p.len() && p[n] == d;
            assert(a[m] == c && a[n] == d);
            assert(a.contains(c) && a.contains(d));
        }
        one_order(p, q, le);
    }
}

/// Values that are told apart by the order come out of sorting the same way,
/// however they stood before.
pub proof fn sorting_forgets_the_order<T>(a: Seq<T>, b: Seq<T>, le: spec_fn(T, T) -> bool)
    requires
        is_order(le),
        a.to_multiset() == b.to_multiset(),
        apart(a, le),
    ensures
        sorted_by(a, le) == sorted_by(b, le),
{
    sorting_by_orders(a, le);
    sorting_by_orders(b, le);
    let s = sorted_by(a, le);
    a.to_multiset_ensures();
    s.to_multiset_ensures();
    assert forall|c: T, d: T|
        s.contains(c) && s.contains(d) && #[trigger] le(c, d) && #[trigger] le(
            d,
            c,
        ) implies c == d by {
        assert(s.to_multiset().count(c) > 0 && s.to_multiset().count(d) > 0);
        assert(a.contains(c) && a.contains(d));
    }
    one_order(s, sorted_by(b, le), le);
}

/// Of two texts the one comes first whose character is the lesser at the first place
/// where they differ; a text comes before any that it begins.
pub proof fn the_first_difference_decides(a: Seq<char>, b: Seq<char>, k: int)
    requires
        0 <= k <= a.len(),
        k <= b.len(),
        a.take(k) == b.take(k),
    ensures
        k < a.len() && k < b.len() && a[k] < b[k] ==> no_later(a, b) && !no_later(b, a),
        k == a.len() ==> no_later(a, b),
        k == a.len() && k < b.len() ==> !no_later(b, a),
    decreases k,
{
    if k > 0 {
        assert(a.take(k)[0] == a[0]);
        assert(b.take(k)[0] == b[0]);
        let x = a.skip(1);
        let y = b.skip(1);
        assert(x.take(k - 1) =~= y.take(k - 1)) by {
            assert forall|i: int| 0 <= i < k - 1 implies x[i] == y[i] by {
                assert(a.take(k)[i + 1] == a[i + 1]);
                assert(b.take(k)[i + 1] == b[i + 1]);
            }
        }
        the_first_difference_decides(x, y, k - 1);
    }
}

} // verus!
