//! Paths written with `/`.
use vstd::prelude::*;
use crate::order::{
    comes_no_later, no_later, no_later_is_antisymmetric, no_later_is_total, no_later_is_transitive,
};
use crate::text::{
    chars_of, find_last, join, join_append, last_of, opt_view, same, split, split_on,
    split_stands_between, splitting_undoes_joining, string_of, views,
};

verus! {

/// The part of a file's name after its last dot. A name that begins with its
/// only dot has none.
pub open spec fn extension(name: Seq<char>) -> Option<Seq<char>> {
    match last_of(name, '.') {
        Some(i) => if i > 0 {
            Some(name.skip(i + 1))
        } else {
            None
        },
        None => None,
    }
}

/// The part of a file's name after its last dot.
pub fn extension_of(name: &str) -> (r: Option<String>)
    ensures
        opt_view(r) == extension(name@),
{
    let x = chars_of(name);
    assert(x@.take(x@.len() as int) =~= name@);
    match find_last(&x, '.', x.len()) {
        Some(i) => {
            if i > 0 {
                let out = string_of(&x, i + 1, x.len());
                assert(out@ =~= name@.skip(i + 1));
                Some(out)
            } else {
                None
            }
        },
        None => None,
    }
}

/// A directory and a path below it, joined. An absolute path stands for itself.
pub open spec fn joined(base: Seq<char>, path: Seq<char>) -> Seq<char> {
    if path.len() > 0 && path[0] == '/' {
        path
    } else if base.len() == 0 || base.last() == '/' {
        base + path
    } else {
        base + "/"@ + path
    }
}

/// A directory and a path below it, joined.
pub fn join_path(base: &str, path: &str) -> (out: String)
    ensures
        out@ == joined(base@, path@),
{
    let x = chars_of(base);
    let y = chars_of(path);
    if y.len() > 0 && y[0] == '/' {
        return path.to_string();
    }
    let mut out = base.to_string();
    if x.len() > 0 && x[x.len() - 1] != '/' {
        out.push_str("/");
    }
    out.push_str(path);
    out
}

// ---------------------------------------------------------------------------
// The order of paths
// ---------------------------------------------------------------------------

/// One component of a path, with its rank among the kinds of components: the
/// root, the current directory, the directory above, a name.
pub struct Component {
    pub rank: int,
    pub name: Seq<char>,
}

/// The components that the first `n` pieces between slashes make up. Empty
/// pieces count for nothing, nor does a dot but at the very beginning.
pub open spec fn components_of(pieces: Seq<Seq<char>>, n: int) -> Seq<Component>
    decreases n,
{
    if n <= 0 || n > pieces.len() {
        seq![]
    } else {
        let before = components_of(pieces, n - 1);
        let piece = pieces[n - 1];
        if piece.len() == 0 {
            before
        } else if piece == "."@ {
            if n == 1 {
                before.push(Component { rank: 1, name: piece })
            } else {
                before
            }
        } else if piece == ".."@ {
            before.push(Component { rank: 2, name: piece })
        } else {
            before.push(Component { rank: 3, name: piece })
        }
    }
}

/// The components of a path.
pub open spec fn components(path: Seq<char>) -> Seq<Component> {
    let pieces = split(path, '/');
    let named = components_of(pieces, pieces.len() as int);
    if path.len() > 0 && path[0] == '/' {
        seq![Component { rank: 0, name: "/"@ }] + named
    } else {
        named
    }
}

/// Whether one component comes no later than another.
pub open spec fn component_no_later(a: Component, b: Component) -> bool {
    a.rank < b.rank || (a.rank == b.rank && no_later(a.name, b.name))
}

/// Whether one list of components comes no later than another: by the first
/// that differs, and a list before those that go on from it.
pub open spec fn components_no_later(a: Seq<Component>, b: Seq<Component>) -> bool
    decreases a.len(),
{
    if a.len() == 0 {
        true
    } else if b.len() == 0 {
        false
    } else if a[0] != b[0] {
        component_no_later(a[0], b[0])
    } else {
        components_no_later(a.skip(1), b.skip(1))
    }
}

/// Whether one path comes no later than another.
pub open spec fn path_no_later(a: Seq<char>, b: Seq<char>) -> bool {
    components_no_later(components(a), components(b))
}

/// Any two lists of components stand in order one way or the other.
pub proof fn components_are_ordered(a: Seq<Component>, b: Seq<Component>)
    ensures
        components_no_later(a, b) || components_no_later(b, a),
    decreases a.len(),
{
    if a.len() > 0 && b.len() > 0 {
        if a[0] == b[0] {
            components_are_ordered(a.skip(1), b.skip(1));
        } else {
            no_later_is_total(a[0].name, b[0].name);
        }
    }
}

pub proof fn components_chain(a: Seq<Component>, b: Seq<Component>, c: Seq<Component>)
    requires
        components_no_later(a, b),
        components_no_later(b, c),
    ensures
        components_no_later(a, c),
    decreases a.len(),
{
    if a.len() > 0 {
        if a[0] == b[0] && b[0] == c[0] {
            components_chain(a.skip(1), b.skip(1), c.skip(1));
        } else if a[0] != b[0] && b[0] != c[0] {
            if a[0].rank == b[0].rank && b[0].rank == c[0].rank {
                no_later_is_transitive(a[0].name, b[0].name, c[0].name);
                if a[0].name == c[0].name {
                    no_later_is_antisymmetric(a[0].name, b[0].name);
                }
            }
        }
    }
}

/// Two paths that may stand either way have the same components.
pub proof fn components_are_told_apart(a: Seq<Component>, b: Seq<Component>)
    requires
        components_no_later(a, b),
        components_no_later(b, a),
    ensures
        a == b,
    decreases a.len(),
{
    if a.len() > 0 && b.len() > 0 {
        if a[0] == b[0] {
            components_are_told_apart(a.skip(1), b.skip(1));
            assert(a =~= seq![a[0]] + a.skip(1));
            assert(b =~= seq![b[0]] + b.skip(1));
        } else {
            no_later_is_antisymmetric(a[0].name, b[0].name);
        }
    } else {
        assert(a =~= b);
    }
}

/// The components as they are worked with.
spec fn comps_view(v: Seq<(u8, String)>) -> Seq<Component> {
    Seq::new(v.len(), |i: int| Component { rank: v[i].0 as int, name: v[i].1@ })
}

fn read_components(path: &str) -> (out: Vec<(u8, String)>)
    ensures
        comps_view(out@) == components(path@),
{
    let x = chars_of(path);
    let pieces = split_on(path, '/');
    let ghost model = views(pieces@);
    let mut out: Vec<(u8, String)> = Vec::new();
    let rooted = x.len() > 0 && x[0] == '/';
    if rooted {
        out.push((0, "/".to_string()));
    }
    let ghost head = comps_view(out@);
    assert(head =~= (if rooted {
        seq![Component { rank: 0, name: "/"@ }]
    } else {
        seq![]
    }));
    assert(head + components_of(model, 0) =~= head);
    let mut i: usize = 0;
    while i < pieces.len()
        invariant
            i <= pieces@.len(),
            model == views(pieces@),
            comps_view(out@) == head + components_of(model, i as int),
        decreases pieces.len() - i,
    {
        let ghost before = comps_view(out@);
        let ghost named = components_of(model, i as int);
        assert(model[i as int] == pieces@[i as int]@);
        let piece = pieces[i].clone();
        if piece.as_str().is_empty() {
        } else if same(&piece, ".") {
            if i == 0 {
                out.push((1, piece));
                let ghost c = Component { rank: 1, name: model[i as int] };
                assert(comps_view(out@) =~= before.push(c));
                assert(before.push(c) =~= head + named.push(c));
            }
        } else if same(&piece, "..") {
            out.push((2, piece));
            let ghost c = Component { rank: 2, name: model[i as int] };
            assert(comps_view(out@) =~= before.push(c));
            assert(before.push(c) =~= head + named.push(c));
        } else {
            out.push((3, piece));
            let ghost c = Component { rank: 3, name: model[i as int] };
            assert(comps_view(out@) =~= before.push(c));
            assert(before.push(c) =~= head + named.push(c));
        }
        i += 1;
    }
    assert(comps_view(out@) =~= components(path@));
    out
}

/// Whether one path comes no later than another.
pub fn path_comes_no_later(a: &str, b: &str) -> (r: bool)
    ensures
        r == path_no_later(a@, b@),
{
    let x = read_components(a);
    let y = read_components(b);
    let ghost p = comps_view(x@);
    let ghost q = comps_view(y@);
    let mut i: usize = 0;
    assert(p.skip(0) =~= p);
    assert(q.skip(0) =~= q);
    while i < x.len()
        invariant
            i <= x@.len(),
            i <= y@.len(),
            p == comps_view(x@),
            q == comps_view(y@),
            path_no_later(a@, b@) == components_no_later(p.skip(i as int), q.skip(i as int)),
        decreases x.len() - i,
    {
        if i >= y.len() {
            return false;
        }
        assert(p.skip(i as int)[0] == p[i as int]);
        assert(q.skip(i as int)[0] == q[i as int]);
        assert(p.skip(i as int).skip(1) =~= p.skip(i + 1));
        assert(q.skip(i as int).skip(1) =~= q.skip(i + 1));
        if x[i].0 != y[i].0 {
            return x[i].0 < y[i].0;
        }
        if !same(&x[i].1, &y[i].1) {
            return comes_no_later(&x[i].1, &y[i].1);
        }
        assert(p[i as int] =~= q[i as int]);
        i += 1;
    }
    true
}

/// The name of the file a path leads to.
pub open spec fn file_name(path: Seq<char>) -> Option<Seq<char>> {
    let c = components(path);
    if c.len() > 0 && c.last().rank == 3 {
        Some(c.last().name)
    } else {
        None
    }
}

/// The extension of the file a path leads to.
pub open spec fn path_extension(path: Seq<char>) -> Option<Seq<char>> {
    match file_name(path) {
        Some(name) => extension(name),
        None => None,
    }
}

/// A text, empty where there is none.
pub open spec fn or_empty(s: Option<Seq<char>>) -> Seq<char> {
    match s {
        Some(s) => s,
        None => seq![],
    }
}

/// The name of the file a path leads to.
pub fn file_name_of(path: &str) -> (r: Option<String>)
    ensures
        opt_view(r) == file_name(path@),
{
    let v = read_components(path);
    let n: usize = v.len();
    assert(comps_view(v@).len() == n);
    if n > 0 && v[n - 1].0 == 3 {
        assert(comps_view(v@).last() == comps_view(v@)[n - 1]);
        Some(v[n - 1].1.clone())
    } else {
        None
    }
}

/// The extension of the file a path leads to.
pub fn path_extension_of(path: &str) -> (r: Option<String>)
    ensures
        opt_view(r) == path_extension(path@),
{
    match file_name_of(path) {
        Some(name) => extension_of(&name),
        None => None,
    }
}

/// Whether a path lies in a directory, or is the directory itself.
pub open spec fn lies_in(path: Seq<char>, dir: Seq<char>) -> bool {
    components(dir).is_prefix_of(components(path))
}

/// Whether a path lies in a directory, or is the directory itself.
pub fn path_lies_in(path: &str, dir: &str) -> (r: bool)
    ensures
        r == lies_in(path@, dir@),
{
    let x = read_components(path);
    let y = read_components(dir);
    let ghost p = comps_view(x@);
    let ghost q = comps_view(y@);
    if y.len() > x.len() {
        return false;
    }
    let mut i: usize = 0;
    while i < y.len()
        invariant
            i <= y@.len() <= x@.len(),
            p == comps_view(x@),
            q == comps_view(y@),
            p == components(path@),
            q == components(dir@),
            forall|k: int| 0 <= k < i ==> q[k] == p[k],
        decreases y.len() - i,
    {
        if x[i].0 != y[i].0 || !same(&x[i].1, &y[i].1) {
            assert(q[i as int] != p.take(q.len() as int)[i as int]);
            return false;
        }
        assert(q[i as int] =~= p[i as int]);
        i += 1;
    }
    assert(q =~= p.take(q.len() as int));
    true
}

proof fn last_dot_is(s: Seq<char>, c: char, at: int)
    requires
        0 <= at < s.len(),
        s[at] == c,
        forall|i: int| at < i < s.len() ==> s[i] != c,
    ensures
        last_of(s, c) == Some(at),
    decreases s.len(),
{
    if s.last() != c {
        last_dot_is(s.drop_last(), c, at);
    }
}

/// The extension of a name is what stands behind its last dot, unless that is its first
/// character.
pub proof fn an_extension_is_behind_the_last_dot(stem: Seq<char>, ext: Seq<char>)
    requires
        !ext.contains('.'),
    ensures
        stem.len() > 0 ==> extension(stem + seq!['.'] + ext) == Some(ext),
        extension(seq!['.'] + ext) is None,
        extension(ext) is None,
{
    let name = stem + seq!['.'] + ext;
    assert forall|i: int| stem.len() < i < name.len() implies name[i] != '.' by {
        assert(name[i] == ext[i - stem.len() - 1]);
    }
    last_dot_is(name, '.', stem.len() as int);
    assert(name.skip(stem.len() + 1int) =~= ext);
    let hidden = seq!['.'] + ext;
    assert forall|i: int| 0 < i < hidden.len() implies hidden[i] != '.' by {
        assert(hidden[i] == ext[i - 1]);
    }
    last_dot_is(hidden, '.', 0);
    no_dot(ext);
}

proof fn no_dot(s: Seq<char>)
    requires
        !s.contains('.'),
    ensures
        last_of(s, '.') is None,
    decreases s.len(),
{
    if s.len() > 0 {
        assert(s[s.len() - 1] != '.');
        assert forall|i: int| 0 <= i < s.drop_last().len() implies s.drop_last()[i] != '.' by {
            assert(s[i] != '.');
        }
        no_dot(s.drop_last());
    }
}

/// A path that is absolute stays as it is; any other is put behind the directory, with
/// one slash between them.
pub proof fn a_path_is_put_behind_its_directory(base: Seq<char>, path: Seq<char>)
    ensures
        path.len() > 0 && path[0] == '/' ==> joined(base, path) == path,
        !(path.len() > 0 && path[0] == '/') ==> base.is_prefix_of(joined(base, path))
            && path.is_suffix_of(joined(base, path)),
        !(path.len() > 0 && path[0] == '/') && base.len() > 0 && base.last() != '/' ==> joined(
            base,
            path,
        ) == base + seq!['/'] + path,
        !(path.len() > 0 && path[0] == '/') && base.len() > 0 && base.last() == '/' ==> joined(
            base,
            path,
        ) == base + path,
{
    reveal_strlit("/");
    assert("/"@ =~= seq!['/']);
    if !(path.len() > 0 && path[0] == '/') {
        let whole = joined(base, path);
        assert(base =~= whole.take(base.len() as int));
        assert(path =~= whole.skip(whole.len() - path.len()));
    }
}

/// A file put into a directory is called by its name there.
pub proof fn a_file_is_called_by_its_name(dir: Seq<char>, name: Seq<char>)
    requires
        dir.len() > 0,
        name.len() > 0,
        !name.contains('/'),
        name != "."@,
        name != ".."@,
    ensures
        file_name(joined(dir, name)) == Some(name),
{
    let slash = seq!['/'];
    assert(name[0] != '/') by {
        assert(name.contains(name[0]));
    }
    a_path_is_put_behind_its_directory(dir, name);
    let whole = joined(dir, name);
    split_stands_between(dir, '/');
    let parts = split(dir, '/');
    let front = if dir.last() != '/' {
        parts
    } else {
        parts.drop_last()
    };
    if dir.last() == '/' {
        ends_in_nothing(dir);
        if parts.len() == 1 {
            assert(join(parts, slash) == parts[0]);
            assert(parts[0].len() == 0);
        }
        assert(join(parts, slash) == join(front, slash) + slash + parts.last());
        assert(dir =~= join(front, slash) + slash);
    }
    join_append(front, seq![name], slash);
    assert(join(seq![name], slash) == name);
    let all = front + seq![name];
    assert(whole =~= join(all, slash));
    assert forall|i: int| 0 <= i < all.len() implies !(#[trigger] all[i]).contains('/') by {
        if i < front.len() {
            assert(all[i] == parts[i]);
        }
    }
    splitting_undoes_joining(all, '/');
    let n = all.len() as int;
    assert(all[n - 1] == name);
    let named = components_of(all, n);
    assert(named.last() == (Component { rank: 3, name }));
}

proof fn ends_in_nothing(s: Seq<char>)
    requires
        s.len() > 0,
        s.last() == '/',
    ensures
        split(s, '/').last().len() == 0,
{
    split_stands_between(s, '/');
    let parts = split(s, '/');
    let last = parts.last();
    if last.len() > 0 {
        if parts.len() == 1 {
            assert(join(parts, seq!['/']) == parts[0]);
        } else {
            assert(join(parts, seq!['/']) == join(parts.drop_last(), seq!['/']) + seq!['/'] + last);
        }
        assert(s.last() == last.last());
        assert(last[last.len() - 1] == '/');
        assert(last.contains('/'));
        assert(parts[parts.len() - 1].contains('/'));
    }
}

/// A directory lies in itself, and what lies in a directory lies in what that lies in.
pub proof fn lying_in_is_an_order(a: Seq<char>, b: Seq<char>, c: Seq<char>)
    ensures
        lies_in(a, a),
        lies_in(a, b) && lies_in(b, c) ==> lies_in(a, c),
{
    assert(components(a) =~= components(a).take(components(a).len() as int));
    if lies_in(a, b) && lies_in(b, c) {
        let x = components(a);
        let y = components(b);
        let z = components(c);
        assert(z =~= x.take(z.len() as int)) by {
            assert(y =~= x.take(y.len() as int));
            assert(z =~= y.take(z.len() as int));
        }
    }
}

proof fn components_go_on(a: Seq<Seq<char>>, b: Seq<Seq<char>>, n: int)
    requires
        a.len() > 0,
        0 <= n <= b.len(),
    ensures
        components_of(a, a.len() as int).is_prefix_of(components_of(a + b, a.len() + n)),
    decreases n,
{
    let whole = a + b;
    let named = components_of(a, a.len() as int);
    let more = components_of(whole, a.len() + n);
    if n == 0 {
        components_of_front(a, b, a.len() as int);
        assert(named =~= more.take(named.len() as int));
    } else {
        components_go_on(a, b, n - 1);
        let before = components_of(whole, a.len() + n - 1);
        assert(named =~= before.take(named.len() as int));
        assert(named =~= more.take(named.len() as int));
    }
}

proof fn components_of_front(a: Seq<Seq<char>>, b: Seq<Seq<char>>, n: int)
    requires
        0 <= n <= a.len(),
    ensures
        components_of(a + b, n) == components_of(a, n),
    decreases n,
{
    if n > 0 {
        components_of_front(a, b, n - 1);
        assert((a + b)[n - 1] == a[n - 1]);
    }
}

/// What is put behind a directory lies in it.
pub proof fn what_is_put_behind_a_directory_lies_in_it(dir: Seq<char>, rest: Seq<char>)
    requires
        dir.len() > 0,
        dir.last() != '/',
        !(rest.len() > 0 && rest[0] == '/'),
    ensures
        lies_in(joined(dir, rest), dir),
{
    let slash = seq!['/'];
    a_path_is_put_behind_its_directory(dir, rest);
    split_stands_between(dir, '/');
    split_stands_between(rest, '/');
    let a = split(dir, '/');
    let b = split(rest, '/');
    let all = a + b;
    join_append(a, b, slash);
    let whole = joined(dir, rest);
    assert(whole =~= join(all, slash));
    assert forall|i: int| 0 <= i < all.len() implies !(#[trigger] all[i]).contains('/') by {
        if i < a.len() {
            assert(all[i] == a[i]);
        } else {
            assert(all[i] == b[i - a.len()]);
        }
    }
    splitting_undoes_joining(all, '/');
    components_go_on(a, b, b.len() as int);
    let x = components_of(a, a.len() as int);
    let y = components_of(all, all.len() as int);
    assert(x =~= y.take(x.len() as int));
    assert(whole[0] == dir[0]);
    let root = seq![Component { rank: 0, name: "/"@ }];
    if dir[0] == '/' {
        assert(root + x =~= (root + y).take((root + x).len() as int));
    }
}

/// A piece of a path that is empty, or a dot that is not its first, names nothing; every
/// other piece names a component, in order.
pub proof fn a_piece_names_its_component(pieces: Seq<Seq<char>>, n: int)
    requires
        0 < n <= pieces.len(),
    ensures
        pieces[n - 1].len() == 0 || (pieces[n - 1] == seq!['.'] && n > 1) ==> components_of(
            pieces,
            n,
        ) == components_of(pieces, n - 1),
        pieces[n - 1].len() > 0 && pieces[n - 1] != seq!['.'] ==> components_of(pieces, n).len()
            == components_of(pieces, n - 1).len() + 1 && components_of(pieces, n).last().name
            == pieces[n - 1] && components_of(pieces, n).drop_last() == components_of(
            pieces,
            n - 1,
        ),
        pieces[n - 1].len() > 0 && pieces[n - 1] != seq!['.'] && pieces[n - 1] != seq!['.', '.']
            ==> components_of(pieces, n).last().rank == 3,
        pieces[n - 1] == seq!['.', '.'] ==> components_of(pieces, n).last().rank == 2,
{
    reveal_strlit(".");
    reveal_strlit("..");
    assert("."@ =~= seq!['.']);
    assert(".."@ =~= seq!['.', '.']);
    assert(seq!['.'].len() == 1 && seq!['.', '.'].len() == 2);
    let before = components_of(pieces, n - 1);
    let piece = pieces[n - 1];
    if piece.len() > 0 && piece != seq!['.'] {
        assert(components_of(pieces, n).drop_last() =~= before);
    }
}

} // verus!
