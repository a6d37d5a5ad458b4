//! Reading and writing the accessibility tree.
//!
//! The accessibility tree names every control the platform draws, and every
//! desktop platform exposes it. A platform reaches its tree through raw pointers
//! or COM interfaces that are neither `Send` nor safe to hand to a script, so
//! the handles stay in a store and the script sees an opaque id.
use vstd::prelude::*;
use crate::json::{
    array_view, items_view, members_view, object_view, Json, JsonNumber, JsonView, NumberView,
};
use crate::text::{contains, has, kept_one_more, lowercase, lowercased, opt_view, same, views};

pub mod handles;
pub mod linux;
pub mod macos;
pub mod windows;

verus! {

/// Whether `op` is one of the accessibility ops.
pub open spec fn is_op(op: Seq<char>) -> bool {
    op == "ax_focused"@ || op == "ax_tree"@ || op == "ax_find"@ || op == "ax_get"@ || op
        == "ax_set"@ || op == "ax_press"@
}

/// Whether `op` is an accessibility op that changes what is on screen.
pub open spec fn is_writing_op(op: Seq<char>) -> bool {
    op == "ax_set"@ || op == "ax_press"@
}

/// The ops this module answers, in the order the runner names them.
pub fn ops() -> (out: Vec<String>)
    ensures
        views(out@) == seq![
            "ax_focused"@,
            "ax_tree"@,
            "ax_find"@,
            "ax_get"@,
            "ax_set"@,
            "ax_press"@,
        ],
{
    let mut out: Vec<String> = Vec::new();
    out.push("ax_focused".to_string());
    out.push("ax_tree".to_string());
    out.push("ax_find".to_string());
    out.push("ax_get".to_string());
    out.push("ax_set".to_string());
    out.push("ax_press".to_string());
    assert(views(out@) =~= seq![
        "ax_focused"@,
        "ax_tree"@,
        "ax_find"@,
        "ax_get"@,
        "ax_set"@,
        "ax_press"@,
    ]);
    out
}

/// The ops that change what is on screen rather than reading it.
pub fn writing_ops() -> (out: Vec<String>)
    ensures
        views(out@) == seq!["ax_set"@, "ax_press"@],
{
    let mut out: Vec<String> = Vec::new();
    out.push("ax_set".to_string());
    out.push("ax_press".to_string());
    assert(views(out@) =~= seq!["ax_set"@, "ax_press"@]);
    out
}

/// Whether `op` is one this module answers.
///
/// Matched against the list rather than an `ax_` prefix, so an `ax_` op this
/// module does not define falls through to the desktop ops, which name it as
/// unknown rather than this module swallowing it into a generic failure.
pub fn owns(op: &str) -> (r: bool)
    ensures
        r == is_op(op@),
{
    same(op, "ax_focused") || same(op, "ax_tree") || same(op, "ax_find") || same(op, "ax_get")
        || same(op, "ax_set") || same(op, "ax_press")
}

/// Whether `op` changes what is on screen.
pub fn writes(op: &str) -> (r: bool)
    ensures
        r == is_writing_op(op@),
{
    same(op, "ax_set") || same(op, "ax_press")
}

/// Every writing op is one of the ops.
pub proof fn every_writing_op_is_an_op(op: Seq<char>)
    requires
        is_writing_op(op),
    ensures
        is_op(op),
{
}

// ---------------------------------------------------------------------------
// Nodes
// ---------------------------------------------------------------------------

/// An absolute screen rectangle.
#[derive(Debug)]
pub struct Bounds {
    pub x: JsonNumber,
    pub y: JsonNumber,
    pub width: JsonNumber,
    pub height: JsonNumber,
}

/// One node of the tree, as the script reads it.
///
/// The handle is opaque: it names an element the host holds, and there is no
/// way to turn it back into a pointer from the script's side.
#[derive(Debug)]
pub struct Node {
    pub handle: String,
    pub role: String,
    pub title: String,
    pub value: String,
    /// Absolute screen rectangle, when the platform reports one.
    pub bounds: Option<Bounds>,
    pub children: Vec<Node>,
}

/// What a [`Node`] is.
#[verifier::ext_equal]
pub struct NodeView {
    pub handle: Seq<char>,
    pub role: Seq<char>,
    pub title: Seq<char>,
    pub value: Seq<char>,
    pub bounds: Option<(NumberView, NumberView, NumberView, NumberView)>,
    pub children: Seq<NodeView>,
}

impl Node {
    /// What the node is.
    pub open spec fn model(self) -> NodeView
        decreases self,
    {
        NodeView {
            handle: self.handle@,
            role: self.role@,
            title: self.title@,
            value: self.value@,
            bounds: match self.bounds {
                Some(b) => Some((b.x@, b.y@, b.width@, b.height@)),
                None => None,
            },
            children: Seq::new(
                self.children@.len(),
                |i: int|
                    if 0 <= i < self.children@.len() {
                        self.children@[i].model()
                    } else {
                        arbitrary()
                    },
            ),
        }
    }
}

impl View for Node {
    type V = NodeView;

    open spec fn view(&self) -> NodeView {
        self.model()
    }
}

/// What the nodes are.
pub open spec fn node_views(v: Seq<Node>) -> Seq<NodeView> {
    Seq::new(v.len(), |i: int| v[i]@)
}

/// What the nodes referred to are.
pub open spec fn ref_views(v: Seq<&Node>) -> Seq<NodeView> {
    Seq::new(v.len(), |i: int| v[i]@)
}

/// The JSON form of a rectangle.
pub open spec fn bounds_json(
    b: (NumberView, NumberView, NumberView, NumberView),
) -> JsonView {
    JsonView::Object(
        seq![
            ("x"@, JsonView::Number(b.0)),
            ("y"@, JsonView::Number(b.1)),
            ("width"@, JsonView::Number(b.2)),
            ("height"@, JsonView::Number(b.3)),
        ],
    )
}

/// The members of a node's JSON form that every node has.
pub open spec fn fixed_members(n: NodeView) -> Seq<(Seq<char>, JsonView)> {
    seq![
        ("handle"@, JsonView::Text(n.handle)),
        ("role"@, JsonView::Text(n.role)),
        ("title"@, JsonView::Text(n.title)),
        ("value"@, JsonView::Text(n.value)),
    ]
}

/// The JSON form of a node: bounds only where the platform gave some, and
/// children only where there are any.
pub open spec fn node_json(n: NodeView) -> JsonView
    decreases n,
{
    let with_bounds = match n.bounds {
        Some(b) => fixed_members(n).push(("bounds"@, bounds_json(b))),
        None => fixed_members(n),
    };
    let with_children = if n.children.len() > 0 {
        with_bounds.push(
            (
                "children"@,
                JsonView::Array(
                    Seq::new(
                        n.children.len(),
                        |i: int|
                            if 0 <= i < n.children.len() {
                                node_json(n.children[i])
                            } else {
                                JsonView::Null
                            },
                    ),
                ),
            ),
        )
    } else {
        with_bounds
    };
    JsonView::Object(with_children)
}

/// The nodes of the subtrees of the first `k` children, each parent before its children.
pub open spec fn below(n: NodeView, k: int) -> Seq<NodeView>
    decreases n, k,
{
    if k <= 0 || k > n.children.len() {
        seq![]
    } else {
        below(n, k - 1) + preorder(n.children[k - 1])
    }
}

/// Every node of a subtree, parents before children.
pub open spec fn preorder(n: NodeView) -> Seq<NodeView>
    decreases n, n.children.len() + 1,
{
    seq![n] + below(n, n.children.len() as int)
}

impl Bounds {
    fn to_json(&self) -> (out: Json)
        ensures
            out@ == bounds_json((self.x@, self.y@, self.width@, self.height@)),
    {
        let mut members: Vec<(String, Json)> = Vec::new();
        members.push(("x".to_string(), Json::Number(self.x.copy())));
        members.push(("y".to_string(), Json::Number(self.y.copy())));
        members.push(("width".to_string(), Json::Number(self.width.copy())));
        members.push(("height".to_string(), Json::Number(self.height.copy())));
        proof {
            object_view(members);
            assert(members_view(members@) =~= bounds_json(
                (self.x@, self.y@, self.width@, self.height@),
            )->Object_0);
        }
        Json::Object(members)
    }
}

impl Node {
    /// The same node once more.
    pub fn copy(&self) -> (out: Node)
        ensures
            out@ == self@,
        decreases *self,
    {
        let mut children: Vec<Node> = Vec::new();
        let mut i: usize = 0;
        while i < self.children.len()
            invariant
                i <= self.children@.len(),
                children@.len() == i,
                forall|k: int| 0 <= k < i ==> (#[trigger] children@[k])@ == self.children@[k]@,
            decreases self.children.len() - i,
        {
            assert(decreases_to!(*self => self.children@[i as int]));
            let child = self.children[i].copy();
            children.push(child);
            i += 1;
        }
        let bounds = match &self.bounds {
            Some(b) => Some(
                Bounds {
                    x: b.x.copy(),
                    y: b.y.copy(),
                    width: b.width.copy(),
                    height: b.height.copy(),
                },
            ),
            None => None,
        };
        let out = Node {
            handle: self.handle.clone(),
            role: self.role.clone(),
            title: self.title.clone(),
            value: self.value.clone(),
            bounds,
            children,
        };
        assert(out@.children =~= self@.children) by {
            assert forall|k: int| 0 <= k < self.children@.len() implies out@.children[k]
                == self@.children[k] by {
                assert(out.children@[k]@ == self.children@[k]@);
            }
        }
        assert(out@ =~= self@);
        out
    }

    /// The node as the script reads it.
    pub fn to_json(&self) -> (out: Json)
        ensures
            out@ == node_json(self@),
        decreases *self,
    {
        let mut members: Vec<(String, Json)> = Vec::new();
        members.push(("handle".to_string(), Json::Text(self.handle.clone())));
        members.push(("role".to_string(), Json::Text(self.role.clone())));
        members.push(("title".to_string(), Json::Text(self.title.clone())));
        members.push(("value".to_string(), Json::Text(self.value.clone())));
        if let Some(b) = &self.bounds {
            members.push(("bounds".to_string(), b.to_json()));
        }
        let ghost with_bounds = match self@.bounds {
            Some(b) => fixed_members(self@).push(("bounds"@, bounds_json(b))),
            None => fixed_members(self@),
        };
        assert(members_view(members@) =~= with_bounds);
        if self.children.len() > 0 {
            let mut items: Vec<Json> = Vec::new();
            let mut i: usize = 0;
            while i < self.children.len()
                invariant
                    i <= self.children@.len(),
                    items@.len() == i,
                    forall|k: int|
                        0 <= k < i ==> (#[trigger] items@[k])@ == node_json(self.children@[k]@),
                decreases self.children.len() - i,
            {
                assert(decreases_to!(*self => self.children@[i as int]));
                let item = self.children[i].to_json();
                items.push(item);
                i += 1;
            }
            let ghost before = members@;
            proof {
                array_view(items);
                let expected = node_json(self@)->Object_0.last().1;
                assert(items_view(items@) =~= expected->Array_0) by {
                    assert forall|k: int| 0 <= k < items@.len() implies items_view(items@)[k]
                        == expected->Array_0[k] by {
                        assert(items@[k]@ == node_json(self.children@[k]@));
                        assert(self@.children[k] == self.children@[k]@);
                    }
                }
            }
            members.push(("children".to_string(), Json::Array(items)));
            assert(members_view(members@) =~= members_view(before).push(
                ("children"@, members@.last().1@),
            ));
        }
        proof {
            object_view(members);
            assert(members_view(members@) =~= node_json(self@)->Object_0);
        }
        Json::Object(members)
    }

    /// Every node in this subtree, parents before children.
    pub fn flattened(&self) -> (out: Vec<&Node>)
        ensures
            ref_views(out@) == preorder(self@),
        decreases *self,
    {
        let mut out: Vec<&Node> = Vec::new();
        out.push(self);
        let mut i: usize = 0;
        assert(ref_views(out@) =~= seq![self@] + below(self@, 0));
        while i < self.children.len()
            invariant
                i <= self.children@.len(),
                ref_views(out@) == seq![self@] + below(self@, i as int),
            decreases self.children.len() - i,
        {
            assert(decreases_to!(*self => self.children@[i as int]));
            let mut more = self.children[i].flattened();
            let ghost a = out@;
            let ghost b = more@;
            out.append(&mut more);
            proof {
                assert(ref_views(a + b) =~= ref_views(a) + ref_views(b));
                assert(self@.children[i as int] == self.children@[i as int]@);
                assert(below(self@, i + 1) == below(self@, i as int) + preorder(
                    self@.children[i as int],
                ));
                assert(ref_views(out@) =~= seq![self@] + below(self@, i + 1));
            }
            i += 1;
        }
        out
    }
}

// ---------------------------------------------------------------------------
// Queries
// ---------------------------------------------------------------------------

/// What `ax.find` matches on. An absent field matches everything.
#[derive(Debug)]
pub struct Query {
    pub role: Option<String>,
    pub title: Option<String>,
    pub value: Option<String>,
    /// Look only inside this application. Absent means the focused one.
    pub pid: Option<i32>,
    pub limit: usize,
}

impl Default for Query {
    fn default() -> (q: Self)
        ensures
            q.role is None,
            q.title is None,
            q.value is None,
            q.pid is None,
            q.limit == 0,
    {
        Query { role: None, title: None, value: None, pid: None, limit: 0 }
    }
}

/// What a [`Query`] asks.
#[verifier::ext_equal]
pub struct QueryView {
    pub role: Option<Seq<char>>,
    pub title: Option<Seq<char>>,
    pub value: Option<Seq<char>>,
    pub pid: Option<i32>,
    pub limit: usize,
}

impl View for Query {
    type V = QueryView;

    open spec fn view(&self) -> QueryView {
        QueryView {
            role: opt_view(self.role),
            title: opt_view(self.title),
            value: opt_view(self.value),
            pid: self.pid,
            limit: self.limit,
        }
    }
}

/// Whether a text answers a field: the field's text is in it, whatever the case.
pub open spec fn answers(field: Option<Seq<char>>, against: Seq<char>) -> bool {
    match field {
        None => true,
        Some(wanted) => contains(lowercased(against), lowercased(wanted)),
    }
}

/// Whether a node answers every field a query names.
pub open spec fn matching(q: QueryView, n: NodeView) -> bool {
    answers(q.role, n.role) && answers(q.title, n.title) && answers(q.value, n.value)
}

fn field_holds(field: &Option<String>, against: &str) -> (r: bool)
    ensures
        r == answers(opt_view(*field), against@),
{
    match field {
        None => true,
        Some(wanted) => has(&lowercase(against), &lowercase(wanted)),
    }
}

impl Query {
    /// Whether `node` answers every field this query names.
    ///
    /// Matched on a case-insensitive substring rather than an exact string: a
    /// platform reports "OK" where another reports "OK Button", and a script
    /// that had to spell the whole title would be writing a platform's own
    /// wording into itself.
    pub fn matches(&self, node: &Node) -> (r: bool)
        ensures
            r == matching(self@, node@),
    {
        field_holds(&self.role, &node.role) && field_holds(&self.title, &node.title)
            && field_holds(&self.value, &node.value)
    }
}

/// The nodes that answer a query, in order.
pub open spec fn answering(q: QueryView, all: Seq<NodeView>) -> Seq<NodeView>
    decreases all.len(),
{
    if all.len() == 0 {
        seq![]
    } else if matching(q, all.last()) {
        answering(q, all.drop_last()).push(all.last())
    } else {
        answering(q, all.drop_last())
    }
}

/// The most nodes a query gives back.
pub open spec fn limit_of(q: QueryView) -> int {
    if q.limit == 0 {
        20
    } else {
        q.limit as int
    }
}

/// The nodes of a tree that a query names.
pub open spec fn found_in(root: NodeView, q: QueryView) -> Seq<NodeView> {
    let all = answering(q, preorder(root));
    if all.len() > limit_of(q) {
        all.take(limit_of(q))
    } else {
        all
    }
}

proof fn answering_grows(q: QueryView, all: Seq<NodeView>, n: int)
    requires
        0 <= n <= all.len(),
    ensures
        answering(q, all.take(n)).is_prefix_of(answering(q, all)),
    decreases all.len() - n,
{
    if n < all.len() {
        answering_grows(q, all, n + 1);
        assert(all.take(n + 1).drop_last() =~= all.take(n));
        let a = answering(q, all.take(n));
        let b = answering(q, all.take(n + 1));
        let c = answering(q, all);
        assert(b =~= c.take(b.len() as int));
        assert(a =~= c.take(a.len() as int)) by {
            assert(a =~= b.take(a.len() as int));
        }
    } else {
        assert(all.take(n) =~= all);
        assert(answering(q, all) =~= answering(q, all).take(answering(q, all).len() as int));
    }
}

/// Search a tree for the nodes a query names.
pub fn find_in(root: &Node, query: &Query) -> (out: Vec<Node>)
    ensures
        node_views(out@) == found_in(root@, query@),
{
    let limit: usize = if query.limit == 0 { 20 } else { query.limit };
    let all = root.flattened();
    let ghost model = ref_views(all@);
    let mut out: Vec<Node> = Vec::new();
    let mut i: usize = 0;
    assert(model.take(0) =~= seq![]);
    assert(node_views(out@) =~= answering(query@, model.take(0)));
    while i < all.len() && out.len() < limit
        invariant
            i <= all@.len(),
            model == ref_views(all@),
            out@.len() <= limit,
            node_views(out@) == answering(query@, model.take(i as int)),
        decreases all.len() - i,
    {
        let ghost next = model.take(i + 1);
        assert(next.drop_last() =~= model.take(i as int));
        assert(next.last() == all@[i as int]@);
        if query.matches(all[i]) {
            let ghost before = out@;
            let copied = all[i].copy();
            out.push(copied);
            assert(node_views(out@) =~= node_views(before).push(copied@));
        }
        i += 1;
    }
    proof {
        answering_grows(query@, model, i as int);
        let whole = answering(query@, model);
        let part = answering(query@, model.take(i as int));
        assert(part =~= whole.take(part.len() as int));
        if i == all@.len() {
            assert(model.take(i as int) =~= model);
        }
        assert(node_views(out@) =~= found_in(root@, query@));
    }
    out
}

/// A query that names no field matches every node.
pub proof fn an_empty_query_matches_everything(q: QueryView, n: NodeView)
    requires
        q.role is None,
        q.title is None,
        q.value is None,
    ensures
        matching(q, n),
{
}

/// A search gives back no more than its limit, and nothing but nodes of the
/// tree that answer the query.
pub proof fn a_search_gives_back_what_answers(root: NodeView, q: QueryView, i: int)
    requires
        0 <= i < found_in(root, q).len(),
    ensures
        found_in(root, q).len() <= limit_of(q),
        matching(q, found_in(root, q)[i]),
        preorder(root).contains(found_in(root, q)[i]),
{
    answering_sound(q, preorder(root), i);
}

proof fn answering_sound(q: QueryView, all: Seq<NodeView>, i: int)
    requires
        0 <= i < answering(q, all).len(),
    ensures
        matching(q, answering(q, all)[i]),
        all.contains(answering(q, all)[i]),
    decreases all.len(),
{
    let front = all.drop_last();
    let n = answering(q, all)[i];
    if i < answering(q, front).len() {
        answering_sound(q, front, i);
        assert(answering(q, front)[i] == n);
        let k = choose|k: int| 0 <= k < front.len() && front[k] == n;
        assert(all[k] == n);
    } else {
        assert(all[all.len() - 1] == n);
    }
}

// ---------------------------------------------------------------------------
// Errors
// ---------------------------------------------------------------------------

/// Why a platform could not answer.
#[derive(Debug, PartialEq)]
pub enum AxError {
    /// The user has not granted the permission the platform requires.
    ///
    /// Carried as its own case rather than folded into `Failed`, because the
    /// platform answers a refused request with an empty tree and reporting that
    /// as "nothing found" sends the script looking for a control that is there.
    PermissionDenied(String),
    /// The build has no backend for this platform, or the backend has no path
    /// for this call.
    NotSupported(String),
    /// The handle names nothing this session holds.
    UnknownHandle(String),
    Failed(String),
}

/// What an [`AxError`] says.
#[verifier::ext_equal]
pub enum AxFault {
    PermissionDenied(Seq<char>),
    NotSupported(Seq<char>),
    UnknownHandle(Seq<char>),
    Failed(Seq<char>),
}

impl View for AxError {
    type V = AxFault;

    open spec fn view(&self) -> AxFault {
        match *self {
            AxError::PermissionDenied(s) => AxFault::PermissionDenied(s@),
            AxError::NotSupported(s) => AxFault::NotSupported(s@),
            AxError::UnknownHandle(s) => AxFault::UnknownHandle(s@),
            AxError::Failed(s) => AxFault::Failed(s@),
        }
    }
}

/// The text of an error.
pub open spec fn fault_text(f: AxFault) -> Seq<char> {
    match f {
        AxFault::PermissionDenied(s) => "accessibility is not permitted: "@ + s,
        AxFault::NotSupported(s) => "no accessibility backend: "@ + s,
        AxFault::UnknownHandle(s) => "no element is held under the handle "@ + s,
        AxFault::Failed(s) => s,
    }
}

impl AxError {
    /// The error as it is shown.
    pub fn text(&self) -> (out: String)
        ensures
            out@ == fault_text(self@),
    {
        match self {
            AxError::PermissionDenied(s) => {
                let mut out = "accessibility is not permitted: ".to_string();
                out.push_str(s);
                out
            },
            AxError::NotSupported(s) => {
                let mut out = "no accessibility backend: ".to_string();
                out.push_str(s);
                out
            },
            AxError::UnknownHandle(s) => {
                let mut out = "no element is held under the handle ".to_string();
                out.push_str(s);
                out
            },
            AxError::Failed(s) => s.clone(),
        }
    }
}

// ---------------------------------------------------------------------------
// Requests
// ---------------------------------------------------------------------------

/// A string argument, absent where it is empty or no string.
pub open spec fn string_arg_of(args: JsonView, name: Seq<char>) -> Option<Seq<char>> {
    match args.text_of(name) {
        Some(s) => if s.len() > 0 {
            Some(s)
        } else {
            None
        },
        None => None,
    }
}

pub fn string_field(args: &Json, name: &str) -> (r: Option<String>)
    ensures
        opt_view(r) == string_arg_of(args@, name@),
{
    match args.text_of(name) {
        Some(s) => if s.as_str().is_empty() {
            None
        } else {
            Some(s)
        },
        None => None,
    }
}

/// What a missing argument is reported as.
pub open spec fn missing(name: Seq<char>) -> AxFault {
    AxFault::Failed("`"@ + name + "` is required and must be a string"@)
}

pub fn string_arg(args: &Json, name: &str) -> (r: Result<String, AxError>)
    ensures
        match r {
            Ok(s) => string_arg_of(args@, name@) == Some(s@),
            Err(e) => string_arg_of(args@, name@) is None && e@ == missing(name@),
        },
{
    match string_field(args, name) {
        Some(s) => Ok(s),
        None => {
            let mut e = "`".to_string();
            e.push_str(name);
            e.push_str("` is required and must be a string");
            Err(AxError::Failed(e))
        },
    }
}

/// The process an argument names, cut to 32 bits.
pub open spec fn pid_of(args: JsonView) -> Option<i32> {
    match args.signed_of("pid"@) {
        Some(n) => Some(n as i32),
        None => None,
    }
}

fn read_pid(args: &Json) -> (r: Option<i32>)
    ensures
        r == pid_of(args@),
{
    match args.signed_of("pid") {
        Some(n) => Some(#[verifier::truncate] (n as i32)),
        None => None,
    }
}

/// A count argument, or its default.
pub open spec fn count_of(args: JsonView, name: Seq<char>, default: usize) -> usize {
    match args.unsigned_of(name) {
        Some(n) => n as usize,
        None => default,
    }
}

fn read_count(args: &Json, name: &str, default: usize) -> (r: usize)
    ensures
        r == count_of(args@, name@, default),
{
    match args.unsigned_of(name) {
        Some(n) => #[verifier::truncate] (n as usize),
        None => default,
    }
}

/// The query that the arguments of `ax_find` make up.
pub open spec fn query_of(args: JsonView) -> QueryView {
    QueryView {
        role: string_arg_of(args, "role"@),
        title: string_arg_of(args, "title"@),
        value: string_arg_of(args, "value"@),
        pid: pid_of(args),
        limit: count_of(args, "limit"@, 0),
    }
}

/// The query that the arguments of `ax_find` make up.
pub fn query_from(args: &Json) -> (q: Query)
    ensures
        q@ == query_of(args@),
{
    Query {
        role: string_field(args, "role"),
        title: string_field(args, "title"),
        value: string_field(args, "value"),
        pid: read_pid(args),
        limit: read_count(args, "limit", 0),
    }
}

/// What a backend is asked for.
#[derive(Debug)]
pub enum AxRequest {
    Focused,
    Tree { pid: Option<i32>, depth: usize },
    Find { pid: Option<i32>, depth: usize },
    Get { handle: String, attribute: String },
    Assign { handle: String, attribute: String, value: Json },
    Press { handle: String },
}

/// What an [`AxRequest`] says.
#[verifier::ext_equal]
pub enum RequestView {
    Focused,
    Tree { pid: Option<i32>, depth: usize },
    Find { pid: Option<i32>, depth: usize },
    Get { handle: Seq<char>, attribute: Seq<char> },
    Assign { handle: Seq<char>, attribute: Seq<char>, value: JsonView },
    Press { handle: Seq<char> },
}

impl View for AxRequest {
    type V = RequestView;

    open spec fn view(&self) -> RequestView {
        match *self {
            AxRequest::Focused => RequestView::Focused,
            AxRequest::Tree { pid, depth } => RequestView::Tree { pid, depth },
            AxRequest::Find { pid, depth } => RequestView::Find { pid, depth },
            AxRequest::Get { handle, attribute } => RequestView::Get {
                handle: handle@,
                attribute: attribute@,
            },
            AxRequest::Assign { handle, attribute, value } => RequestView::Assign {
                handle: handle@,
                attribute: attribute@,
                value: value@,
            },
            AxRequest::Press { handle } => RequestView::Press { handle: handle@ },
        }
    }
}

/// What an op asks of the backend, or why it asks for nothing.
pub open spec fn requested(op: Seq<char>, args: JsonView) -> Result<RequestView, AxFault> {
    let handle = string_arg_of(args, "handle"@);
    let attribute = string_arg_of(args, "attribute"@);
    if op == "ax_focused"@ {
        Ok(RequestView::Focused)
    } else if op == "ax_tree"@ {
        Ok(RequestView::Tree { pid: pid_of(args), depth: count_of(args, "depth"@, 1) })
    } else if op == "ax_find"@ {
        Ok(RequestView::Find { pid: pid_of(args), depth: count_of(args, "depth"@, 8) })
    } else if op == "ax_get"@ {
        match (handle, attribute) {
            (Some(handle), Some(attribute)) => Ok(RequestView::Get { handle, attribute }),
            (None, _) => Err(missing("handle"@)),
            (_, None) => Err(missing("attribute"@)),
        }
    } else if op == "ax_set"@ {
        match (handle, attribute) {
            (Some(handle), Some(attribute)) => Ok(
                RequestView::Assign {
                    handle,
                    attribute,
                    value: match args.get("value"@) {
                        Some(v) => v,
                        None => JsonView::Null,
                    },
                },
            ),
            (None, _) => Err(missing("handle"@)),
            (_, None) => Err(missing("attribute"@)),
        }
    } else if op == "ax_press"@ {
        match handle {
            Some(handle) => Ok(RequestView::Press { handle }),
            None => Err(missing("handle"@)),
        }
    } else {
        Err(AxFault::Failed("unknown accessibility op: "@ + op))
    }
}

/// What an `ax_*` op asks of the backend.
pub fn request(op: &str, args: &Json) -> (r: Result<AxRequest, AxError>)
    ensures
        match r {
            Ok(q) => requested(op@, args@) == Ok::<RequestView, AxFault>(q@),
            Err(e) => requested(op@, args@) == Err::<RequestView, AxFault>(e@),
        },
{
    if same(op, "ax_focused") {
        Ok(AxRequest::Focused)
    } else if same(op, "ax_tree") {
        Ok(AxRequest::Tree { pid: read_pid(args), depth: read_count(args, "depth", 1) })
    } else if same(op, "ax_find") {
        Ok(AxRequest::Find { pid: read_pid(args), depth: read_count(args, "depth", 8) })
    } else if same(op, "ax_get") {
        let handle = match string_arg(args, "handle") {
            Ok(s) => s,
            Err(e) => {
                return Err(e);
            },
        };
        let attribute = match string_arg(args, "attribute") {
            Ok(s) => s,
            Err(e) => {
                return Err(e);
            },
        };
        Ok(AxRequest::Get { handle, attribute })
    } else if same(op, "ax_set") {
        let handle = match string_arg(args, "handle") {
            Ok(s) => s,
            Err(e) => {
                return Err(e);
            },
        };
        let attribute = match string_arg(args, "attribute") {
            Ok(s) => s,
            Err(e) => {
                return Err(e);
            },
        };
        let value = match args.get("value") {
            Some(v) => v.copy(),
            None => Json::Null,
        };
        Ok(AxRequest::Assign { handle, attribute, value })
    } else if same(op, "ax_press") {
        match string_arg(args, "handle") {
            Ok(handle) => Ok(AxRequest::Press { handle }),
            Err(e) => Err(e),
        }
    } else {
        let mut e = "unknown accessibility op: ".to_string();
        e.push_str(op);
        Err(AxError::Failed(e))
    }
}

/// The JSON form of some nodes.
pub open spec fn nodes_json(nodes: Seq<NodeView>) -> JsonView {
    JsonView::Array(Seq::new(nodes.len(), |i: int| node_json(nodes[i])))
}

/// The answer to `ax_find`: the nodes of the tree that the arguments name.
pub fn find_answer(root: &Node, args: &Json) -> (out: Json)
    ensures
        out@ == nodes_json(found_in(root@, query_of(args@))),
{
    let q = query_from(args);
    let found = find_in(root, &q);
    let mut items: Vec<Json> = Vec::new();
    let mut i: usize = 0;
    while i < found.len()
        invariant
            i <= found@.len(),
            items@.len() == i,
            forall|k: int| 0 <= k < i ==> (#[trigger] items@[k])@ == node_json(found@[k]@),
        decreases found.len() - i,
    {
        items.push(found[i].to_json());
        i += 1;
    }
    proof {
        array_view(items);
        let expected = nodes_json(found_in(root@, query_of(args@)))->Array_0;
        assert forall|k: int| 0 <= k < items@.len() implies items_view(items@)[k]
            == expected[k] by {
            assert(items@[k]@ == node_json(found@[k]@));
            assert(node_views(found@)[k] == found@[k]@);
        }
        assert(items_view(items@) =~= expected);
    }
    Json::Array(items)
}

/// The answer to a write or a press: what it was done to.
pub fn done_answer(what: &str, to: &str) -> (out: Json)
    ensures
        out@ == JsonView::Object(seq![(what@, JsonView::Text(to@))]),
{
    let mut members: Vec<(String, Json)> = Vec::new();
    members.push((what.to_string(), Json::Text(to.to_string())));
    proof {
        object_view(members);
        assert(members_view(members@) =~= seq![(what@, JsonView::Text(to@))]);
    }
    Json::Object(members)
}

proof fn answering_is_kept(q: QueryView, all: Seq<NodeView>)
    ensures
        answering(q, all) == all.filter(|n: NodeView| matching(q, n)),
    decreases all.len(),
{
    kept_one_more(all, |n: NodeView| matching(q, n));
    if all.len() > 0 {
        answering_is_kept(q, all.drop_last());
    }
}

/// A search gives back those of the tree's nodes that answer it, in the order in which
/// the tree is walked: all of them, or the first as many as its limit.
pub proof fn a_search_misses_nothing(root: NodeView, q: QueryView, all: Seq<NodeView>, most: int)
    requires
        all == preorder(root).filter(|n: NodeView| matching(q, n)),
        most == (if q.limit == 0 {
            20
        } else {
            q.limit as int
        }),
    ensures
        all.len() <= most ==> found_in(root, q) == all,
        all.len() > most ==> found_in(root, q) == all.take(most),
{
    answering_is_kept(q, preorder(root));
}

proof fn below_is_each_child(n: NodeView, k: int)
    requires
        0 <= k <= n.children.len(),
    ensures
        below(n, k) == Seq::new(k as nat, |i: int| preorder(n.children[i])).flatten(),
    decreases k,
{
    let parts = Seq::new(k as nat, |i: int| preorder(n.children[i]));
    if k > 0 {
        below_is_each_child(n, k - 1);
        let fewer = Seq::new((k - 1) as nat, |i: int| preorder(n.children[i]));
        fewer.lemma_flatten_push(preorder(n.children[k - 1]));
        assert(parts =~= fewer.push(preorder(n.children[k - 1])));
    } else {
        assert(parts =~= seq![]);
        assert(parts.flatten() =~= seq![]);
    }
}

/// A tree is walked from its root: the root first, then each child with all that is
/// below it, in order.
pub proof fn a_walk_is_from_the_root(n: NodeView)
    ensures
        preorder(n) == seq![n] + Seq::new(
            n.children.len(),
            |i: int| preorder(n.children[i]),
        ).flatten(),
{
    below_is_each_child(n, n.children.len() as int);
}

/// A field of a query is answered by a text that holds it, whatever the case of either.
pub proof fn a_query_is_answered_whatever_the_case(
    wanted: Seq<char>,
    again: Seq<char>,
    against: Seq<char>,
    also: Seq<char>,
)
    requires
        lowercased(wanted) == lowercased(again),
        lowercased(against) == lowercased(also),
    ensures
        answers(Some(wanted), against) == answers(Some(again), also),
        answers(Some(wanted), wanted),
        answers(None, against),
{
    let low = lowercased(wanted);
    assert(low.subrange(0, low.len() as int) =~= low);
    assert(crate::text::occurs_at(low, low, 0));
}

/// A node is written with its handle, its role, its title and its value, and its
/// children, where it has any, behind them, each written in the same way.
pub proof fn a_node_is_written_whole(n: NodeView)
    ensures
        ({
            let members = node_json(n)->Object_0;
            let at = if n.bounds is Some {
                5int
            } else {
                4int
            };
            &&& node_json(n) is Object
            &&& members.len() == at + (if n.children.len() > 0 {
                1int
            } else {
                0int
            })
            &&& members[0] == ("handle"@, JsonView::Text(n.handle))
            &&& members[1] == ("role"@, JsonView::Text(n.role))
            &&& members[2] == ("title"@, JsonView::Text(n.title))
            &&& members[3] == ("value"@, JsonView::Text(n.value))
            &&& n.bounds is Some ==> members[4].0 == "bounds"@
            &&& n.children.len() > 0 ==> {
                let items = members[at].1;
                &&& members[at].0 == "children"@
                &&& items is Array
                &&& items->Array_0.len() == n.children.len()
                &&& forall|i: int|
                    0 <= i < n.children.len() ==> #[trigger] items->Array_0[i] == node_json(
                        n.children[i],
                    )
            }
        }),
{
}

/// A rectangle is written with its place and its size.
pub proof fn bounds_are_written_whole(b: (NumberView, NumberView, NumberView, NumberView))
    ensures
        bounds_json(b).get("x"@) == Some(JsonView::Number(b.0)),
        bounds_json(b).get("y"@) == Some(JsonView::Number(b.1)),
        bounds_json(b).get("width"@) == Some(JsonView::Number(b.2)),
        bounds_json(b).get("height"@) == Some(JsonView::Number(b.3)),
{
    reveal_strlit("x");
    reveal_strlit("y");
    reveal_strlit("width");
    reveal_strlit("height");
    reveal_with_fuel(crate::json::member_from, 5);
    assert("x"@[0] == 'x' && "y"@[0] == 'y' && "width"@[0] == 'w' && "height"@[0] == 'h');
}

/// An argument counts as given where it is a text that is not empty.
pub proof fn an_argument_is_a_text(args: JsonView, name: Seq<char>, s: Seq<char>)
    ensures
        args.text_of(name) == Some(s) && s.len() > 0 ==> string_arg_of(args, name) == Some(s),
        args.text_of(name) == Some(Seq::<char>::empty()) ==> string_arg_of(args, name) is None,
        args.text_of(name) is None ==> string_arg_of(args, name) is None,
{
}

/// An op on an element acts on the element it names, and is refused where it names none.
pub proof fn an_op_acts_on_its_element(args: JsonView, handle: Seq<char>, attribute: Seq<char>)
    ensures
        string_arg_of(args, "handle"@) == Some(handle) && string_arg_of(args, "attribute"@) == Some(
            attribute,
        ) ==> {
            &&& requested("ax_get"@, args) == Ok::<RequestView, AxFault>(
                RequestView::Get { handle, attribute },
            )
            &&& args.get("value"@) is Some ==> requested("ax_set"@, args) == Ok::<
                RequestView,
                AxFault,
            >(RequestView::Assign { handle, attribute, value: args.get("value"@)->0 })
        },
        string_arg_of(args, "handle"@) == Some(handle) ==> requested("ax_press"@, args) == Ok::<
            RequestView,
            AxFault,
        >(RequestView::Press { handle }),
        string_arg_of(args, "handle"@) is None ==> requested("ax_get"@, args) is Err && requested(
            "ax_set"@,
            args,
        ) is Err && requested("ax_press"@, args) is Err,
        requested("ax_focused"@, args) == Ok::<RequestView, AxFault>(RequestView::Focused),
        requested("ax_tree"@, args) == Ok::<RequestView, AxFault>(
            RequestView::Tree { pid: pid_of(args), depth: count_of(args, "depth"@, 1) },
        ),
        requested("ax_find"@, args) == Ok::<RequestView, AxFault>(
            RequestView::Find { pid: pid_of(args), depth: count_of(args, "depth"@, 8) },
        ),
{
    reveal_strlit("ax_get");
    reveal_strlit("ax_set");
    reveal_strlit("ax_press");
    reveal_strlit("ax_focused");
    reveal_strlit("ax_tree");
    reveal_strlit("ax_find");
    assert("ax_get"@[3] == 'g' && "ax_set"@[3] == 's' && "ax_press"@[3] == 'p' && "ax_focused"@[3]
        == 'f' && "ax_tree"@[3] == 't' && "ax_find"@[3] == 'f');
    assert("ax_focused"@.len() == 10 && "ax_find"@.len() == 7);
}

/// An op is carried out where, and only where, it is one of the six.
pub proof fn only_the_six_are_ops(op: Seq<char>, args: JsonView)
    ensures
        !is_op(op) ==> requested(op, args) is Err,
{
}

} // verus!
