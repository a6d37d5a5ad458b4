//! What a host call asks of the desktop, and what it answers.
use vstd::prelude::*;
use crate::encoding::{base64_of, encode};
use crate::json::{
    integer, integer_json, members_view, no_members, object, pair, put, text, whole, Json, JsonView,
};
use crate::text::{count, decimal, opt_view, same, views};

verus! {

/// Whether `op` changes the machine rather than reading it.
pub open spec fn is_writing_op(op: Seq<char>) -> bool {
    op == "move"@ || op == "click"@ || op == "double_click"@ || op == "drag"@ || op == "type"@
        || op == "key"@ || op == "scroll"@ || op == "clipboard_write"@
}

/// Whether `op` writes.
///
/// `read_only` is enforced in the runner, which is where the flag lives for
/// the duration of one call. This is the host's own copy of the same rule, so a
/// runner that lies about the flag still cannot write.
pub fn writes(op: &str) -> (r: bool)
    ensures
        r == is_writing_op(op@),
{
    same(op, "move") || same(op, "click") || same(op, "double_click") || same(op, "drag") || same(
        op,
        "type",
    ) || same(op, "key") || same(op, "scroll") || same(op, "clipboard_write")
}

/// The integer argument with the name, cut to 32 bits.
pub open spec fn number_of(args: JsonView, name: Seq<char>) -> Option<i32> {
    match args.signed_of(name) {
        Some(n) => Some(n as i32),
        None => None,
    }
}

/// What a missing number is reported as.
pub open spec fn no_number(name: Seq<char>) -> Seq<char> {
    "`"@ + name + "` is required and must be a number"@
}

/// What a missing text is reported as.
pub open spec fn no_text(name: Seq<char>) -> Seq<char> {
    "`"@ + name + "` is required and must be a string"@
}

/// Read an integer argument, or say which one was missing.
pub fn number(args: &Json, name: &str) -> (r: Result<i32, String>)
    ensures
        match r {
            Ok(n) => number_of(args@, name@) == Some(n),
            Err(e) => number_of(args@, name@) is None && e@ == no_number(name@),
        },
{
    match args.signed_of(name) {
        Some(n) => Ok(#[verifier::truncate] (n as i32)),
        None => {
            let mut e = "`".to_string();
            e.push_str(name);
            e.push_str("` is required and must be a number");
            Err(e)
        },
    }
}

/// Read a string argument, or say which one was missing.
pub fn string(args: &Json, name: &str) -> (r: Result<String, String>)
    ensures
        match r {
            Ok(s) => args@.text_of(name@) == Some(s@),
            Err(e) => args@.text_of(name@) is None && e@ == no_text(name@),
        },
{
    match args.text_of(name) {
        Some(s) => Ok(s),
        None => {
            let mut e = "`".to_string();
            e.push_str(name);
            e.push_str("` is required and must be a string");
            Err(e)
        },
    }
}

/// A button of the pointer.
#[derive(Debug, PartialEq, Eq, Clone, Copy, Structural)]
pub enum Button {
    Left,
    Middle,
    Right,
}

/// What a host call asks of the desktop.
#[derive(Debug)]
pub enum DesktopOp {
    Screenshot { display: usize },
    Displays,
    Windows,
    Cursor,
    Move { x: i32, y: i32 },
    Click { x: i32, y: i32, button: Button },
    DoubleClick { x: i32, y: i32 },
    Drag { x1: i32, y1: i32, x2: i32, y2: i32 },
    Type { text: String },
    Key { combo: String },
    Scroll { direction: String, amount: i32, vertical: bool, length: i32 },
    ClipboardRead,
    ClipboardWrite { text: String },
}

/// What a [`DesktopOp`] says.
#[verifier::ext_equal]
pub enum OpView {
    Screenshot { display: usize },
    Displays,
    Windows,
    Cursor,
    Move { x: i32, y: i32 },
    Click { x: i32, y: i32, button: Button },
    DoubleClick { x: i32, y: i32 },
    Drag { x1: i32, y1: i32, x2: i32, y2: i32 },
    Type { text: Seq<char> },
    Key { combo: Seq<char> },
    Scroll { direction: Seq<char>, amount: i32, vertical: bool, length: i32 },
    ClipboardRead,
    ClipboardWrite { text: Seq<char> },
}

impl View for DesktopOp {
    type V = OpView;

    open spec fn view(&self) -> OpView {
        match *self {
            DesktopOp::Screenshot { display } => OpView::Screenshot { display },
            DesktopOp::Displays => OpView::Displays,
            DesktopOp::Windows => OpView::Windows,
            DesktopOp::Cursor => OpView::Cursor,
            DesktopOp::Move { x, y } => OpView::Move { x, y },
            DesktopOp::Click { x, y, button } => OpView::Click { x, y, button },
            DesktopOp::DoubleClick { x, y } => OpView::DoubleClick { x, y },
            DesktopOp::Drag { x1, y1, x2, y2 } => OpView::Drag { x1, y1, x2, y2 },
            DesktopOp::Type { text } => OpView::Type { text: text@ },
            DesktopOp::Key { combo } => OpView::Key { combo: combo@ },
            DesktopOp::Scroll { direction, amount, vertical, length } => OpView::Scroll {
                direction: direction@,
                amount,
                vertical,
                length,
            },
            DesktopOp::ClipboardRead => OpView::ClipboardRead,
            DesktopOp::ClipboardWrite { text } => OpView::ClipboardWrite { text: text@ },
        }
    }
}

/// The first missing number among the names, from `from` on.
pub open spec fn first_missing(args: JsonView, names: Seq<Seq<char>>, from: int) -> Option<Seq<char>>
    decreases names.len() - from,
{
    if from < 0 || from >= names.len() {
        None
    } else if number_of(args, names[from]) is None {
        Some(names[from])
    } else {
        first_missing(args, names, from + 1)
    }
}

/// The button an argument names; the left one by default.
pub open spec fn button_of(args: JsonView) -> Button {
    if args.text_of("button"@) == Some("right"@) {
        Button::Right
    } else if args.text_of("button"@) == Some("middle"@) {
        Button::Middle
    } else {
        Button::Left
    }
}

/// The way a scroll goes; down by default.
pub open spec fn direction_of(args: JsonView) -> Seq<char> {
    match args.text_of("direction"@) {
        Some(d) => d,
        None => "down"@,
    }
}

/// How far a scroll goes; three by default.
pub open spec fn amount_of(args: JsonView) -> i32 {
    match number_of(args, "amount"@) {
        Some(n) => n,
        None => 3,
    }
}

/// The negation of a 32-bit number, which is itself for the least of them.
pub open spec fn negated(n: i32) -> i32 {
    if n == i32::MIN {
        n
    } else {
        (-n) as i32
    }
}

/// What a scroll asks for.
pub open spec fn scrolled(args: JsonView) -> Result<OpView, Seq<char>> {
    let direction = direction_of(args);
    let amount = amount_of(args);
    if direction == "up"@ || direction == "down"@ || direction == "left"@ || direction
        == "right"@ {
        Ok(
            OpView::Scroll {
                direction,
                amount,
                vertical: direction == "up"@ || direction == "down"@,
                length: if direction == "up"@ || direction == "left"@ {
                    negated(amount)
                } else {
                    amount
                },
            },
        )
    } else {
        Err("unknown scroll direction: "@ + direction)
    }
}

/// What a drag asks for.
pub open spec fn dragged(args: JsonView) -> Result<OpView, Seq<char>> {
    match first_missing(args, seq!["x1"@, "y1"@, "x2"@, "y2"@], 0) {
        Some(name) => Err(no_number(name)),
        None => Ok(
            OpView::Drag {
                x1: number_of(args, "x1"@)->Some_0,
                y1: number_of(args, "y1"@)->Some_0,
                x2: number_of(args, "x2"@)->Some_0,
                y2: number_of(args, "y2"@)->Some_0,
            },
        ),
    }
}

/// What a host call asks of the desktop, or why it asks for nothing.
pub open spec fn requested(op: Seq<char>, args: JsonView) -> Result<OpView, Seq<char>> {
    let x = number_of(args, "x"@);
    let y = number_of(args, "y"@);
    let xy = first_missing(args, seq!["x"@, "y"@], 0);
    if op == "screenshot"@ {
        Ok(
            OpView::Screenshot {
                display: match args.unsigned_of("display"@) {
                    Some(n) => n as usize,
                    None => 0,
                },
            },
        )
    } else if op == "displays"@ {
        Ok(OpView::Displays)
    } else if op == "windows"@ {
        Ok(OpView::Windows)
    } else if op == "cursor"@ {
        Ok(OpView::Cursor)
    } else if op == "move"@ || op == "click"@ || op == "double_click"@ {
        match xy {
            Some(name) => Err(no_number(name)),
            None => Ok(
                if op == "move"@ {
                    OpView::Move { x: x->Some_0, y: y->Some_0 }
                } else if op == "click"@ {
                    OpView::Click { x: x->Some_0, y: y->Some_0, button: button_of(args) }
                } else {
                    OpView::DoubleClick { x: x->Some_0, y: y->Some_0 }
                },
            ),
        }
    } else if op == "drag"@ {
        dragged(args)
    } else if op == "type"@ {
        match args.text_of("text"@) {
            Some(text) => Ok(OpView::Type { text }),
            None => Err(no_text("text"@)),
        }
    } else if op == "key"@ {
        match args.text_of("combo"@) {
            Some(combo) => Ok(OpView::Key { combo }),
            None => Err(no_text("combo"@)),
        }
    } else if op == "scroll"@ {
        scrolled(args)
    } else if op == "clipboard_read"@ {
        Ok(OpView::ClipboardRead)
    } else if op == "clipboard_write"@ {
        match args.text_of("text"@) {
            Some(text) => Ok(OpView::ClipboardWrite { text }),
            None => Err(no_text("text"@)),
        }
    } else {
        Err("unknown host call: "@ + op)
    }
}

/// What a parsed op amounts to.
pub open spec fn op_outcome(r: Result<DesktopOp, String>) -> Result<OpView, Seq<char>> {
    match r {
        Ok(op) => Ok(op@),
        Err(e) => Err(e@),
    }
}

fn point(args: &Json) -> (r: Result<(i32, i32), String>)
    ensures
        match r {
            Ok(p) => first_missing(args@, seq!["x"@, "y"@], 0) is None && number_of(args@, "x"@)
                == Some(p.0) && number_of(args@, "y"@) == Some(p.1),
            Err(e) => (first_missing(args@, seq!["x"@, "y"@], 0) matches Some(name) && e@
                == no_number(name)),
        },
{
    proof {
        reveal_with_fuel(first_missing, 3);
    }
    let x: i32 = match number(args, "x") {
        Ok(n) => n,
        Err(e) => {
            return Err(e);
        },
    };
    let y: i32 = match number(args, "y") {
        Ok(n) => n,
        Err(e) => {
            return Err(e);
        },
    };
    Ok((x, y))
}

fn drag_op(args: &Json) -> (r: Result<DesktopOp, String>)
    ensures
        op_outcome(r) == dragged(args@),
{
    proof {
        reveal_with_fuel(first_missing, 5);
    }
    let x1: i32 = match number(args, "x1") {
        Ok(n) => n,
        Err(e) => {
            return Err(e);
        },
    };
    let y1: i32 = match number(args, "y1") {
        Ok(n) => n,
        Err(e) => {
            return Err(e);
        },
    };
    let x2: i32 = match number(args, "x2") {
        Ok(n) => n,
        Err(e) => {
            return Err(e);
        },
    };
    let y2: i32 = match number(args, "y2") {
        Ok(n) => n,
        Err(e) => {
            return Err(e);
        },
    };
    Ok(DesktopOp::Drag { x1, y1, x2, y2 })
}

fn scroll_op(args: &Json) -> (r: Result<DesktopOp, String>)
    ensures
        op_outcome(r) == scrolled(args@),
{
    let direction = match args.text_of("direction") {
        Some(d) => d,
        None => "down".to_string(),
    };
    let amount: i32 = match number(args, "amount") {
        Ok(n) => n,
        Err(_) => 3,
    };
    let vertical = same(&direction, "up") || same(&direction, "down");
    if !vertical && !same(&direction, "left") && !same(&direction, "right") {
        let mut e = "unknown scroll direction: ".to_string();
        e.push_str(&direction);
        return Err(e);
    }
    let length: i32 = if same(&direction, "up") || same(&direction, "left") {
        if amount == i32::MIN {
            amount
        } else {
            -amount
        }
    } else {
        amount
    };
    Ok(DesktopOp::Scroll { direction, amount, vertical, length })
}

fn read_button(args: &Json) -> (b: Button)
    ensures
        b == button_of(args@),
{
    match args.text_of("button") {
        Some(s) => {
            if same(&s, "right") {
                Button::Right
            } else if same(&s, "middle") {
                Button::Middle
            } else {
                Button::Left
            }
        },
        None => Button::Left,
    }
}

/// What a host call asks of the desktop.
pub fn request(op: &str, args: &Json) -> (r: Result<DesktopOp, String>)
    ensures
        op_outcome(r) == requested(op@, args@),
{
    if same(op, "screenshot") {
        let display: usize = match args.unsigned_of("display") {
            Some(n) => #[verifier::truncate] (n as usize),
            None => 0,
        };
        Ok(DesktopOp::Screenshot { display })
    } else if same(op, "displays") {
        Ok(DesktopOp::Displays)
    } else if same(op, "windows") {
        Ok(DesktopOp::Windows)
    } else if same(op, "cursor") {
        Ok(DesktopOp::Cursor)
    } else if same(op, "move") || same(op, "click") || same(op, "double_click") {
        let (x, y) = match point(args) {
            Ok(p) => p,
            Err(e) => {
                return Err(e);
            },
        };
        if same(op, "move") {
            Ok(DesktopOp::Move { x, y })
        } else if same(op, "click") {
            Ok(DesktopOp::Click { x, y, button: read_button(args) })
        } else {
            Ok(DesktopOp::DoubleClick { x, y })
        }
    } else if same(op, "drag") {
        drag_op(args)
    } else if same(op, "type") {
        match string(args, "text") {
            Ok(text) => Ok(DesktopOp::Type { text }),
            Err(e) => Err(e),
        }
    } else if same(op, "key") {
        match string(args, "combo") {
            Ok(combo) => Ok(DesktopOp::Key { combo }),
            Err(e) => Err(e),
        }
    } else if same(op, "scroll") {
        scroll_op(args)
    } else if same(op, "clipboard_read") {
        Ok(DesktopOp::ClipboardRead)
    } else if same(op, "clipboard_write") {
        match string(args, "text") {
            Ok(text) => Ok(DesktopOp::ClipboardWrite { text }),
            Err(e) => Err(e),
        }
    } else {
        let mut e = "unknown host call: ".to_string();
        e.push_str(op);
        Err(e)
    }
}

// ---------------------------------------------------------------------------
// Input steps
// ---------------------------------------------------------------------------

/// One thing sent to the input device.
#[derive(Debug, PartialEq, Eq, Clone, Copy, Structural)]
pub enum Step {
    MoveTo { x: i32, y: i32 },
    DragTo { x: i32, y: i32 },
    Press,
    Release,
    ClickButton { button: Button },
    TypeText,
    PressKeys,
    ScrollBy { vertical: bool, length: i32 },
}

/// What an op sends to the input device, in order.
pub open spec fn steps(op: OpView) -> Seq<Step> {
    match op {
        OpView::Move { x, y } => seq![Step::MoveTo { x, y }],
        OpView::Click { x, y, button } => seq![
            Step::MoveTo { x, y },
            Step::ClickButton { button },
        ],
        OpView::DoubleClick { x, y } => seq![
            Step::MoveTo { x, y },
            Step::ClickButton { button: Button::Left },
            Step::ClickButton { button: Button::Left },
        ],
        OpView::Drag { x1, y1, x2, y2 } => seq![
            Step::MoveTo { x: x1, y: y1 },
            Step::Press,
            Step::DragTo { x: x2, y: y2 },
            Step::Release,
        ],
        OpView::Type { .. } => seq![Step::TypeText],
        OpView::Key { .. } => seq![Step::PressKeys],
        OpView::Scroll { vertical, length, .. } => seq![Step::ScrollBy { vertical, length }],
        _ => seq![],
    }
}

/// What a failed step is reported under.
pub open spec fn label(step: Step) -> Seq<char> {
    match step {
        Step::MoveTo { .. } => "move failed: "@,
        Step::DragTo { .. } => "drag failed: "@,
        Step::Press => "press failed: "@,
        Step::Release => "release failed: "@,
        Step::ClickButton { .. } => "click failed: "@,
        Step::TypeText => "typing failed: "@,
        Step::PressKeys => "key failed: "@,
        Step::ScrollBy { .. } => "scroll failed: "@,
    }
}

/// Whether none of the steps taken so far has failed.
pub open spec fn all_well(taken: Seq<Option<Seq<char>>>) -> bool {
    forall|i: int| 0 <= i < taken.len() ==> (#[trigger] taken[i]) is None
}

/// The step that follows those taken, each with its error where it failed. A
/// failure ends the op, but a drag lets go whatever became of its move, so that
/// the pointer is not left held down over the user's desktop.
pub open spec fn step_after(op: OpView, taken: Seq<Option<Seq<char>>>) -> Option<Step> {
    if taken.len() >= steps(op).len() {
        None
    } else if all_well(taken) || (op is Drag && taken.len() == 3 && all_well(taken.take(2))) {
        Some(steps(op)[taken.len() as int])
    } else {
        None
    }
}

/// The first failure among the steps taken, under its label.
pub open spec fn failure(op: OpView, taken: Seq<Option<Seq<char>>>, from: int) -> Option<Seq<char>>
    decreases taken.len() - from,
{
    if from < 0 || from >= taken.len() || from >= steps(op).len() {
        None
    } else {
        match taken[from] {
            Some(e) => Some(label(steps(op)[from]) + e),
            None => failure(op, taken, from + 1),
        }
    }
}

/// The errors as texts.
pub open spec fn taken_view(taken: Seq<Option<String>>) -> Seq<Option<Seq<char>>> {
    Seq::new(taken.len(), |i: int| opt_view(taken[i]))
}

/// What an op sends to the input device, in order.
pub fn steps_of(op: &DesktopOp) -> (out: Vec<Step>)
    ensures
        out@ == steps(op@),
{
    let mut out: Vec<Step> = Vec::new();
    match op {
        DesktopOp::Move { x, y } => {
            out.push(Step::MoveTo { x: *x, y: *y });
        },
        DesktopOp::Click { x, y, button } => {
            out.push(Step::MoveTo { x: *x, y: *y });
            out.push(Step::ClickButton { button: *button });
        },
        DesktopOp::DoubleClick { x, y } => {
            out.push(Step::MoveTo { x: *x, y: *y });
            out.push(Step::ClickButton { button: Button::Left });
            out.push(Step::ClickButton { button: Button::Left });
        },
        DesktopOp::Drag { x1, y1, x2, y2 } => {
            out.push(Step::MoveTo { x: *x1, y: *y1 });
            out.push(Step::Press);
            out.push(Step::DragTo { x: *x2, y: *y2 });
            out.push(Step::Release);
        },
        DesktopOp::Type { .. } => {
            out.push(Step::TypeText);
        },
        DesktopOp::Key { .. } => {
            out.push(Step::PressKeys);
        },
        DesktopOp::Scroll { vertical, length, .. } => {
            out.push(Step::ScrollBy { vertical: *vertical, length: *length });
        },
        _ => {},
    }
    assert(out@ =~= steps(op@));
    out
}

fn well_until(taken: &Vec<Option<String>>, n: usize) -> (r: bool)
    requires
        n <= taken@.len(),
    ensures
        r == all_well(taken_view(taken@).take(n as int)),
{
    let ghost model = taken_view(taken@);
    let mut i: usize = 0;
    while i < n
        invariant
            i <= n <= taken@.len(),
            model == taken_view(taken@),
            forall|k: int| 0 <= k < i ==> (#[trigger] model[k]) is None,
        decreases n - i,
    {
        assert(model[i as int] == opt_view(taken@[i as int]));
        if taken[i].is_some() {
            assert(model.take(n as int)[i as int] is Some);
            return false;
        }
        i += 1;
    }
    assert forall|k: int| 0 <= k < n implies (#[trigger] model.take(n as int)[k]) is None by {
        assert(model[k] is None);
    }
    true
}

/// The step that follows those taken, each with its error where it failed.
pub fn next_step(op: &DesktopOp, taken: &Vec<Option<String>>) -> (r: Option<Step>)
    ensures
        r == step_after(op@, taken_view(taken@)),
{
    let all = steps_of(op);
    let n: usize = taken.len();
    if n >= all.len() {
        return None;
    }
    let is_drag = match op {
        DesktopOp::Drag { .. } => true,
        _ => false,
    };
    assert(taken_view(taken@).take(n as int) =~= taken_view(taken@));
    if well_until(taken, n) || (is_drag && n == 3 && well_until(taken, 2)) {
        Some(all[n])
    } else {
        None
    }
}

fn label_of(step: Step) -> (out: &'static str)
    ensures
        out@ == label(step),
{
    match step {
        Step::MoveTo { .. } => "move failed: ",
        Step::DragTo { .. } => "drag failed: ",
        Step::Press => "press failed: ",
        Step::Release => "release failed: ",
        Step::ClickButton { .. } => "click failed: ",
        Step::TypeText => "typing failed: ",
        Step::PressKeys => "key failed: ",
        Step::ScrollBy { .. } => "scroll failed: ",
    }
}

/// What a finished op answers.
pub open spec fn done(op: OpView) -> JsonView {
    match op {
        OpView::Move { x, y } => JsonView::Object(
            seq![("x"@, integer_json(x as int)), ("y"@, integer_json(y as int))],
        ),
        OpView::Click { x, y, .. } => JsonView::Object(
            seq![
                ("clicked"@, JsonView::Array(seq![integer_json(x as int), integer_json(y as int)])),
            ],
        ),
        OpView::DoubleClick { x, y } => JsonView::Object(
            seq![
                ("clicked"@, JsonView::Array(seq![integer_json(x as int), integer_json(y as int)])),
            ],
        ),
        OpView::Drag { x1, y1, x2, y2 } => JsonView::Object(
            seq![
                ("from"@, JsonView::Array(seq![integer_json(x1 as int), integer_json(y1 as int)])),
                ("to"@, JsonView::Array(seq![integer_json(x2 as int), integer_json(y2 as int)])),
            ],
        ),
        OpView::Type { text } => JsonView::Object(seq![("typed"@, integer_json(text.len() as int))]),
        OpView::Key { combo } => JsonView::Object(seq![("pressed"@, JsonView::Text(combo))]),
        OpView::Scroll { direction, amount, .. } => JsonView::Object(
            seq![
                ("scrolled"@, JsonView::Text(direction)),
                ("amount"@, integer_json(amount as int)),
            ],
        ),
        OpView::ClipboardWrite { text } => JsonView::Object(
            seq![("wrote"@, integer_json(text.len() as int))],
        ),
        _ => JsonView::Null,
    }
}

fn spot(x: i32, y: i32) -> (out: Json)
    ensures
        out@ == JsonView::Array(seq![integer_json(x as int), integer_json(y as int)]),
{
    pair(integer(x as i64), integer(y as i64))
}

fn one(key: &str, value: Json) -> (out: Json)
    ensures
        out@ == JsonView::Object(seq![(key@, value@)]),
{
    let mut members = no_members();
    put(&mut members, key, value);
    object(members)
}

fn two(key: &str, value: Json, other: &str, second: Json) -> (out: Json)
    ensures
        out@ == JsonView::Object(seq![(key@, value@), (other@, second@)]),
{
    let mut members = no_members();
    put(&mut members, key, value);
    put(&mut members, other, second);
    assert(members_view(members@) =~= seq![(key@, value@), (other@, second@)]);
    object(members)
}

fn length_of(s: &str) -> (out: Json)
    ensures
        out@ == integer_json(s@.len() as int),
{
    whole(crate::text::chars_of(s).len() as u64)
}

/// What a finished op answers.
pub fn done_answer(op: &DesktopOp) -> (out: Json)
    ensures
        out@ == done(op@),
{
    match op {
        DesktopOp::Move { x, y } => two("x", integer(*x as i64), "y", integer(*y as i64)),
        DesktopOp::Click { x, y, .. } => one("clicked", spot(*x, *y)),
        DesktopOp::DoubleClick { x, y } => one("clicked", spot(*x, *y)),
        DesktopOp::Drag { x1, y1, x2, y2 } => two("from", spot(*x1, *y1), "to", spot(*x2, *y2)),
        DesktopOp::Type { text } => one("typed", length_of(text)),
        DesktopOp::Key { combo } => one("pressed", text(combo)),
        DesktopOp::Scroll { direction, amount, .. } => two(
            "scrolled",
            text(direction),
            "amount",
            integer(*amount as i64),
        ),
        DesktopOp::ClipboardWrite { text } => one("wrote", length_of(text)),
        _ => Json::Null,
    }
}

/// What an op answers once its steps were taken: the first failure, or what was done.
pub fn settle(op: &DesktopOp, taken: &Vec<Option<String>>) -> (r: Result<Json, String>)
    ensures
        match (failure(op@, taken_view(taken@), 0), r) {
            (Some(e), Err(x)) => x@ == e,
            (None, Ok(v)) => v@ == done(op@),
            _ => false,
        },
{
    let all = steps_of(op);
    let ghost model = taken_view(taken@);
    let mut i: usize = 0;
    while i < taken.len() && i < all.len()
        invariant
            i <= taken@.len(),
            i <= all@.len(),
            all@ == steps(op@),
            model == taken_view(taken@),
            failure(op@, model, 0) == failure(op@, model, i as int),
        decreases taken.len() - i,
    {
        assert(model[i as int] == opt_view(taken@[i as int]));
        if let Some(e) = &taken[i] {
            let mut out = label_of(all[i]).to_string();
            out.push_str(e);
            return Err(out);
        }
        i += 1;
    }
    Ok(done_answer(op))
}

/// A drag whose press went through lets go, whatever became of its move.
pub proof fn a_drag_lets_go(op: OpView, taken: Seq<Option<Seq<char>>>)
    requires
        op is Drag,
        taken.len() == 3,
        taken[0] is None,
        taken[1] is None,
    ensures
        step_after(op, taken) == Some(Step::Release),
{
    assert(all_well(taken.take(2)));
}

/// An op that only reads sends nothing to the input device.
pub proof fn reading_sends_nothing(op: Seq<char>, args: JsonView)
    requires
        !is_writing_op(op),
    ensures
        requested(op, args) matches Ok(asked) ==> steps(asked).len() == 0 && !(asked
            is ClipboardWrite),
{
}

// ---------------------------------------------------------------------------
// Answers of the reading ops
// ---------------------------------------------------------------------------

/// The answer to `cursor`.
pub fn cursor_answer(x: i32, y: i32) -> (out: Json)
    ensures
        out@ == JsonView::Object(
            seq![("x"@, integer_json(x as int)), ("y"@, integer_json(y as int))],
        ),
{
    two("x", integer(x as i64), "y", integer(y as i64))
}

/// What a display that is not there is reported as.
pub fn no_display(wanted: usize) -> (out: String)
    ensures
        out@ == "there is no display "@ + decimal(wanted as nat),
{
    let mut out = "there is no display ".to_string();
    let n = count(wanted);
    out.push_str(&n);
    out
}

/// The answer to `screenshot`: the image's size, and its bytes as base64.
pub fn screenshot_answer(width: u32, height: u32, png: &[u8]) -> (out: Json)
    ensures
        out@ == JsonView::Object(
            seq![
                ("width"@, integer_json(width as int)),
                ("height"@, integer_json(height as int)),
                ("mime_type"@, JsonView::Text("image/png"@)),
                ("base64"@, JsonView::Text(base64_of(png@))),
            ],
        ),
{
    let mut members = no_members();
    put(&mut members, "width", integer(width as i64));
    put(&mut members, "height", integer(height as i64));
    put(&mut members, "mime_type", text("image/png"));
    put(&mut members, "base64", Json::Text(encode(png)));
    assert(members_view(members@) =~= seq![
        ("width"@, integer_json(width as int)),
        ("height"@, integer_json(height as int)),
        ("mime_type"@, JsonView::Text("image/png"@)),
        ("base64"@, JsonView::Text(base64_of(png@))),
    ]);
    object(members)
}

// ---------------------------------------------------------------------------
// The clipboard
// ---------------------------------------------------------------------------

/// The platforms that differ in how their clipboard is reached.
#[derive(Debug, PartialEq, Eq, Clone, Copy, Structural)]
pub enum Platform {
    Macos,
    Windows,
    Other,
}

/// A command line: a program and its arguments.
pub open spec fn command(r: (String, Vec<String>)) -> Seq<Seq<char>> {
    seq![r.0@] + views(r.1@)
}

/// The command that reads the clipboard.
pub open spec fn reader(platform: Platform, wl_paste: bool, xclip: bool) -> Option<Seq<Seq<char>>> {
    match platform {
        Platform::Macos => Some(seq!["pbpaste"@]),
        Platform::Windows => Some(
            seq!["powershell"@, "-NoProfile"@, "-Command"@, "Get-Clipboard"@],
        ),
        Platform::Other => if wl_paste {
            Some(seq!["wl-paste"@, "--no-newline"@])
        } else if xclip {
            Some(seq!["xclip"@, "-selection"@, "clipboard"@, "-o"@])
        } else {
            None
        },
    }
}

/// The command that writes the clipboard.
pub open spec fn writer(platform: Platform, wl_copy: bool, xclip: bool) -> Option<Seq<Seq<char>>> {
    match platform {
        Platform::Macos => Some(seq!["pbcopy"@]),
        Platform::Windows => Some(seq!["clip"@]),
        Platform::Other => if wl_copy {
            Some(seq!["wl-copy"@])
        } else if xclip {
            Some(seq!["xclip"@, "-selection"@, "clipboard"@])
        } else {
            None
        },
    }
}

/// Whether a clipboard command is the one that was to be found.
pub open spec fn chosen(
    r: Result<(String, Vec<String>), String>,
    expected: Option<Seq<Seq<char>>>,
) -> bool {
    match r {
        Ok(c) => expected == Some(command(c)),
        Err(e) => expected is None && e@
            == "no clipboard command found; install wl-clipboard or xclip"@,
    }
}

fn no_command() -> (e: String)
    ensures
        e@ == "no clipboard command found; install wl-clipboard or xclip"@,
{
    "no clipboard command found; install wl-clipboard or xclip".to_string()
}

/// The command that reads the clipboard, given which tools are installed.
///
/// No crate is pulled in for it: each platform ships a pair of tools that do
/// exactly this.
pub fn clipboard_reader(platform: Platform, wl_paste: bool, xclip: bool) -> (r: Result<
    (String, Vec<String>),
    String,
>)
    ensures
        chosen(r, reader(platform, wl_paste, xclip)),
{
    broadcast use crate::text::views_push;

    let mut args: Vec<String> = Vec::new();
    assert(views(args@) =~= seq![]);
    let program: &str = match platform {
        Platform::Macos => "pbpaste",
        Platform::Windows => {
            args.push("-NoProfile".to_string());
            args.push("-Command".to_string());
            args.push("Get-Clipboard".to_string());
            "powershell"
        },
        Platform::Other => {
            if wl_paste {
                args.push("--no-newline".to_string());
                "wl-paste"
            } else if xclip {
                args.push("-selection".to_string());
                args.push("clipboard".to_string());
                args.push("-o".to_string());
                "xclip"
            } else {
                return Err(no_command());
            }
        },
    };
    let out = (program.to_string(), args);
    assert(command(out) =~= reader(platform, wl_paste, xclip)->Some_0);
    Ok(out)
}

/// The command that writes the clipboard, given which tools are installed.
pub fn clipboard_writer(platform: Platform, wl_copy: bool, xclip: bool) -> (r: Result<
    (String, Vec<String>),
    String,
>)
    ensures
        chosen(r, writer(platform, wl_copy, xclip)),
{
    broadcast use crate::text::views_push;

    let mut args: Vec<String> = Vec::new();
    assert(views(args@) =~= seq![]);
    let program: &str = match platform {
        Platform::Macos => "pbcopy",
        Platform::Windows => "clip",
        Platform::Other => {
            if wl_copy {
                "wl-copy"
            } else if xclip {
                args.push("-selection".to_string());
                args.push("clipboard".to_string());
                "xclip"
            } else {
                return Err(no_command());
            }
        },
    };
    let out = (program.to_string(), args);
    assert(command(out) =~= writer(platform, wl_copy, xclip)->Some_0);
    Ok(out)
}

proof fn none_missing(args: JsonView, names: Seq<Seq<char>>, from: int)
    requires
        0 <= from,
        forall|i: int| 0 <= i < names.len() ==> number_of(args, #[trigger] names[i]) is Some,
    ensures
        first_missing(args, names, from) is None,
    decreases names.len() - from,
{
    if from < names.len() {
        assert(number_of(args, names[from]) is Some);
        none_missing(args, names, from + 1);
    }
}

/// An op at a place acts at the place it is given, and names the first coordinate that
/// is missing where one is.
pub proof fn an_op_acts_at_its_place(args: JsonView, x: i32, y: i32)
    ensures
        number_of(args, "x"@) == Some(x) && number_of(args, "y"@) == Some(y) ==> {
            &&& requested("move"@, args) == Ok::<OpView, Seq<char>>(OpView::Move { x, y })
            &&& requested("click"@, args) == Ok::<OpView, Seq<char>>(
                OpView::Click { x, y, button: button_of(args) },
            )
            &&& requested("double_click"@, args) == Ok::<OpView, Seq<char>>(
                OpView::DoubleClick { x, y },
            )
        },
        number_of(args, "x"@) is None ==> requested("move"@, args) == Err::<OpView, Seq<char>>(
            "`"@ + "x"@ + "` is required and must be a number"@,
        ),
        number_of(args, "x"@) is Some && number_of(args, "y"@) is None ==> requested("move"@, args)
            == Err::<OpView, Seq<char>>("`"@ + "y"@ + "` is required and must be a number"@),
{
    op_names_differ();
    reveal_with_fuel(first_missing, 3);
    let names = seq!["x"@, "y"@];
    assert(names[0] == "x"@ && names[1] == "y"@);
}

proof fn op_names_differ()
    ensures
        "move"@ != "screenshot"@ && "move"@ != "displays"@ && "move"@ != "windows"@ && "move"@
            != "cursor"@ && "move"@ != "click"@ && "move"@ != "double_click"@,
        "click"@ != "screenshot"@ && "click"@ != "displays"@ && "click"@ != "windows"@ && "click"@
            != "cursor"@ && "click"@ != "double_click"@,
        "double_click"@ != "screenshot"@ && "double_click"@ != "displays"@ && "double_click"@
            != "windows"@ && "double_click"@ != "cursor"@,
        "drag"@ != "screenshot"@ && "drag"@ != "displays"@ && "drag"@ != "windows"@ && "drag"@
            != "cursor"@ && "drag"@ != "move"@ && "drag"@ != "click"@ && "drag"@ != "double_click"@,
{
    reveal_strlit("move");
    reveal_strlit("screenshot");
    reveal_strlit("displays");
    reveal_strlit("windows");
    reveal_strlit("cursor");
    reveal_strlit("click");
    reveal_strlit("double_click");
    reveal_strlit("drag");
    assert("move"@[0] == 'm' && "screenshot"@[0] == 's' && "displays"@[0] == 'd' && "windows"@[0]
        == 'w' && "cursor"@[0] == 'c' && "click"@[0] == 'c' && "double_click"@[0] == 'd'
        && "drag"@[0] == 'd');
    assert("cursor"@[1] == 'u' && "click"@[1] == 'l');
    assert("displays"@[1] == 'i' && "double_click"@[1] == 'o' && "drag"@[1] == 'r');
}

/// A drag goes from its first place to its second.
pub proof fn a_drag_goes_from_first_to_second(args: JsonView, x1: i32, y1: i32, x2: i32, y2: i32)
    requires
        number_of(args, "x1"@) == Some(x1),
        number_of(args, "y1"@) == Some(y1),
        number_of(args, "x2"@) == Some(x2),
        number_of(args, "y2"@) == Some(y2),
    ensures
        requested("drag"@, args) == Ok::<OpView, Seq<char>>(OpView::Drag { x1, y1, x2, y2 }),
{
    op_names_differ();
    let names = seq!["x1"@, "y1"@, "x2"@, "y2"@];
    assert(names[0] == "x1"@ && names[1] == "y1"@ && names[2] == "x2"@ && names[3] == "y2"@);
    none_missing(args, names, 0);
}

/// Scrolling up or left goes the other way from scrolling down or right, by as much;
/// up and down go one way, left and right the other.
pub proof fn scrolling_goes_both_ways(args: JsonView)
    requires
        amount_of(args) != i32::MIN,
    ensures
        direction_of(args) == "up"@ ==> scrolled(args) is Ok && scrolled(args)->Ok_0 is Scroll
            && scrolled(args)->Ok_0->vertical && scrolled(args)->Ok_0->length == -amount_of(args),
        direction_of(args) == "down"@ ==> scrolled(args) is Ok && scrolled(args)->Ok_0 is Scroll
            && scrolled(args)->Ok_0->vertical && scrolled(args)->Ok_0->length == amount_of(args),
        direction_of(args) == "left"@ ==> scrolled(args) is Ok && scrolled(args)->Ok_0 is Scroll
            && !scrolled(args)->Ok_0->vertical && scrolled(args)->Ok_0->length == -amount_of(args),
        direction_of(args) == "right"@ ==> scrolled(args) is Ok && scrolled(args)->Ok_0 is Scroll
            && !scrolled(args)->Ok_0->vertical && scrolled(args)->Ok_0->length == amount_of(args),
{
    reveal_strlit("up");
    reveal_strlit("down");
    reveal_strlit("left");
    reveal_strlit("right");
    assert("up"@.len() == 2 && "down"@.len() == 4 && "left"@.len() == 4 && "right"@.len() == 5);
    assert("down"@[0] == 'd' && "left"@[0] == 'l');
}

/// What an op does to the input device: it moves to its place before it acts there, a
/// double click clicks twice, and a drag holds from its first place to its second.
pub proof fn an_op_moves_before_it_acts(x: i32, y: i32, x2: i32, y2: i32, button: Button)
    ensures
        steps(OpView::Move { x, y }) == seq![Step::MoveTo { x, y }],
        steps(OpView::Click { x, y, button }) == seq![
            Step::MoveTo { x, y },
            Step::ClickButton { button },
        ],
        steps(OpView::DoubleClick { x, y }).len() == 3,
        steps(OpView::DoubleClick { x, y })[0] == (Step::MoveTo { x, y }),
        steps(OpView::DoubleClick { x, y })[1] == steps(OpView::DoubleClick { x, y })[2],
        steps(OpView::DoubleClick { x, y })[1] == (Step::ClickButton { button: Button::Left }),
        steps(OpView::Drag { x1: x, y1: y, x2, y2 }) == seq![
            Step::MoveTo { x, y },
            Step::Press,
            Step::DragTo { x: x2, y: y2 },
            Step::Release,
        ],
{
}

/// While every step goes well the next is taken in turn, and none after the last.
pub proof fn steps_are_taken_in_turn(op: OpView, taken: Seq<Option<Seq<char>>>)
    requires
        forall|i: int| 0 <= i < taken.len() ==> (#[trigger] taken[i]) is None,
    ensures
        taken.len() < steps(op).len() ==> step_after(op, taken) == Some(
            steps(op)[taken.len() as int],
        ),
        taken.len() >= steps(op).len() ==> step_after(op, taken) is None,
        failure(op, taken, 0) is None,
{
    no_failure(op, taken, 0);
}

proof fn no_failure(op: OpView, taken: Seq<Option<Seq<char>>>, from: int)
    requires
        0 <= from,
        forall|i: int| 0 <= i < taken.len() ==> (#[trigger] taken[i]) is None,
    ensures
        failure(op, taken, from) is None,
    decreases taken.len() - from,
{
    if from < taken.len() {
        assert(taken[from] is None);
        no_failure(op, taken, from + 1);
    }
}

/// An op that fails tells the first step that did, and why.
pub proof fn the_first_failure_is_told(
    op: OpView,
    taken: Seq<Option<Seq<char>>>,
    from: int,
    k: int,
)
    requires
        0 <= from <= k < taken.len(),
        k < steps(op).len(),
        taken[k] is Some,
        forall|i: int| from <= i < k ==> (#[trigger] taken[i]) is None,
    ensures
        failure(op, taken, from) == Some(label(steps(op)[k]) + taken[k]->0),
    decreases k - from,
{
    if from < k {
        assert(taken[from] is None);
        the_first_failure_is_told(op, taken, from + 1, k);
    }
}

/// The clipboard is read and written by programs of one family: the platform's own, or
/// of those installed the one for Wayland before the one for X.
pub proof fn the_clipboard_has_one_family(wl: bool, xclip: bool)
    ensures
        reader(Platform::Other, wl, xclip) is None <==> !wl && !xclip,
        writer(Platform::Other, wl, xclip) is None <==> !wl && !xclip,
        wl ==> reader(Platform::Other, wl, xclip)->0[0] == "wl-paste"@ && writer(
            Platform::Other,
            wl,
            xclip,
        )->0[0] == "wl-copy"@,
        !wl && xclip ==> reader(Platform::Other, wl, xclip)->0[0] == "xclip"@ && writer(
            Platform::Other,
            wl,
            xclip,
        )->0[0] == "xclip"@,
        !wl && xclip ==> reader(Platform::Other, wl, xclip)->0 == writer(
            Platform::Other,
            wl,
            xclip,
        )->0.push("-o"@),
        reader(Platform::Macos, wl, xclip)->0[0] == "pbpaste"@,
        writer(Platform::Macos, wl, xclip)->0[0] == "pbcopy"@,
        reader(Platform::Windows, wl, xclip)->0[0] == "powershell"@,
        writer(Platform::Windows, wl, xclip)->0[0] == "clip"@,
{
    if !wl && xclip {
        assert(reader(Platform::Other, wl, xclip)->0 =~= writer(
            Platform::Other,
            wl,
            xclip,
        )->0.push("-o"@));
    }
}

/// What was done is answered with where it was done, or how much.
pub proof fn what_was_done_is_told(x: i32, y: i32, button: Button, text: Seq<char>)
    requires
        text.len() <= u64::MAX,
    ensures
        done(OpView::Move { x, y }).get("x"@) == Some(integer_json(x as int)),
        done(OpView::Move { x, y }).get("y"@) == Some(integer_json(y as int)),
        done(OpView::Click { x, y, button }).get("clicked"@) == Some(
            JsonView::Array(seq![integer_json(x as int), integer_json(y as int)]),
        ),
        done(OpView::Click { x, y, button }) == done(OpView::DoubleClick { x, y }),
        done(OpView::Type { text }).unsigned_of("typed"@) == Some(text.len() as u64),
        done(OpView::ClipboardWrite { text }).unsigned_of("wrote"@) == Some(text.len() as u64),
        done(OpView::Key { combo: text }).text_of("pressed"@) == Some(text),
{
    reveal_with_fuel(crate::json::member_from, 4);
    reveal_strlit("x");
    reveal_strlit("y");
    assert("x"@[0] == 'x' && "y"@[0] == 'y');
}

} // verus!
