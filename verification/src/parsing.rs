//! JSON texts.
//!
//! `serde_json` reads and writes them. What it read is taken over, value by value,
//! into [`Json`], which the tools work with.
use vstd::prelude::*;
use crate::json::{
    array_view, items_view, members_view, object_view, Json, JsonNumber, JsonView, NumberView,
};

verus! {

/// A value as `serde_json` reads it.
#[verifier::external_type_specification]
#[verifier::external_body]
pub struct ExValue(serde_json::Value);

/// What a `serde_json::Value` holds.
pub uninterp spec fn value_held(value: serde_json::Value) -> JsonView;

/// What `serde_json::from_str` reads a text as: what the value holds, or the error's
/// display text.
pub uninterp spec fn json_read(text: Seq<char>) -> Result<JsonView, Seq<char>>;

/// The text that `serde_json` writes for a value, on one line.
pub uninterp spec fn json_written(value: JsonView) -> Seq<char>;

/// The text that `serde_json::to_string_pretty` writes for a value, on lines of its
/// own for each part, or the error's display text.
pub uninterp spec fn json_laid_out(value: JsonView) -> Result<Seq<char>, Seq<char>>;

/// `serde_json::from_str` into a `serde_json::Value`: the value, or the error's
/// display text. What JSON is, is not stated.
#[verifier::external_body]
fn read_value(text: &str) -> (r: Result<serde_json::Value, String>)
    ensures
        match r {
            Ok(value) => json_read(text@) == Ok::<JsonView, Seq<char>>(value_held(value)),
            Err(e) => json_read(text@) == Err::<JsonView, Seq<char>>(e@),
        },
{
    serde_json::from_str::<serde_json::Value>(text).map_err(|error| error.to_string())
}

/// The display text of a `serde_json::Value`: its JSON on one line, which depends on
/// nothing but what the value holds.
#[verifier::external_body]
fn write_value(value: &serde_json::Value) -> (out: String)
    ensures
        out@ == json_written(value_held(*value)),
{
    value.to_string()
}

/// `serde_json::to_string_pretty` of a `serde_json::Value`: a text or the error's
/// display text, which depend on nothing but what the value holds.
#[verifier::external_body]
fn lay_out(value: &serde_json::Value) -> (r: Result<String, String>)
    ensures
        match r {
            Ok(out) => json_laid_out(value_held(*value)) == Ok::<Seq<char>, Seq<char>>(out@),
            Err(e) => json_laid_out(value_held(*value)) == Err::<Seq<char>, Seq<char>>(e@),
        },
{
    serde_json::to_string_pretty(value).map_err(|error| error.to_string())
}

/// A `serde_json::Value`, one level taken apart. A number is given as an unsigned
/// and as a signed integer, where it is one of 64 bits, and as it is written.
pub enum Opened {
    Null,
    Bool(bool),
    Number(Option<u64>, Option<i64>, String),
    Text(String),
    Array(Vec<serde_json::Value>),
    Object(Vec<(String, serde_json::Value)>),
}

/// A number, as an integer where it is one.
pub open spec fn number_opened(
    unsigned: Option<u64>,
    signed: Option<i64>,
    written: Seq<char>,
) -> NumberView {
    match (unsigned, signed) {
        (Some(n), _) => NumberView::Positive(n),
        (None, Some(n)) => NumberView::Negative(n),
        (None, None) => NumberView::Decimal(written),
    }
}

/// What the values hold.
pub open spec fn values_held(values: Seq<serde_json::Value>) -> Seq<JsonView> {
    Seq::new(values.len(), |i: int| value_held(values[i]))
}

/// What the members hold, under their keys.
pub open spec fn members_held(members: Seq<(String, serde_json::Value)>) -> Seq<
    (Seq<char>, JsonView),
> {
    Seq::new(members.len(), |i: int| (members[i].0@, value_held(members[i].1)))
}

/// What a value that was taken apart holds.
pub open spec fn opened_held(o: Opened) -> JsonView {
    match o {
        Opened::Null => JsonView::Null,
        Opened::Bool(b) => JsonView::Bool(b),
        Opened::Number(unsigned, signed, written) => JsonView::Number(
            number_opened(unsigned, signed, written@),
        ),
        Opened::Text(s) => JsonView::Text(s@),
        Opened::Array(items) => JsonView::Array(values_held(items@)),
        Opened::Object(members) => JsonView::Object(members_held(members@)),
    }
}

/// Takes a `serde_json::Value` apart by its variants. `Number::as_u64` and
/// `Number::as_i64` give an integer where the number is one that fits, and its
/// display text is the number as it is written; the members of a map come in the
/// map's order. What the value holds is read off its parts.
#[verifier::external_body]
fn open(value: serde_json::Value) -> (o: Opened)
    ensures
        opened_held(o) == value_held(value),
{
    match value {
        serde_json::Value::Null => Opened::Null,
        serde_json::Value::Bool(b) => Opened::Bool(b),
        serde_json::Value::Number(n) => Opened::Number(n.as_u64(), n.as_i64(), n.to_string()),
        serde_json::Value::String(s) => Opened::Text(s),
        serde_json::Value::Array(items) => Opened::Array(items),
        serde_json::Value::Object(members) => Opened::Object(members.into_iter().collect()),
    }
}

/// Take a value over.
pub fn hold(value: serde_json::Value) -> (out: Json)
    ensures
        out@ == value_held(value),
    decreases value_held(value),
{
    let ghost whole = value_held(value);
    match open(value) {
        Opened::Null => Json::Null,
        Opened::Bool(b) => Json::Bool(b),
        Opened::Number(unsigned, signed, written) => Json::Number(
            match (unsigned, signed) {
                (Some(n), _) => JsonNumber::Positive(n),
                (None, Some(n)) => JsonNumber::Negative(n),
                (None, None) => JsonNumber::Decimal(written),
            },
        ),
        Opened::Text(s) => Json::Text(s),
        Opened::Array(items) => {
            let ghost model = values_held(items@);
            let mut rest = items;
            let mut back: Vec<Json> = Vec::new();
            assert(items_view(back@) =~= model.skip(model.len() as int).reverse());
            while rest.len() > 0
                invariant
                    whole == value_held(value),
                    whole == JsonView::Array(model),
                    rest@.len() <= model.len(),
                    values_held(rest@) == model.take(rest@.len() as int),
                    items_view(back@) == model.skip(rest@.len() as int).reverse(),
                decreases rest.len(),
            {
                let ghost n = rest@.len() - 1;
                let ghost before = rest@;
                let ghost done = items_view(back@);
                let item = rest.pop().unwrap();
                assert(value_held(item) == values_held(before)[n]);
                assert(value_held(item) == model[n]);
                assert(decreases_to!(whole => whole->Array_0[n]));
                let held = hold(item);
                back.push(held);
                assert(values_held(rest@) =~= model.take(n));
                assert(items_view(back@) =~= done.push(model[n]));
                assert(done.push(model[n]) =~= model.skip(n).reverse());
            }
            assert(model.skip(0) =~= model);
            let mut out: Vec<Json> = Vec::new();
            assert(items_view(out@) =~= model.take(0));
            while back.len() > 0
                invariant
                    back@.len() <= model.len(),
                    items_view(back@) == model.skip(model.len() - back@.len()).reverse(),
                    items_view(out@) == model.take(model.len() - back@.len()),
                decreases back.len(),
            {
                let ghost n = model.len() - back@.len();
                let ghost before = items_view(back@);
                let ghost done = items_view(out@);
                let item = back.pop().unwrap();
                assert(item@ == before.last());
                assert(before.last() == model[n]);
                out.push(item);
                assert(items_view(back@) =~= before.drop_last());
                assert(before.drop_last() =~= model.skip(n + 1).reverse());
                assert(items_view(out@) =~= done.push(model[n]));
                assert(done.push(model[n]) =~= model.take(n + 1));
            }
            assert(model.take(model.len() as int) =~= model);
            proof {
                array_view(out);
            }
            Json::Array(out)
        },
        Opened::Object(members) => {
            let ghost model = members_held(members@);
            let mut rest = members;
            let mut back: Vec<(String, Json)> = Vec::new();
            assert(members_view(back@) =~= model.skip(model.len() as int).reverse());
            while rest.len() > 0
                invariant
                    whole == value_held(value),
                    whole == JsonView::Object(model),
                    rest@.len() <= model.len(),
                    members_held(rest@) == model.take(rest@.len() as int),
                    members_view(back@) == model.skip(rest@.len() as int).reverse(),
                decreases rest.len(),
            {
                let ghost n = rest@.len() - 1;
                let ghost before = rest@;
                let ghost done = members_view(back@);
                let (key, item) = rest.pop().unwrap();
                assert((key@, value_held(item)) == members_held(before)[n]);
                assert((key@, value_held(item)) == model[n]);
                assert(decreases_to!(whole => whole->Object_0[n].1));
                let held = hold(item);
                back.push((key, held));
                assert(members_held(rest@) =~= model.take(n));
                assert(members_view(back@) =~= done.push(model[n]));
                assert(done.push(model[n]) =~= model.skip(n).reverse());
            }
            assert(model.skip(0) =~= model);
            let mut out: Vec<(String, Json)> = Vec::new();
            assert(members_view(out@) =~= model.take(0));
            while back.len() > 0
                invariant
                    back@.len() <= model.len(),
                    members_view(back@) == model.skip(model.len() - back@.len()).reverse(),
                    members_view(out@) == model.take(model.len() - back@.len()),
                decreases back.len(),
            {
                let ghost n = model.len() - back@.len();
                let ghost before = members_view(back@);
                let ghost done = members_view(out@);
                let member = back.pop().unwrap();
                assert((member.0@, member.1@) == before.last());
                assert(before.last() == model[n]);
                out.push(member);
                assert(members_view(back@) =~= before.drop_last());
                assert(before.drop_last() =~= model.skip(n + 1).reverse());
                assert(members_view(out@) =~= done.push(model[n]));
                assert(done.push(model[n]) =~= model.take(n + 1));
            }
            assert(model.take(model.len() as int) =~= model);
            proof {
                object_view(out);
            }
            Json::Object(out)
        },
    }
}

/// A value as it is shown: laid out, or on one line where that fails.
pub open spec fn shown(value: JsonView) -> Seq<char> {
    match json_laid_out(value) {
        Ok(text) => text,
        Err(_) => json_written(value),
    }
}

/// Show a value.
pub fn show_value(value: &serde_json::Value) -> (out: String)
    ensures
        out@ == shown(value_held(*value)),
{
    match lay_out(value) {
        Ok(text) => text,
        Err(_) => write_value(value),
    }
}

/// What reading a text gave.
pub open spec fn read_view(r: Result<Json, String>) -> Result<JsonView, Seq<char>> {
    match r {
        Ok(v) => Ok(v@),
        Err(e) => Err(e@),
    }
}

/// Read a JSON text.
pub fn parse_json(text: &str) -> (r: Result<Json, String>)
    ensures
        read_view(r) == json_read(text@),
{
    match read_value(text) {
        Ok(value) => Ok(hold(value)),
        Err(e) => Err(e),
    }
}

/// Read a JSON text, and write it again on one line.
pub fn parse_and_write(text: &str) -> (r: Result<(Json, String), String>)
    ensures
        match r {
            Ok((v, line)) => json_read(text@) == Ok::<JsonView, Seq<char>>(v@) && line@
                == json_written(v@),
            Err(e) => json_read(text@) == Err::<JsonView, Seq<char>>(e@),
        },
{
    match read_value(text) {
        Ok(value) => {
            let line = write_value(&value);
            Ok((hold(value), line))
        },
        Err(e) => Err(e),
    }
}

} // verus!
