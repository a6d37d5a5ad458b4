//! JSON values as the tools read and build them.
use vstd::prelude::*;
use crate::text::same;

verus! {

/// A JSON number. One with a fraction or an exponent, or too large for 64 bits,
/// is kept as it is written.
#[derive(Debug)]
pub enum JsonNumber {
    Positive(u64),
    Negative(i64),
    Decimal(String),
}

/// What a [`JsonNumber`] is.
#[verifier::ext_equal]
pub enum NumberView {
    Positive(u64),
    Negative(i64),
    Decimal(Seq<char>),
}

impl View for JsonNumber {
    type V = NumberView;

    open spec fn view(&self) -> NumberView {
        match *self {
            JsonNumber::Positive(n) => NumberView::Positive(n),
            JsonNumber::Negative(n) => NumberView::Negative(n),
            JsonNumber::Decimal(s) => NumberView::Decimal(s@),
        }
    }
}

/// A JSON value. An object's members keep their order, and no two have the same key.
#[derive(Debug)]
pub enum Json {
    Null,
    Bool(bool),
    Number(JsonNumber),
    Text(String),
    Array(Vec<Json>),
    Object(Vec<(String, Json)>),
}

/// What a [`Json`] value is.
#[verifier::ext_equal]
pub enum JsonView {
    Null,
    Bool(bool),
    Number(NumberView),
    Text(Seq<char>),
    Array(Seq<JsonView>),
    Object(Seq<(Seq<char>, JsonView)>),
}

impl Json {
    /// What the value is.
    pub open spec fn model(self) -> JsonView
        decreases self,
    {
        match self {
            Json::Null => JsonView::Null,
            Json::Bool(b) => JsonView::Bool(b),
            Json::Number(n) => JsonView::Number(n@),
            Json::Text(s) => JsonView::Text(s@),
            Json::Array(items) => JsonView::Array(
                Seq::new(
                    items@.len(),
                    |i: int|
                        if 0 <= i < items@.len() {
                            items@[i].model()
                        } else {
                            JsonView::Null
                        },
                ),
            ),
            Json::Object(members) => JsonView::Object(
                Seq::new(
                    members@.len(),
                    |i: int|
                        if 0 <= i < members@.len() {
                            (members@[i].0@, members@[i].1.model())
                        } else {
                            (seq![], JsonView::Null)
                        },
                ),
            ),
        }
    }
}

impl View for Json {
    type V = JsonView;

    open spec fn view(&self) -> JsonView {
        self.model()
    }
}

/// The value of the first member of an object that has the key.
pub open spec fn member_from(
    members: Seq<(Seq<char>, JsonView)>,
    key: Seq<char>,
    from: int,
) -> Option<JsonView>
    decreases members.len() - from,
{
    if from < 0 || from >= members.len() {
        None
    } else if members[from].0 == key {
        Some(members[from].1)
    } else {
        member_from(members, key, from + 1)
    }
}

impl JsonView {
    /// The member of an object with the key; none where there is no such
    /// member, or the value is no object.
    pub open spec fn get(self, key: Seq<char>) -> Option<JsonView> {
        match self {
            JsonView::Object(members) => member_from(members, key, 0),
            _ => None,
        }
    }

    /// The text of a string.
    pub open spec fn text(self) -> Option<Seq<char>> {
        match self {
            JsonView::Text(s) => Some(s),
            _ => None,
        }
    }

    /// The boolean.
    pub open spec fn boolean(self) -> Option<bool> {
        match self {
            JsonView::Bool(b) => Some(b),
            _ => None,
        }
    }

    /// The number, where it is a whole one that is not negative.
    pub open spec fn unsigned(self) -> Option<u64> {
        match self {
            JsonView::Number(NumberView::Positive(n)) => Some(n),
            _ => None,
        }
    }

    /// The number, where it is a whole one that fits.
    pub open spec fn signed(self) -> Option<i64> {
        match self {
            JsonView::Number(NumberView::Positive(n)) => if n <= i64::MAX {
                Some(n as i64)
            } else {
                None
            },
            JsonView::Number(NumberView::Negative(n)) => Some(n),
            _ => None,
        }
    }

    /// The text of the member with the key.
    pub open spec fn text_of(self, key: Seq<char>) -> Option<Seq<char>> {
        match self.get(key) {
            Some(v) => v.text(),
            None => None,
        }
    }

    /// The number of the member with the key, where it is a whole one that is
    /// not negative.
    pub open spec fn unsigned_of(self, key: Seq<char>) -> Option<u64> {
        match self.get(key) {
            Some(v) => v.unsigned(),
            None => None,
        }
    }

    /// The number of the member with the key, where it is a whole one that fits.
    pub open spec fn signed_of(self, key: Seq<char>) -> Option<i64> {
        match self.get(key) {
            Some(v) => v.signed(),
            None => None,
        }
    }
}

/// What an optional value is.
pub open spec fn opt_json(v: Option<Json>) -> Option<JsonView> {
    match v {
        Some(j) => Some(j@),
        None => None,
    }
}

/// What the members of an object are.
pub open spec fn members_view(members: Seq<(String, Json)>) -> Seq<(Seq<char>, JsonView)> {
    Seq::new(members.len(), |i: int| (members[i].0@, members[i].1@))
}

/// What the items of an array are.
pub open spec fn items_view(items: Seq<Json>) -> Seq<JsonView> {
    Seq::new(items.len(), |i: int| items[i]@)
}

pub proof fn object_view(members: Vec<(String, Json)>)
    ensures
        Json::Object(members)@ == JsonView::Object(members_view(members@)),
{
    let j = Json::Object(members);
    assert(j@->Object_0 =~= members_view(members@));
}

pub proof fn array_view(items: Vec<Json>)
    ensures
        Json::Array(items)@ == JsonView::Array(items_view(items@)),
{
    let j = Json::Array(items);
    assert(j@->Array_0 =~= items_view(items@));
}

impl JsonNumber {
    pub fn copy(&self) -> (n: JsonNumber)
        ensures
            n@ == self@,
    {
        match self {
            JsonNumber::Positive(n) => JsonNumber::Positive(*n),
            JsonNumber::Negative(n) => JsonNumber::Negative(*n),
            JsonNumber::Decimal(s) => JsonNumber::Decimal(s.clone()),
        }
    }
}

impl Json {
    /// The same value once more.
    pub fn copy(&self) -> (out: Json)
        ensures
            out@ == self@,
        decreases *self,
    {
        match self {
            Json::Null => Json::Null,
            Json::Bool(b) => Json::Bool(*b),
            Json::Number(n) => Json::Number(n.copy()),
            Json::Text(s) => Json::Text(s.clone()),
            Json::Array(items) => {
                let mut out: Vec<Json> = Vec::new();
                let mut i: usize = 0;
                while i < items.len()
                    invariant
                        i <= items@.len(),
                        *self == Json::Array(*items),
                        out@.len() == i,
                        forall|k: int| 0 <= k < i ==> (#[trigger] out@[k])@ == items@[k]@,
                    decreases items.len() - i,
                {
                    assert(decreases_to!(*self => self->Array_0@[i as int]));
                    let item = items[i].copy();
                    out.push(item);
                    i += 1;
                }
                proof {
                    array_view(out);
                    array_view(*items);
                    assert(items_view(out@) =~= items_view(items@));
                }
                Json::Array(out)
            },
            Json::Object(members) => {
                let mut out: Vec<(String, Json)> = Vec::new();
                let mut i: usize = 0;
                while i < members.len()
                    invariant
                        i <= members@.len(),
                        *self == Json::Object(*members),
                        out@.len() == i,
                        forall|k: int|
                            0 <= k < i ==> (#[trigger] out@[k]).0@ == members@[k].0@ && out@[k].1@
                                == members@[k].1@,
                    decreases members.len() - i,
                {
                    assert(decreases_to!(*self => self->Object_0@[i as int].1));
                    let value = members[i].1.copy();
                    out.push((members[i].0.clone(), value));
                    i += 1;
                }
                proof {
                    object_view(out);
                    object_view(*members);
                    assert(members_view(out@) =~= members_view(members@));
                }
                Json::Object(out)
            },
        }
    }

    /// The member of an object with the key.
    pub fn get(&self, key: &str) -> (r: Option<&Json>)
        ensures
            match r {
                Some(v) => self@.get(key@) == Some(v@),
                None => self@.get(key@) is None,
            },
    {
        match self {
            Json::Object(members) => {
                let ghost model = members_view(members@);
                proof {
                    object_view(*members);
                }
                let mut i: usize = 0;
                while i < members.len()
                    invariant
                        i <= members@.len(),
                        model == members_view(members@),
                        self@ == JsonView::Object(model),
                        member_from(model, key@, 0) == member_from(model, key@, i as int),
                    decreases members.len() - i,
                {
                    assert(model[i as int] == (members@[i as int].0@, members@[i as int].1@));
                    if same(&members[i].0, key) {
                        return Some(&members[i].1);
                    }
                    i += 1;
                }
                None
            },
            _ => None,
        }
    }

    /// The text of a string.
    pub fn as_str(&self) -> (r: Option<&str>)
        ensures
            match r {
                Some(s) => self@.text() == Some(s@),
                None => self@.text() is None,
            },
    {
        match self {
            Json::Text(s) => Some(s.as_str()),
            _ => None,
        }
    }

    /// The boolean.
    pub fn as_bool(&self) -> (r: Option<bool>)
        ensures
            r == self@.boolean(),
    {
        match self {
            Json::Bool(b) => Some(*b),
            _ => None,
        }
    }

    /// The number, where it is a whole one that is not negative.
    pub fn as_u64(&self) -> (r: Option<u64>)
        ensures
            r == self@.unsigned(),
    {
        match self {
            Json::Number(JsonNumber::Positive(n)) => Some(*n),
            _ => None,
        }
    }

    /// The number, where it is a whole one that fits.
    pub fn as_i64(&self) -> (r: Option<i64>)
        ensures
            r == self@.signed(),
    {
        match self {
            Json::Number(JsonNumber::Positive(n)) => if *n <= 0x7fff_ffff_ffff_ffff {
                Some(*n as i64)
            } else {
                None
            },
            Json::Number(JsonNumber::Negative(n)) => Some(*n),
            _ => None,
        }
    }

    /// Whether the value is `null`.
    pub fn is_null(&self) -> (r: bool)
        ensures
            r == (self@ is Null),
    {
        match self {
            Json::Null => true,
            _ => false,
        }
    }

    /// The text of the member with the key.
    pub fn text_of(&self, key: &str) -> (r: Option<String>)
        ensures
            crate::text::opt_view(r) == self@.text_of(key@),
    {
        match self.get(key) {
            Some(v) => match v.as_str() {
                Some(s) => Some(s.to_string()),
                None => None,
            },
            None => None,
        }
    }

    /// The number of the member with the key, where it is a whole one that is
    /// not negative.
    pub fn unsigned_of(&self, key: &str) -> (r: Option<u64>)
        ensures
            r == self@.unsigned_of(key@),
    {
        match self.get(key) {
            Some(v) => v.as_u64(),
            None => None,
        }
    }

    /// The number of the member with the key, where it is a whole one that fits.
    pub fn signed_of(&self, key: &str) -> (r: Option<i64>)
        ensures
            r == self@.signed_of(key@),
    {
        match self.get(key) {
            Some(v) => v.as_i64(),
            None => None,
        }
    }
}

// ---------------------------------------------------------------------------
// Building values
// ---------------------------------------------------------------------------

/// An integer as JSON.
pub open spec fn integer_json(n: int) -> JsonView {
    if n >= 0 {
        JsonView::Number(NumberView::Positive(n as u64))
    } else {
        JsonView::Number(NumberView::Negative(n as i64))
    }
}

/// An integer as JSON.
pub fn integer(n: i64) -> (out: Json)
    ensures
        out@ == integer_json(n as int),
{
    if n >= 0 {
        Json::Number(JsonNumber::Positive(n as u64))
    } else {
        Json::Number(JsonNumber::Negative(n))
    }
}

/// A whole number as JSON.
pub fn whole(n: u64) -> (out: Json)
    ensures
        out@ == integer_json(n as int),
{
    Json::Number(JsonNumber::Positive(n))
}

/// A text as JSON.
pub fn text(s: &str) -> (out: Json)
    ensures
        out@ == JsonView::Text(s@),
{
    Json::Text(s.to_string())
}

/// One more member.
pub fn put(members: &mut Vec<(String, Json)>, key: &str, value: Json)
    ensures
        members_view(final(members)@) == members_view(old(members)@).push((key@, value@)),
{
    members.push((key.to_string(), value));
    assert(members_view(members@) =~= members_view(old(members)@).push((key@, value@)));
}

/// No member yet.
pub fn no_members() -> (members: Vec<(String, Json)>)
    ensures
        members_view(members@) == Seq::<(Seq<char>, JsonView)>::empty(),
{
    let members: Vec<(String, Json)> = Vec::new();
    assert(members_view(members@) =~= Seq::<(Seq<char>, JsonView)>::empty());
    members
}

/// The object with the members.
pub fn object(members: Vec<(String, Json)>) -> (out: Json)
    ensures
        out@ == JsonView::Object(members_view(members@)),
{
    proof {
        object_view(members);
    }
    Json::Object(members)
}

/// The array of two items.
pub fn pair(a: Json, b: Json) -> (out: Json)
    ensures
        out@ == JsonView::Array(seq![a@, b@]),
{
    let mut items: Vec<Json> = Vec::new();
    items.push(a);
    items.push(b);
    proof {
        array_view(items);
        assert(items_view(items@) =~= seq![a@, b@]);
    }
    Json::Array(items)
}

proof fn member_is(members: Seq<(Seq<char>, JsonView)>, key: Seq<char>, from: int, k: int)
    requires
        0 <= from <= k < members.len(),
        members[k].0 == key,
        forall|j: int| 0 <= j < k ==> (#[trigger] members[j]).0 != key,
    ensures
        member_from(members, key, from) == Some(members[k].1),
    decreases k - from,
{
    if from < k {
        assert(members[from].0 != key);
        member_is(members, key, from + 1, k);
    }
}

proof fn no_member_is(members: Seq<(Seq<char>, JsonView)>, key: Seq<char>, from: int)
    requires
        0 <= from,
        forall|j: int| 0 <= j < members.len() ==> (#[trigger] members[j]).0 != key,
    ensures
        member_from(members, key, from) is None,
    decreases members.len() - from,
{
    if from < members.len() {
        assert(members[from].0 != key);
        no_member_is(members, key, from + 1);
    }
}

/// A member is read by its key: the first that has it, and none where none has.
pub proof fn a_member_is_read_by_its_key(
    members: Seq<(Seq<char>, JsonView)>,
    key: Seq<char>,
    k: int,
)
    ensures
        0 <= k < members.len() && members[k].0 == key && (forall|j: int|
            0 <= j < k ==> (#[trigger] members[j]).0 != key) ==> JsonView::Object(members).get(key)
            == Some(members[k].1),
        (forall|j: int| 0 <= j < members.len() ==> (#[trigger] members[j]).0 != key)
            ==> JsonView::Object(members).get(key) is None,
{
    if 0 <= k < members.len() && members[k].0 == key && (forall|j: int|
        0 <= j < k ==> (#[trigger] members[j]).0 != key) {
        member_is(members, key, 0, k);
    }
    if forall|j: int| 0 <= j < members.len() ==> (#[trigger] members[j]).0 != key {
        no_member_is(members, key, 0);
    }
}

/// A whole number that fits reads back as itself.
pub proof fn a_whole_number_reads_back(n: int)
    ensures
        0 <= n <= u64::MAX ==> integer_json(n).unsigned() == Some(n as u64),
        i64::MIN <= n <= i64::MAX ==> integer_json(n).signed() == Some(n as i64),
        i64::MIN <= n < 0 ==> integer_json(n).unsigned() is None,
{
}

} // verus!
