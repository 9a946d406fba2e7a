//! JSON values as plain data, read from and written to text by `serde_json`.

use vstd::prelude::*;

use crate::text::{is_white, lex_before, str_eq, trim, views};

verus! {

/// A JSON number: an integer that fits, or the decimal text of anything else.
#[derive(Debug, PartialEq)]
pub enum Number {
    /// A non-negative integer.
    Unsigned(u64),
    /// A negative integer.
    Negative(i64),
    /// Any other number, in the notation in which it is printed.
    Decimal(String),
}

/// A JSON value. The members of an object stand in ascending order of their names
/// when they come from text.
#[derive(Debug, PartialEq)]
pub enum Json {
    Null,
    Bool(bool),
    Number(Number),
    Text(String),
    Array(Vec<Json>),
    Object(Vec<(String, Json)>),
}

/// The mathematical value of a [`Number`].
pub enum NumberView {
    Unsigned(u64),
    Negative(i64),
    Decimal(Seq<char>),
}

/// The mathematical value of a [`Json`].
pub enum JsonView {
    Null,
    Bool(bool),
    Number(NumberView),
    Text(Seq<char>),
    Array(Seq<JsonView>),
    Object(Seq<(Seq<char>, JsonView)>),
}

impl View for Number {
    type V = NumberView;

    open spec fn view(&self) -> NumberView {
        match self {
            Number::Unsigned(n) => NumberView::Unsigned(*n),
            Number::Negative(n) => NumberView::Negative(*n),
            Number::Decimal(t) => NumberView::Decimal(t@),
        }
    }
}

/// The mathematical value of `j`.
pub open spec fn json_view(j: Json) -> JsonView
    decreases j,
{
    match j {
        Json::Null => JsonView::Null,
        Json::Bool(b) => JsonView::Bool(b),
        Json::Number(n) => JsonView::Number(n@),
        Json::Text(t) => JsonView::Text(t@),
        Json::Array(items) => JsonView::Array(
            Seq::new(
                items@.len(),
                |i: int|
                    if 0 <= i < items@.len() {
                        json_view(items@[i])
                    } else {
                        JsonView::Null
                    },
            ),
        ),
        Json::Object(members) => JsonView::Object(
            Seq::new(
                members@.len(),
                |i: int|
                    if 0 <= i < members@.len() {
                        (members@[i].0@, json_view(members@[i].1))
                    } else {
                        (Seq::<char>::empty(), JsonView::Null)
                    },
            ),
        ),
    }
}

impl View for Json {
    type V = JsonView;

    open spec fn view(&self) -> JsonView {
        json_view(*self)
    }
}

/// The values of a list.
pub open spec fn list_view(items: Seq<Json>) -> Seq<JsonView> {
    items.map_values(|j: Json| j@)
}

/// The named values of an object.
pub open spec fn members_view(members: Seq<(String, Json)>) -> Seq<(Seq<char>, JsonView)> {
    members.map_values(|m: (String, Json)| (m.0@, m.1@))
}

pub proof fn lemma_array_view(items: Vec<Json>)
    ensures
        Json::Array(items)@ == JsonView::Array(list_view(items@)),
{
    assert(Json::Array(items)@->Array_0 =~= list_view(items@));
}

pub proof fn lemma_object_view(members: Vec<(String, Json)>)
    ensures
        Json::Object(members)@ == JsonView::Object(members_view(members@)),
{
    assert(Json::Object(members)@->Object_0 =~= members_view(members@));
}

/// The value of the first member named `key`, if there is one.
pub open spec fn member(members: Seq<(Seq<char>, JsonView)>, key: Seq<char>) -> Option<JsonView>
    decreases members.len(),
{
    if members.len() == 0 {
        None
    } else if members[0].0 == key {
        Some(members[0].1)
    } else {
        member(members.skip(1), key)
    }
}

impl JsonView {
    /// The member of an object named `key`; nothing for any other value.
    pub open spec fn get(self, key: Seq<char>) -> Option<JsonView> {
        match self {
            JsonView::Object(members) => member(members, key),
            _ => None,
        }
    }

    /// The text of a string.
    pub open spec fn as_str(self) -> Option<Seq<char>> {
        match self {
            JsonView::Text(t) => Some(t),
            _ => None,
        }
    }

    /// The value of a non-negative integer that fits in 64 bits.
    pub open spec fn as_u64(self) -> Option<u64> {
        match self {
            JsonView::Number(NumberView::Unsigned(n)) => Some(n),
            _ => None,
        }
    }

    /// The items of an array.
    pub open spec fn as_array(self) -> Option<Seq<JsonView>> {
        match self {
            JsonView::Array(items) => Some(items),
            _ => None,
        }
    }

    /// The text of the member named `key`, if it is a string.
    pub open spec fn str_at(self, key: Seq<char>) -> Option<Seq<char>> {
        match self.get(key) {
            Some(v) => v.as_str(),
            None => None,
        }
    }

    /// The integer of the member named `key`, if it is one.
    pub open spec fn u64_at(self, key: Seq<char>) -> Option<u64> {
        match self.get(key) {
            Some(v) => v.as_u64(),
            None => None,
        }
    }

    /// The items of the member named `key`, if it is an array.
    pub open spec fn array_at(self, key: Seq<char>) -> Option<Seq<JsonView>> {
        match self.get(key) {
            Some(v) => v.as_array(),
            None => None,
        }
    }
}

/// The position of the first member named `key`.
fn find_member(members: &Vec<(String, Json)>, key: &str) -> (r: Option<usize>)
    ensures
        match r {
            Some(i) => i < members@.len() && member(members_view(members@), key@) == Some(
                members@[i as int].1@,
            ) && members@[i as int].0@ == key@,
            None => member(members_view(members@), key@) is None,
        },
{
    let ghost all = members_view(members@);
    let mut i: usize = 0;
    assert(all.skip(0) == all);
    while i < members.len()
        invariant
            all == members_view(members@),
            i <= members@.len(),
            member(all.skip(i as int), key@) == member(all, key@),
        decreases members@.len() - i,
    {
        let rest = Ghost(all.skip(i as int));
        assert(rest@[0] == all[i as int]);
        assert(rest@.skip(1) == all.skip(i + 1));
        if str_eq(members[i].0.as_str(), key) {
            return Some(i);
        }
        i = i + 1;
    }
    None
}

impl Json {
    /// The member of an object named `key`; nothing for any other value.
    pub fn get(&self, key: &str) -> (r: Option<&Json>)
        ensures
            match r {
                Some(j) => self@.get(key@) == Some(j@),
                None => self@.get(key@) is None,
            },
    {
        match self {
            Json::Object(members) => {
                proof {
                    lemma_object_view(*members);
                }
                match find_member(members, key) {
                    Some(i) => Some(&members[i].1),
                    None => None,
                }
            },
            _ => None,
        }
    }

    /// The text of a string.
    pub fn as_str(&self) -> (r: Option<&str>)
        ensures
            match r {
                Some(t) => self@.as_str() == Some(t@),
                None => self@.as_str() is None,
            },
    {
        match self {
            Json::Text(t) => Some(t.as_str()),
            _ => None,
        }
    }

    /// The value of a non-negative integer that fits in 64 bits.
    pub fn as_u64(&self) -> (r: Option<u64>)
        ensures
            r == self@.as_u64(),
    {
        match self {
            Json::Number(Number::Unsigned(n)) => Some(*n),
            _ => None,
        }
    }

    /// The value of a boolean.
    pub fn as_bool(&self) -> (r: Option<bool>)
        ensures
            r == match self@ {
                JsonView::Bool(b) => Some(b),
                _ => None,
            },
    {
        match self {
            Json::Bool(b) => Some(*b),
            _ => None,
        }
    }

    /// Whether this is `null`.
    pub fn is_null(&self) -> (r: bool)
        ensures
            r == (self@ is Null),
    {
        matches!(self, Json::Null)
    }

    /// Whether this is an object.
    pub fn is_object(&self) -> (r: bool)
        ensures
            r == (self@ is Object),
    {
        matches!(self, Json::Object(_))
    }

    /// The items of an array.
    pub fn as_array(&self) -> (r: Option<&Vec<Json>>)
        ensures
            match r {
                Some(items) => self@ == JsonView::Array(list_view(items@)),
                None => self@.as_array() is None,
            },
    {
        match self {
            Json::Array(items) => {
                proof {
                    lemma_array_view(*items);
                }
                Some(items)
            },
            _ => None,
        }
    }

    /// The text of the member named `key`, if it is a string.
    pub fn str_at(&self, key: &str) -> (r: Option<&str>)
        ensures
            match r {
                Some(t) => self@.str_at(key@) == Some(t@),
                None => self@.str_at(key@) is None,
            },
    {
        match self.get(key) {
            Some(v) => v.as_str(),
            None => None,
        }
    }

    /// The integer of the member named `key`, if it is one.
    pub fn u64_at(&self, key: &str) -> (r: Option<u64>)
        ensures
            r == self@.u64_at(key@),
    {
        match self.get(key) {
            Some(v) => v.as_u64(),
            None => None,
        }
    }

    /// An equal value.
    pub fn duplicate(&self) -> (r: Json)
        ensures
            r@ == self@,
        decreases self@,
    {
        match self {
            Json::Null => Json::Null,
            Json::Bool(b) => Json::Bool(*b),
            Json::Number(n) => Json::Number(duplicate_number(n)),
            Json::Text(t) => Json::Text(t.clone()),
            Json::Array(items) => {
                let mut out: Vec<Json> = Vec::new();
                let mut i: usize = 0;
                while i < items.len()
                    invariant
                        i <= items@.len(),
                        *self == Json::Array(*items),
                        list_view(out@) == list_view(items@).take(i as int),
                    decreases items@.len() - i,
                {
                    let ghost before = out@;
                    proof {
                        lemma_array_view(*items);
                        assert(self@->Array_0[i as int] == items@[i as int]@);
                        assert(decreases_to!(self@ => self@->Array_0[i as int]));
                    }
                    let item: Json = items[i].duplicate();
                    out.push(item);
                    i = i + 1;
                    assert(list_view(out@) == list_view(before).push(item@));
                }
                proof {
                    assert(list_view(items@).take(items@.len() as int) == list_view(items@));
                    lemma_array_view(*items);
                    lemma_array_view(out);
                }
                Json::Array(out)
            },
            Json::Object(members) => {
                let mut out: Vec<(String, Json)> = Vec::new();
                let mut i: usize = 0;
                while i < members.len()
                    invariant
                        i <= members@.len(),
                        *self == Json::Object(*members),
                        members_view(out@) == members_view(members@).take(i as int),
                    decreases members@.len() - i,
                {
                    let ghost before = out@;
                    proof {
                        lemma_object_view(*members);
                        assert(self@->Object_0[i as int].1 == members@[i as int].1@);
                        assert(decreases_to!(self@ => self@->Object_0[i as int].1));
                    }
                    let name: String = members[i].0.clone();
                    let value: Json = members[i].1.duplicate();
                    let ghost pair = (name@, value@);
                    out.push((name, value));
                    i = i + 1;
                    assert(members_view(out@) == members_view(before).push(pair));
                }
                proof {
                    assert(members_view(members@).take(members@.len() as int) == members_view(
                        members@,
                    ));
                    lemma_object_view(*members);
                    lemma_object_view(out);
                }
                Json::Object(out)
            },
        }
    }
}

fn duplicate_number(n: &Number) -> (r: Number)
    ensures
        r@ == n@,
{
    match n {
        Number::Unsigned(v) => Number::Unsigned(*v),
        Number::Negative(v) => Number::Negative(*v),
        Number::Decimal(t) => Number::Decimal(t.clone()),
    }
}

impl Clone for Json {
    fn clone(&self) -> (r: Json)
        ensures
            r@ == self@,
    {
        self.duplicate()
    }
}

/// The outside type of a parsed JSON value.
#[verifier::external_type_specification]
#[verifier::external_body]
pub struct ExValue(serde_json::Value);

/// The JSON value that a `serde_json::Value` holds.
pub uninterp spec fn value_json(v: serde_json::Value) -> JsonView;

/// What `serde_json::from_str` makes of a text: a value, or the message of its error.
pub uninterp spec fn json_parse(text: Seq<char>) -> Result<JsonView, Seq<char>>;

/// `text` is the JSON text of `v`.
pub open spec fn parses_to(text: Seq<char>, v: JsonView) -> bool {
    json_parse(text) == Ok::<JsonView, Seq<char>>(v)
}

/// `text` is no JSON text, for the reason `why`.
pub open spec fn parse_fails(text: Seq<char>, why: Seq<char>) -> bool {
    json_parse(text) == Err::<JsonView, Seq<char>>(why)
}

/// `text` is what `serde_json` prints for some number that is no 64-bit integer.
pub uninterp spec fn is_printed_decimal(text: Seq<char>) -> bool;

/// What `serde_json::to_string` makes of a value.
pub uninterp spec fn json_text(v: JsonView) -> Seq<char>;

/// One level of a `serde_json::Value`.
enum Parts {
    Null,
    Bool(bool),
    Number(Number),
    Text(String),
    Array(Vec<serde_json::Value>),
    Object(Vec<(String, serde_json::Value)>),
}

spec fn parts_json(p: Parts) -> JsonView {
    match p {
        Parts::Null => JsonView::Null,
        Parts::Bool(b) => JsonView::Bool(b),
        Parts::Number(n) => JsonView::Number(n@),
        Parts::Text(t) => JsonView::Text(t@),
        Parts::Array(items) => JsonView::Array(
            items@.map_values(|v: serde_json::Value| value_json(v)),
        ),
        Parts::Object(members) => JsonView::Object(
            members@.map_values(|m: (String, serde_json::Value)| (m.0@, value_json(m.1))),
        ),
    }
}

/// The variants of `serde_json::Value`, told apart: the parts are what the value
/// holds. The map of an object hands out its members in ascending order of their
/// names; a number that is no 64-bit integer is given as it is printed.
#[verifier::external_body]
fn take_apart(v: serde_json::Value) -> (p: Parts)
    ensures
        parts_json(p) == value_json(v),
        match p {
            Parts::Number(Number::Decimal(t)) => is_printed_decimal(t@),
            Parts::Number(Number::Negative(n)) => n < 0,
            Parts::Object(members) => names_ascend(entries_json(members@)),
            _ => true,
        },
{
    match v {
        serde_json::Value::Null => Parts::Null,
        serde_json::Value::Bool(b) => Parts::Bool(b),
        serde_json::Value::Number(n) => Parts::Number(match (n.as_u64(), n.as_i64()) {
            (Some(u), _) => Number::Unsigned(u),
            (None, Some(i)) => Number::Negative(i),
            (None, None) => Number::Decimal(n.to_string()),
        }),
        serde_json::Value::String(s) => Parts::Text(s),
        serde_json::Value::Array(a) => Parts::Array(a),
        serde_json::Value::Object(m) => Parts::Object(m.into_iter().collect()),
    }
}

/// The values that a list of `serde_json::Value` holds.
spec fn values_json(items: Seq<serde_json::Value>) -> Seq<JsonView> {
    items.map_values(|v: serde_json::Value| value_json(v))
}

/// The named values that a list of `serde_json` members holds.
spec fn entries_json(members: Seq<(String, serde_json::Value)>) -> Seq<(Seq<char>, JsonView)> {
    members.map_values(|m: (String, serde_json::Value)| (m.0@, value_json(m.1)))
}

fn json_of(v: serde_json::Value) -> (r: Json)
    ensures
        r@ == value_json(v),
        canonical(r@),
    decreases value_json(v),
{
    let ghost whole = value_json(v);
    match take_apart(v) {
        Parts::Null => Json::Null,
        Parts::Bool(b) => Json::Bool(b),
        Parts::Number(n) => Json::Number(n),
        Parts::Text(t) => Json::Text(t),
        Parts::Array(items) => {
            let ghost all = items@;
            let mut out: Vec<Json> = Vec::new();
            for item in it: items
                invariant
                    it.seq() == all,
                    whole == value_json(v),
                    whole == JsonView::Array(values_json(all)),
                    list_view(out@) == values_json(all).take(it.index() as int),
                    forall|i: int| 0 <= i < out@.len() ==> canonical((#[trigger] out@[i])@),
            {
                let ghost before = out@;
                let ghost at = it.index() as int;
                assert(whole->Array_0[at] == value_json(item));
                assert(decreases_to!(whole => whole->Array_0[at]));
                let j: Json = json_of(item);
                out.push(j);
                assert(list_view(out@) == list_view(before).push(j@));
            }
            proof {
                assert(values_json(all).take(all.len() as int) == values_json(all));
                lemma_array_view(out);
                assert forall|i: int| 0 <= i < whole->Array_0.len() implies canonical(
                    #[trigger] whole->Array_0[i],
                ) by {
                    assert(whole->Array_0[i] == out@[i]@);
                }
            }
            Json::Array(out)
        },
        Parts::Object(members) => {
            let ghost all = members@;
            let mut out: Vec<(String, Json)> = Vec::new();
            for m in it: members
                invariant
                    it.seq() == all,
                    whole == value_json(v),
                    whole == JsonView::Object(entries_json(all)),
                    names_ascend(entries_json(all)),
                    members_view(out@) == entries_json(all).take(it.index() as int),
                    forall|i: int| 0 <= i < out@.len() ==> canonical((#[trigger] out@[i]).1@),
            {
                let ghost before = out@;
                let ghost at = it.index() as int;
                let (name, value) = m;
                assert(whole->Object_0[at].1 == value_json(value));
                assert(decreases_to!(whole => whole->Object_0[at].1));
                let j: Json = json_of(value);
                let ghost pair = (name@, j@);
                out.push((name, j));
                assert(members_view(out@) == members_view(before).push(pair));
            }
            proof {
                assert(entries_json(all).take(all.len() as int) == entries_json(all));
                lemma_object_view(out);
                assert forall|i: int| 0 <= i < whole->Object_0.len() implies canonical(
                    (#[trigger] whole->Object_0[i]).1,
                ) by {
                    assert(whole->Object_0[i].1 == out@[i].1@);
                }
            }
            Json::Object(out)
        },
    }
}

/// The names of the members ascend strictly.
pub open spec fn names_ascend(members: Seq<(Seq<char>, JsonView)>) -> bool {
    forall|i: int, j: int|
        0 <= i < j < members.len() ==> lex_before(#[trigger] members[i].0, #[trigger] members[j].0)
}

/// Every object in `v` has its members in strictly ascending order of their names,
/// and every number is given in the one way in which it is printed.
pub open spec fn canonical(v: JsonView) -> bool
    decreases v,
{
    match v {
        JsonView::Array(items) => forall|i: int|
            0 <= i < items.len() ==> canonical(#[trigger] items[i]),
        JsonView::Object(members) => names_ascend(members) && forall|i: int|
            0 <= i < members.len() ==> canonical((#[trigger] members[i]).1),
        JsonView::Number(NumberView::Negative(n)) => n < 0,
        JsonView::Number(NumberView::Decimal(t)) => is_printed_decimal(t),
        _ => true,
    }
}

/// `serde_json::Value` of one level of parts. Where the members of an object ascend
/// in the order of their names, and a number is given as it is printed, the value
/// holds just those parts. Of an object with its members in another order nothing
/// is said: the map inside orders them, and keeps the last of those with equal
/// names. Nor is anything said of a decimal in a notation of another kind.
#[verifier::external_body]
fn put_together(p: Parts) -> (v: serde_json::Value)
    ensures
        (match parts_json(p) {
            JsonView::Object(members) => names_ascend(members),
            JsonView::Number(NumberView::Negative(n)) => n < 0,
            JsonView::Number(NumberView::Decimal(t)) => is_printed_decimal(t),
            _ => true,
        }) ==> value_json(v) == parts_json(p),
{
    match p {
        Parts::Null => serde_json::Value::Null,
        Parts::Bool(b) => serde_json::Value::Bool(b),
        Parts::Number(Number::Unsigned(n)) => serde_json::Value::from(n),
        Parts::Number(Number::Negative(n)) => serde_json::Value::from(n),
        Parts::Number(Number::Decimal(t)) => t.parse().map_or(
            serde_json::Value::Null,
            serde_json::Value::Number,
        ),
        Parts::Text(t) => serde_json::Value::String(t),
        Parts::Array(a) => serde_json::Value::Array(a),
        Parts::Object(m) => serde_json::Value::Object(m.into_iter().collect()),
    }
}

fn value_of(j: &Json) -> (v: serde_json::Value)
    ensures
        canonical(j@) ==> value_json(v) == j@,
    decreases j@,
{
    match j {
        Json::Null => put_together(Parts::Null),
        Json::Bool(b) => put_together(Parts::Bool(*b)),
        Json::Number(n) => put_together(Parts::Number(duplicate_number(n))),
        Json::Text(t) => put_together(Parts::Text(t.clone())),
        Json::Array(items) => {
            let mut out: Vec<serde_json::Value> = Vec::new();
            let mut i: usize = 0;
            while i < items.len()
                invariant
                    i <= items@.len(),
                    *j == Json::Array(*items),
                    out@.len() == i,
                    canonical(j@) ==> values_json(out@) == list_view(items@).take(i as int),
                decreases items@.len() - i,
            {
                let ghost before = out@;
                proof {
                    lemma_array_view(*items);
                    assert(j@->Array_0[i as int] == items@[i as int]@);
                    assert(decreases_to!(j@ => j@->Array_0[i as int]));
                }
                let v: serde_json::Value = value_of(&items[i]);
                out.push(v);
                i = i + 1;
                assert(values_json(out@) == values_json(before).push(value_json(v)));
            }
            proof {
                assert(list_view(items@).take(items@.len() as int) == list_view(items@));
                lemma_array_view(*items);
            }
            put_together(Parts::Array(out))
        },
        Json::Object(members) => {
            let mut out: Vec<(String, serde_json::Value)> = Vec::new();
            let mut i: usize = 0;
            while i < members.len()
                invariant
                    i <= members@.len(),
                    *j == Json::Object(*members),
                    out@.len() == i,
                    canonical(j@) ==> entries_json(out@) == members_view(members@).take(i as int),
                decreases members@.len() - i,
            {
                let ghost before = out@;
                proof {
                    lemma_object_view(*members);
                    assert(j@->Object_0[i as int].1 == members@[i as int].1@);
                    assert(decreases_to!(j@ => j@->Object_0[i as int].1));
                }
                let name: String = members[i].0.clone();
                let v: serde_json::Value = value_of(&members[i].1);
                let ghost pair = (name@, value_json(v));
                out.push((name, v));
                i = i + 1;
                assert(entries_json(out@) == entries_json(before).push(pair));
            }
            proof {
                assert(members_view(members@).take(members@.len() as int) == members_view(
                    members@,
                ));
                lemma_object_view(*members);
            }
            put_together(Parts::Object(out))
        },
    }
}

/// How deep arrays and objects may nest in a text for `serde_json` to read it.
pub const DEPTH_LIMIT: u8 = 127;

/// Arrays and objects nest in `v` no deeper than `limit`.
pub open spec fn depth_within(v: JsonView, limit: nat) -> bool
    decreases limit,
{
    match v {
        JsonView::Array(items) => limit > 0 && forall|i: int|
            0 <= i < items.len() ==> depth_within(#[trigger] items[i], (limit - 1) as nat),
        JsonView::Object(members) => limit > 0 && forall|i: int|
            0 <= i < members.len() ==> depth_within(
                (#[trigger] members[i]).1,
                (limit - 1) as nat,
            ),
        _ => true,
    }
}

/// `serde_json::from_str`: the value of a JSON text, or the message of the error.
/// What it makes of a given text is left to its name; arrays and objects nest in it no
/// deeper than the parser allows.
#[verifier::external_body]
fn read_value(text: &str) -> (r: Result<serde_json::Value, String>)
    ensures
        match r {
            Ok(v) => json_parse(text@) is Ok && json_parse(text@)->Ok_0 == value_json(v)
                && depth_within(value_json(v), DEPTH_LIMIT as nat),
            Err(e) => json_parse(text@) is Err && json_parse(text@)->Err_0 == e@,
        },
{
    serde_json::from_str(text).map_err(|e: serde_json::Error| e.to_string())
}

/// `serde_json::Value::to_string`: the compact text of a value. It has no line break in
/// it, and starts with a character of the value, no white space. The text of a value that
/// nests no deeper than the parser allows is read back as that value.
#[verifier::external_body]
fn write_value(v: &serde_json::Value) -> (text: String)
    ensures
        text@ == json_text(value_json(*v)),
        !text@.contains('\n'),
        text@.len() > 0 && !is_white(text@[0]),
        canonical(value_json(*v)) && depth_within(value_json(*v), DEPTH_LIMIT as nat) ==> parses_to(
            text@,
            value_json(*v),
        ),
{
    v.to_string()
}

/// The value of a JSON text, or the reason why it is none.
pub fn parse_json(text: &str) -> (r: Result<Json, String>)
    ensures
        match r {
            Ok(j) => parses_to(text@, j@) && canonical(j@) && depth_within(
                j@,
                DEPTH_LIMIT as nat,
            ),
            Err(e) => parse_fails(text@, e@),
        },
{
    match read_value(text) {
        Ok(v) => Ok(json_of(v)),
        Err(e) => Err(e),
    }
}

/// The view of a parse.
pub open spec fn parse_view(r: Result<Json, String>) -> Result<JsonView, Seq<char>> {
    match r {
        Ok(j) => Ok(j@),
        Err(e) => Err(e@),
    }
}

/// The compact text of a value.
pub fn render_json(j: &Json) -> (text: String)
    ensures
        !text@.contains('\n'),
        trim(text@).len() > 0,
        canonical(j@) ==> text@ == json_text(j@),
        canonical(j@) && depth_within(j@, DEPTH_LIMIT as nat) ==> parses_to(text@, j@),
{
    let text: String = write_value(&value_of(j));
    proof {
        crate::text::lemma_trim_keeps(text@);
    }
    text
}

/// A record as an object of its fields. An array stands for the fields in their order,
/// where it has no fewer than `least` and no more than there are.
pub open spec fn as_record(j: JsonView, names: Seq<Seq<char>>, least: nat) -> JsonView {
    match j {
        JsonView::Array(items) => if least <= items.len() <= names.len() {
            JsonView::Object(Seq::new(items.len(), |i: int| (names[i], items[i])))
        } else {
            JsonView::Null
        },
        other => other,
    }
}

/// The record that an array stands for, with fields of these names in their order; nothing
/// for any other value, which is the record itself.
pub fn record_of_array(j: &Json, names: &Vec<String>, least: usize) -> (r: Option<Json>)
    ensures
        match r {
            Some(x) => x@ == as_record(j@, views(names@), least as nat),
            None => as_record(j@, views(names@), least as nat) == j@,
        },
{
    match j {
        Json::Array(items) => {
            proof {
                lemma_array_view(*items);
            }
            if items.len() < least || items.len() > names.len() {
                return Some(Json::Null);
            }
            let mut members: Vec<(String, Json)> = Vec::new();
            let ghost all = list_view(items@);
            let ghost goal = Seq::new(all.len(), |i: int| (views(names@)[i], all[i]));
            let mut i: usize = 0;
            while i < items.len()
                invariant
                    i <= items@.len() <= names@.len(),
                    all == list_view(items@),
                    goal == Seq::new(all.len(), |i: int| (views(names@)[i], all[i])),
                    members_view(members@) == goal.take(i as int),
                decreases items@.len() - i,
            {
                let ghost before = members@;
                let value: Json = items[i].duplicate();
                let ghost pair = (names@[i as int]@, value@);
                members.push((names[i].as_str().to_owned(), value));
                proof {
                    assert(members_view(members@) == members_view(before).push(pair));
                    assert(goal[i as int] == pair);
                    assert(goal.take(i + 1) == goal.take(i as int).push(pair));
                }
                i = i + 1;
            }
            proof {
                assert(goal.take(goal.len() as int) == goal);
                lemma_object_view(members);
            }
            Some(Json::Object(members))
        },
        _ => None,
    }
}

/// A member of an object is the first of its name, and is found where there is one.
pub proof fn law_members_are_found_by_name(members: Seq<(Seq<char>, JsonView)>, key: Seq<char>, i: int)
    ensures
        0 <= i < members.len() && members[i].0 == key && (forall|k: int|
            0 <= k < i ==> (#[trigger] members[k]).0 != key) ==> JsonView::Object(members).get(key)
            == Some(members[i].1),
        (forall|k: int| 0 <= k < members.len() ==> (#[trigger] members[k]).0 != key)
            ==> JsonView::Object(members).get(key) is None,
    decreases members.len(),
{
    if members.len() > 0 {
        let rest = members.skip(1);
        law_members_are_found_by_name(rest, key, i - 1);
        if forall|k: int| 0 <= k < members.len() ==> (#[trigger] members[k]).0 != key {
            assert(members[0].0 != key);
            assert forall|k: int| 0 <= k < rest.len() implies (#[trigger] rest[k]).0 != key by {
                assert(rest[k] == members[k + 1]);
            }
        }
        if 0 < i < members.len() && members[i].0 == key && forall|k: int|
            0 <= k < i ==> (#[trigger] members[k]).0 != key {
            assert(members[0].0 != key);
            assert(rest[i - 1] == members[i]);
            assert forall|k: int| 0 <= k < i - 1 implies (#[trigger] rest[k]).0 != key by {
                assert(rest[k] == members[k + 1]);
            }
        }
    }
}

/// A value is read as what it is, and as nothing else.
pub proof fn law_values_are_read_as_what_they_are(
    j: &Json,
    text: Option<&str>,
    number: Option<u64>,
    flag: Option<bool>,
    null: bool,
    object: bool,
)
    requires
        call_ensures(Json::as_str, (j,), text),
        call_ensures(Json::as_u64, (j,), number),
        call_ensures(Json::as_bool, (j,), flag),
        call_ensures(Json::is_null, (j,), null),
        call_ensures(Json::is_object, (j,), object),
    ensures
        j@ matches JsonView::Text(t) ==> text is Some && text->0@ == t,
        text is Some ==> j@ == JsonView::Text(text->0@),
        number matches Some(n) ==> j@ == JsonView::Number(NumberView::Unsigned(n)),
        j@ matches JsonView::Number(NumberView::Unsigned(n)) ==> number == Some(n),
        j@ matches JsonView::Bool(b) ==> flag == Some(b),
        flag matches Some(b) ==> j@ == JsonView::Bool(b),
        null <==> j@ == JsonView::Null,
        object <==> exists|m: Seq<(Seq<char>, JsonView)>| j@ == JsonView::Object(m),
{
}

/// A record that stands as an array has its fields by position, each under its name; one
/// with too few or too many is none.
pub proof fn law_arrays_are_records_by_position(
    j: &Json,
    names: &Vec<String>,
    least: usize,
    r: Option<Json>,
    items: Seq<JsonView>,
    i: int,
)
    requires
        call_ensures(record_of_array, (j, names, least), r),
        j@ == JsonView::Array(items),
        views(names@).no_duplicates(),
    ensures
        r is Some,
        least <= items.len() <= names@.len() && 0 <= i < items.len() ==> r->0@.get(names@[i]@)
            == Some(items[i]),
        least <= items.len() <= names@.len() && items.len() <= i < names@.len() ==> r->0@.get(
            names@[i]@,
        ) is None,
        items.len() < least || items.len() > names@.len() ==> r->0@ is Null,
{
    if least <= items.len() <= names@.len() && 0 <= i < names@.len() {
        let v = views(names@);
        let m = r->0@->Object_0;
        assert forall|k: int| 0 <= k < m.len() && k != i implies (#[trigger] m[k]).0 != v[i] by {
            assert(m[k].0 == v[k]);
        }
        law_members_are_found_by_name(m, v[i], i);
        assert(v[i] == names@[i]@);
    }
}


} // verus!
