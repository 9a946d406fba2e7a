//! One input line as an item: the OpenAI Batch line, with Bedrock's name for the id
//! accepted too.

use vstd::prelude::*;

use crate::error::{error_text, ForgeError};
use crate::json::{
    as_record, json_parse, parse_json, parse_view, record_of_array, Json, JsonView, Number,
    NumberView,
};
use crate::state::{state_token, ItemState};
use crate::text::{chars_of, concat3, quote, quoted, views};
use crate::types::{default_method, Item, ItemView};

verus! {

/// A character that an id may have.
pub open spec fn id_char(c: char) -> bool {
    ||| ('a' <= c && c <= 'z')
    ||| ('A' <= c && c <= 'Z')
    ||| ('0' <= c && c <= '9')
    ||| c == '-'
    ||| c == '_'
}

/// A valid id: one to sixty-four letters, digits, dashes and underscores.
pub open spec fn valid_id(id: Seq<char>) -> bool {
    &&& 1 <= id.len() <= 64
    &&& forall|i: int| 0 <= i < id.len() ==> id_char(#[trigger] id[i])
}

/// Whether `id` is one to sixty-four letters, digits, dashes and underscores, so that a
/// file from a closed batch API ingests unchanged.
pub fn valid_custom_id(id: &str) -> (r: bool)
    ensures
        r == valid_id(id@),
{
    let cs: Vec<char> = chars_of(id);
    if cs.len() < 1 || cs.len() > 64 {
        return false;
    }
    let mut i: usize = 0;
    while i < cs.len()
        invariant
            i <= cs@.len(),
            cs@ == id@,
            forall|j: int| 0 <= j < i ==> id_char(#[trigger] id@[j]),
        decreases cs@.len() - i,
    {
        let c: char = cs[i];
        if !(('a' <= c && c <= 'z') || ('A' <= c && c <= 'Z') || ('0' <= c && c <= '9') || c == '-'
            || c == '_') {
            assert(!id_char(id@[i as int]));
            return false;
        }
        i = i + 1;
    }
    true
}

/// The text of a member that may be missing; `Err` where it is there and no string.
pub open spec fn text_or(j: JsonView, key: Seq<char>, default: Seq<char>) -> Result<Seq<char>, ()> {
    match j.get(key) {
        None => Ok(default),
        Some(JsonView::Text(t)) => Ok(t),
        Some(_) => Err(()),
    }
}

/// The text of a member that may be missing or null; `Err` where it is anything else
/// than a string.
pub open spec fn opt_text(j: JsonView, key: Seq<char>) -> Result<Option<Seq<char>>, ()> {
    match j.get(key) {
        None => Ok(None),
        Some(JsonView::Null) => Ok(None),
        Some(JsonView::Text(t)) => Ok(Some(t)),
        Some(_) => Err(()),
    }
}

/// The integer of a member that may be missing or null, if it fits in 64 bits with a
/// sign.
pub open spec fn opt_int(j: JsonView, key: Seq<char>) -> Result<Option<i64>, ()> {
    match j.get(key) {
        None => Ok(None),
        Some(JsonView::Null) => Ok(None),
        Some(JsonView::Number(NumberView::Unsigned(n))) => if n <= i64::MAX {
            Ok(Some(n as i64))
        } else {
            Err(())
        },
        Some(JsonView::Number(NumberView::Negative(n))) => Ok(Some(n)),
        Some(_) => Err(()),
    }
}

/// The count of a member that may be missing, if it fits in 32 bits.
pub open spec fn count_or_zero(j: JsonView, key: Seq<char>) -> Result<u32, ()> {
    match j.get(key) {
        None => Ok(0),
        Some(JsonView::Number(NumberView::Unsigned(n))) => if n <= u32::MAX {
            Ok(n as u32)
        } else {
            Err(())
        },
        Some(_) => Err(()),
    }
}

/// The state of a member that may be missing.
pub open spec fn state_or_pending(j: JsonView, key: Seq<char>) -> Result<ItemState, ()> {
    match j.get(key) {
        None => Ok(ItemState::Pending),
        Some(JsonView::Text(t)) => if t == state_token(ItemState::Pending) {
            Ok(ItemState::Pending)
        } else if t == state_token(ItemState::Leased) {
            Ok(ItemState::Leased)
        } else if t == state_token(ItemState::Done) {
            Ok(ItemState::Done)
        } else if t == state_token(ItemState::DeadLetter) {
            Ok(ItemState::DeadLetter)
        } else {
            Err(())
        },
        Some(_) => Err(()),
    }
}

/// The id of a line: its `custom_id`, or its `recordId` where it has no other. A line
/// with both has none.
pub open spec fn line_id(j: JsonView) -> Option<Seq<char>> {
    match (j.get("custom_id"@), j.get("recordId"@)) {
        (Some(JsonView::Text(t)), None) => Some(t),
        (None, Some(JsonView::Text(t))) => Some(t),
        _ => None,
    }
}

/// The fields of an item, in their order.
pub open spec fn item_names() -> Seq<Seq<char>> {
    seq![
        "custom_id"@,
        "method"@,
        "url"@,
        "body"@,
        "status"@,
        "attempts"@,
        "leased_until"@,
        "leased_by"@,
        "last_error"@,
    ]
}

fn item_names_list() -> (r: Vec<String>)
    ensures
        views(r@) == item_names(),
{
    let r: Vec<String> = vec![
        "custom_id".to_owned(),
        "method".to_owned(),
        "url".to_owned(),
        "body".to_owned(),
        "status".to_owned(),
        "attempts".to_owned(),
        "leased_until".to_owned(),
        "leased_by".to_owned(),
        "last_error".to_owned(),
    ];
    assert(views(r@) == item_names());
    r
}

/// The item that a JSON value describes: an object, or an array of the fields in their
/// order, of which those behind the body may be missing.
pub open spec fn item_of(j: JsonView) -> Option<ItemView> {
    item_in(as_record(j, item_names(), 4))
}

/// The item that a JSON object describes. The id and the body must be there; the other
/// fields default, but must have their type where they are there. Other members are
/// ignored.
pub open spec fn item_in(j: JsonView) -> Option<ItemView> {
    match (
        line_id(j),
        text_or(j, "method"@, "POST"@),
        text_or(j, "url"@, ""@),
        j.get("body"@),
        state_or_pending(j, "status"@),
        count_or_zero(j, "attempts"@),
        opt_int(j, "leased_until"@),
        opt_text(j, "leased_by"@),
        opt_text(j, "last_error"@),
    ) {
        (
            Some(custom_id),
            Ok(method),
            Ok(url),
            Some(body),
            Ok(status),
            Ok(attempts),
            Ok(leased_until),
            Ok(leased_by),
            Ok(last_error),
        ) => Some(
            ItemView {
                custom_id,
                method,
                url,
                body,
                status,
                attempts,
                leased_until,
                leased_by,
                last_error,
            },
        ),
        _ => None,
    }
}

fn read_text_or(j: &Json, key: &str, default: &str) -> (r: Result<String, ()>)
    ensures
        match r {
            Ok(t) => text_or(j@, key@, default@) == Ok::<Seq<char>, ()>(t@),
            Err(_) => text_or(j@, key@, default@) is Err,
        },
{
    match j.get(key) {
        None => Ok(default.to_owned()),
        Some(v) => match v.as_str() {
            Some(t) => Ok(t.to_owned()),
            None => Err(()),
        },
    }
}

fn read_opt_text(j: &Json, key: &str) -> (r: Result<Option<String>, ()>)
    ensures
        match r {
            Ok(t) => opt_text(j@, key@) == Ok::<Option<Seq<char>>, ()>(crate::text::opt_view(t)),
            Err(_) => opt_text(j@, key@) is Err,
        },
{
    match j.get(key) {
        None => Ok(None),
        Some(v) => {
            if v.is_null() {
                return Ok(None);
            }
            match v.as_str() {
                Some(t) => Ok(Some(t.to_owned())),
                None => Err(()),
            }
        },
    }
}

fn read_opt_int(j: &Json, key: &str) -> (r: Result<Option<i64>, ()>)
    ensures
        r == opt_int(j@, key@),
{
    match j.get(key) {
        None => Ok(None),
        Some(v) => match v {
            Json::Null => Ok(None),
            Json::Number(Number::Unsigned(n)) => {
                if *n <= 0x7fff_ffff_ffff_ffff {
                    Ok(Some(*n as i64))
                } else {
                    Err(())
                }
            },
            Json::Number(Number::Negative(n)) => Ok(Some(*n)),
            _ => Err(()),
        },
    }
}

fn read_count(j: &Json, key: &str) -> (r: Result<u32, ()>)
    ensures
        r == count_or_zero(j@, key@),
{
    match j.get(key) {
        None => Ok(0),
        Some(v) => match v.as_u64() {
            Some(n) => {
                if n <= 0xffff_ffff {
                    Ok(n as u32)
                } else {
                    Err(())
                }
            },
            None => Err(()),
        },
    }
}

fn read_state(j: &Json, key: &str) -> (r: Result<ItemState, ()>)
    ensures
        r == state_or_pending(j@, key@),
{
    match j.get(key) {
        None => Ok(ItemState::Pending),
        Some(v) => match v.as_str() {
            Some(t) => {
                let s: Option<ItemState> = ItemState::from_token(t);
                proof {
                    if let Some(x) = s {
                        crate::state::law_tokens_are_distinct(x, ItemState::Pending);
                        crate::state::law_tokens_are_distinct(x, ItemState::Leased);
                        crate::state::law_tokens_are_distinct(x, ItemState::Done);
                        crate::state::law_tokens_are_distinct(x, ItemState::DeadLetter);
                    } else {
                        assert(state_token(ItemState::Pending) != t@);
                        assert(state_token(ItemState::Leased) != t@);
                        assert(state_token(ItemState::Done) != t@);
                        assert(state_token(ItemState::DeadLetter) != t@);
                    }
                }
                match s {
                    Some(x) => Ok(x),
                    None => Err(()),
                }
            },
            None => Err(()),
        },
    }
}

fn read_line_id(j: &Json) -> (r: Option<String>)
    ensures
        match r {
            Some(t) => line_id(j@) == Some(t@),
            None => line_id(j@) is None,
        },
{
    let a: Option<&Json> = j.get("custom_id");
    let b: Option<&Json> = j.get("recordId");
    match a {
        Some(v) => {
            if b.is_some() {
                return None;
            }
            match v.as_str() {
                Some(t) => Some(t.to_owned()),
                None => None,
            }
        },
        None => match b {
            Some(v) => match v.as_str() {
                Some(t) => Some(t.to_owned()),
                None => None,
            },
            None => None,
        },
    }
}

/// The item that a JSON value describes.
pub fn item_of_json(j: &Json) -> (r: Option<Item>)
    ensures
        match r {
            Some(i) => item_of(j@) == Some(i@),
            None => item_of(j@) is None,
        },
{
    match record_of_array(j, &item_names_list(), 4) {
        Some(record) => read_item(&record),
        None => read_item(j),
    }
}

fn read_item(j: &Json) -> (r: Option<Item>)
    ensures
        match r {
            Some(i) => item_in(j@) == Some(i@),
            None => item_in(j@) is None,
        },
{
    let custom_id: String = match read_line_id(j) {
        Some(t) => t,
        None => {
            return None;
        },
    };
    let method: String = match read_text_or(j, "method", default_method().as_str()) {
        Ok(t) => t,
        Err(_) => {
            return None;
        },
    };
    let url: String = match read_text_or(j, "url", "") {
        Ok(t) => t,
        Err(_) => {
            return None;
        },
    };
    let body: Json = match j.get("body") {
        Some(v) => v.duplicate(),
        None => {
            return None;
        },
    };
    let status: ItemState = match read_state(j, "status") {
        Ok(s) => s,
        Err(_) => {
            return None;
        },
    };
    let attempts: u32 = match read_count(j, "attempts") {
        Ok(n) => n,
        Err(_) => {
            return None;
        },
    };
    let leased_until: Option<i64> = match read_opt_int(j, "leased_until") {
        Ok(t) => t,
        Err(_) => {
            return None;
        },
    };
    let leased_by: Option<String> = match read_opt_text(j, "leased_by") {
        Ok(t) => t,
        Err(_) => {
            return None;
        },
    };
    let last_error: Option<String> = match read_opt_text(j, "last_error") {
        Ok(t) => t,
        Err(_) => {
            return None;
        },
    };
    let item: Item = Item {
        custom_id,
        method,
        url,
        body,
        status,
        attempts,
        leased_until,
        leased_by,
        last_error,
    };
    assert(item_in(j@) == Some(item@));
    Some(item)
}

/// The message for an id that is not valid.
pub open spec fn invalid_id_text(id: Seq<char>) -> Seq<char> {
    "invalid custom_id "@ + quoted(id) + " (expected ^[a-zA-Z0-9_-]{1,64}$)"@
}

/// The message for a JSON value that describes no item.
pub open spec fn not_an_item_text() -> Seq<char> {
    "not a batch line: custom_id and body are required, and known fields must have their type"@
}

/// What a parsed line comes to: an item, or the message of the error.
pub open spec fn checked_line(parsed: Result<JsonView, Seq<char>>) -> Result<ItemView, Seq<char>> {
    match parsed {
        Err(e) => Err("json: "@ + e),
        Ok(j) => match item_of(j) {
            None => Err("json: "@ + not_an_item_text()),
            Some(i) => if valid_id(i.custom_id) {
                Ok(i)
            } else {
                Err("ingest: "@ + invalid_id_text(i.custom_id))
            },
        },
    }
}

/// The view of a checked line.
pub open spec fn checked_view(r: Result<Item, ForgeError>) -> Result<ItemView, Seq<char>> {
    match r {
        Ok(i) => Ok(i@),
        Err(e) => Err(error_text(e)),
    }
}

/// The error for an id that is not valid.
pub fn invalid_id(id: &str) -> (e: ForgeError)
    ensures
        error_text(e) == "ingest: "@ + invalid_id_text(id@),
{
    ForgeError::Ingest(
        concat3(
            "invalid custom_id ",
            quote(id).as_str(),
            " (expected ^[a-zA-Z0-9_-]{1,64}$)",
        ),
    )
}

/// Checks a parsed line: it describes an item, and its id is valid.
pub fn check_line(parsed: Result<Json, String>) -> (r: Result<Item, ForgeError>)
    ensures
        checked_view(r) == checked_line(parse_view(parsed)),
{
    match parsed {
        Err(e) => Err(ForgeError::Json(e)),
        Ok(j) => match item_of_json(&j) {
            None => Err(
                ForgeError::Json(
                    "not a batch line: custom_id and body are required, and known fields must have their type".to_owned(),
                ),
            ),
            Some(item) => {
                if valid_custom_id(item.custom_id.as_str()) {
                    Ok(item)
                } else {
                    Err(invalid_id(item.custom_id.as_str()))
                }
            },
        },
    }
}

/// Parses and validates one line into an [`Item`].
pub fn parse_line(line: &str) -> (r: Result<Item, ForgeError>)
    ensures
        checked_view(r) == checked_line(json_parse(line@)),
{
    check_line(parse_json(line))
}

/// An item that a line gives has a valid id.
pub proof fn law_parsed_ids_are_valid(parsed: Result<JsonView, Seq<char>>)
    ensures
        checked_line(parsed) matches Ok(i) ==> valid_id(i.custom_id),
{
}

/// An id is one to sixty-four letters, digits, dashes and underscores.
pub proof fn law_ids_are_plain(id: &str, r: bool)
    requires
        call_ensures(valid_custom_id, (id,), r),
    ensures
        r ==> 1 <= id@.len() <= 64,
        r ==> forall|i: int|
            0 <= i < id@.len() ==> ('a' <= (#[trigger] id@[i]) && id@[i] <= 'z') || ('A' <= id@[i]
                && id@[i] <= 'Z') || ('0' <= id@[i] && id@[i] <= '9') || id@[i] == '-' || id@[i]
                == '_',
        1 <= id@.len() <= 64 && (forall|i: int|
            0 <= i < id@.len() ==> ('a' <= (#[trigger] id@[i]) && id@[i] <= 'z') || ('A' <= id@[i]
                && id@[i] <= 'Z') || ('0' <= id@[i] && id@[i] <= '9') || id@[i] == '-' || id@[i]
                == '_') ==> r,
{
    if valid_id(id@) {
        assert forall|i: int| 0 <= i < id@.len() implies ('a' <= (#[trigger] id@[i]) && id@[i] <= 'z')
            || ('A' <= id@[i] && id@[i] <= 'Z') || ('0' <= id@[i] && id@[i] <= '9') || id@[i] == '-'
            || id@[i] == '_' by {
            assert(id_char(id@[i]));
        }
    } else if 1 <= id@.len() <= 64 {
        let i = choose|i: int| 0 <= i < id@.len() && !id_char(#[trigger] id@[i]);
        assert(!id_char(id@[i]));
    }
}

/// A line is read by the names of its fields: its id and its body, and the method and the
/// path that it names; without a method it is a POST, and without a path it has none. It is
/// an item just where its id is valid and its body is there.
pub proof fn law_lines_are_read_by_name(parsed: Result<Json, String>, r: Result<Item, ForgeError>)
    requires
        call_ensures(check_line, (parsed,), r),
    ensures
        parsed is Err ==> r is Err,
        r matches Ok(item) ==> valid_id(item.custom_id@),
        parsed is Ok && parsed->Ok_0@ is Object ==> ({
            let j = parsed->Ok_0@;
            &&& r is Ok ==> ({
                let item = r->Ok_0;
                &&& j.get("custom_id"@) is Some ==> j.str_at("custom_id"@) == Some(item.custom_id@)
                &&& j.get("custom_id"@) is None ==> j.str_at("recordId"@) == Some(item.custom_id@)
                &&& j.get("body"@) == Some(item.body@)
                &&& j.get("method"@) is Some ==> j.str_at("method"@) == Some(item.method@)
                &&& j.get("method"@) is None ==> item.method@ == "POST"@
                &&& j.get("url"@) is Some ==> j.str_at("url"@) == Some(item.url@)
                &&& j.get("url"@) is None ==> item.url@ == ""@
                &&& j.get("status"@) is None ==> item.status == ItemState::Pending
                &&& j.get("attempts"@) is None ==> item.attempts == 0
                &&& j.get("attempts"@) is Some ==> j.u64_at("attempts"@) == Some(
                    item.attempts as u64,
                )
                &&& j.str_at("status"@) == Some("done"@) ==> item.status == ItemState::Done
                &&& j.str_at("status"@) == Some("leased"@) ==> item.status == ItemState::Leased
                &&& j.str_at("status"@) == Some("dead_letter"@) ==> item.status
                    == ItemState::DeadLetter
                &&& j.get("last_error"@) is None ==> item.last_error is None
                &&& j.str_at("last_error"@) is Some ==> crate::text::opt_view(item.last_error)
                    == j.str_at("last_error"@)
                &&& j.str_at("leased_by"@) is Some ==> crate::text::opt_view(item.leased_by)
                    == j.str_at("leased_by"@)
            })
            &&& j.get("body"@) is None ==> r is Err
            &&& j.get("custom_id"@) is None && j.get("recordId"@) is None ==> r is Err
            &&& j.str_at("custom_id"@) is Some && valid_id(j.str_at("custom_id"@)->0) && j.get(
                "recordId"@,
            ) is None && j.get("body"@) is Some && (j.get("method"@) is None || j.str_at("method"@)
                is Some) && (j.get("url"@) is None || j.str_at("url"@) is Some) && j.get("status"@)
                is None && j.get("attempts"@) is None && j.get("leased_until"@) is None && j.get(
                "leased_by"@,
            ) is None && j.get("last_error"@) is None ==> r is Ok
        }),
{
    reveal_strlit("pending");
    reveal_strlit("leased");
    reveal_strlit("done");
    reveal_strlit("dead_letter");
    assert("pending"@.len() == 7);
    assert("leased"@.len() == 6);
    assert("done"@.len() == 4);
    assert("dead_letter"@.len() == 11);
}

/// The text of a line is read as JSON, and comes to what the JSON comes to; one that is no
/// JSON comes to an error.
pub proof fn law_line_texts_are_read_as_json(
    line: &str,
    r: Result<Item, ForgeError>,
    parsed: Result<Json, String>,
    read: Result<Item, ForgeError>,
)
    requires
        call_ensures(parse_line, (line,), r),
        call_ensures(parse_json, (line,), parsed),
        call_ensures(check_line, (parsed,), read),
    ensures
        r is Ok <==> read is Ok,
        r is Ok ==> r->Ok_0@ == read->Ok_0@,
        r is Err ==> error_text(r->Err_0) == error_text(read->Err_0),
        json_parse(line@) is Err ==> r is Err,
{
}


} // verus!
