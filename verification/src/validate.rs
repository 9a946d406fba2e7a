//! Optional content validation of a worker's 2xx response.
//!
//! A structurally bad success (an empty generation, or output that is no JSON when
//! JSON was asked for) is a soft failure: the worker retries it and, once attempts
//! are exhausted, dead-letters it with a clear reason instead of emitting bad data.

use vstd::prelude::*;

use crate::json::{json_parse, list_view, parse_json, parse_view, Json, JsonView};
use crate::text::{concat2, is_blank, trim};
use crate::types::EndpointKind;

verus! {

/// What a worker requires of a 2xx response's content before accepting it.
#[derive(Debug, Clone, Copy, PartialEq, Eq, Structural)]
pub enum ResponseCheck {
    /// Accept any 2xx body.
    Any,
    /// The primary output is present and not blank: a message or completion text, or
    /// an embedding vector that is not empty.
    NonEmpty,
    /// The primary output text is JSON. For embeddings this asks for no more than
    /// [`ResponseCheck::NonEmpty`].
    Json,
}

impl Default for ResponseCheck {
    fn default() -> (c: Self)
        ensures
            c == ResponseCheck::Any,
    {
        ResponseCheck::Any
    }
}

/// The first item of an array member.
pub open spec fn first_item(body: JsonView, key: Seq<char>) -> Option<JsonView> {
    match body.array_at(key) {
        Some(items) => if items.len() > 0 {
            Some(items[0])
        } else {
            None
        },
        None => None,
    }
}

/// The text content of a completion choice.
pub open spec fn choice_text(kind: EndpointKind, choice: JsonView) -> Option<Seq<char>> {
    match kind {
        EndpointKind::Chat => match choice.get("message"@) {
            Some(m) => m.str_at("content"@),
            None => None,
        },
        EndpointKind::Completions => choice.str_at("text"@),
        _ => None,
    }
}

/// The model's primary output text, or the reason why there is none.
pub open spec fn output_text(kind: EndpointKind, body: JsonView) -> Result<Seq<char>, Seq<char>> {
    if kind == EndpointKind::Messages {
        match first_item(body, "content"@) {
            Some(block) => match block.str_at("text"@) {
                Some(t) => Ok(t),
                None => Err("response has no content text"@),
            },
            None => Err("response has no content text"@),
        }
    } else {
        match first_item(body, "choices"@) {
            Some(choice) => match choice_text(kind, choice) {
                Some(t) => Ok(t),
                None => Err("response choice has no text content"@),
            },
            None => Err("response has no choices"@),
        }
    }
}

/// The length of the first embedding vector, if there is one.
pub open spec fn embedding_len(body: JsonView) -> Option<nat> {
    match first_item(body, "data"@) {
        Some(e) => match e.array_at("embedding"@) {
            Some(v) => Some(v.len()),
            None => None,
        },
        None => None,
    }
}

/// The verdict on an embeddings response.
pub open spec fn embedding_verdict(body: JsonView) -> Result<(), Seq<char>> {
    match embedding_len(body) {
        Some(n) => if n == 0 {
            Err("empty embedding vector"@)
        } else {
            Ok(())
        },
        None => Err("response has no embedding data"@),
    }
}

/// The verdict on a parse of the output text as JSON.
pub open spec fn json_verdict(parsed: Result<JsonView, Seq<char>>) -> Result<(), Seq<char>> {
    match parsed {
        Ok(_) => Ok(()),
        Err(e) => Err("output is not valid JSON: "@ + e),
    }
}

/// The verdict on a response body.
pub open spec fn verdict(check: ResponseCheck, kind: EndpointKind, body: JsonView) -> Result<
    (),
    Seq<char>,
> {
    if check == ResponseCheck::Any {
        Ok(())
    } else if kind == EndpointKind::Embeddings {
        embedding_verdict(body)
    } else {
        match output_text(kind, body) {
            Err(why) => Err(why),
            Ok(t) => if trim(t).len() == 0 {
                Err("empty output content"@)
            } else if check == ResponseCheck::Json {
                json_verdict(json_parse(t))
            } else {
                Ok(())
            },
        }
    }
}

/// The view of a verdict.
pub open spec fn verdict_view(r: Result<(), String>) -> Result<(), Seq<char>> {
    match r {
        Ok(_) => Ok(()),
        Err(e) => Err(e@),
    }
}

fn first_of<'a>(body: &'a Json, key: &str) -> (r: Option<&'a Json>)
    ensures
        match r {
            Some(j) => first_item(body@, key@) == Some(j@),
            None => first_item(body@, key@) is None,
        },
{
    match body.get(key) {
        Some(v) => match v.as_array() {
            Some(items) => {
                if items.len() > 0 {
                    assert(list_view(items@)[0] == items@[0]@);
                    Some(&items[0])
                } else {
                    None
                }
            },
            None => None,
        },
        None => None,
    }
}

/// The model's primary output text for a chat, completions or messages response.
pub fn primary_text(kind: EndpointKind, body: &Json) -> (r: Result<&str, String>)
    ensures
        match r {
            Ok(t) => output_text(kind, body@) == Ok::<Seq<char>, Seq<char>>(t@),
            Err(e) => output_text(kind, body@) == Err::<Seq<char>, Seq<char>>(e@),
        },
{
    if kind == EndpointKind::Messages {
        return match first_of(body, "content") {
            Some(block) => match block.str_at("text") {
                Some(t) => Ok(t),
                None => Err("response has no content text".to_owned()),
            },
            None => Err("response has no content text".to_owned()),
        };
    }
    match first_of(body, "choices") {
        Some(choice) => {
            let text: Option<&str> = match kind {
                EndpointKind::Chat => match choice.get("message") {
                    Some(m) => m.str_at("content"),
                    None => None,
                },
                EndpointKind::Completions => choice.str_at("text"),
                _ => None,
            };
            match text {
                Some(t) => Ok(t),
                None => Err("response choice has no text content".to_owned()),
            }
        },
        None => Err("response has no choices".to_owned()),
    }
}

/// The first embedding vector must be present and not empty.
pub fn check_embedding(body: &Json) -> (r: Result<(), String>)
    ensures
        verdict_view(r) == embedding_verdict(body@),
{
    match first_of(body, "data") {
        Some(e) => match e.get("embedding") {
            Some(v) => match v.as_array() {
                Some(items) => {
                    if items.len() == 0 {
                        Err("empty embedding vector".to_owned())
                    } else {
                        Ok(())
                    }
                },
                None => Err("response has no embedding data".to_owned()),
            },
            None => Err("response has no embedding data".to_owned()),
        },
        None => Err("response has no embedding data".to_owned()),
    }
}

/// The verdict on a parse of the output text as JSON.
pub fn judge_parse(parsed: Result<Json, String>) -> (r: Result<(), String>)
    ensures
        verdict_view(r) == json_verdict(parse_view(parsed)),
{
    match parsed {
        Ok(_) => Ok(()),
        Err(e) => Err(concat2("output is not valid JSON: ", e.as_str())),
    }
}

impl ResponseCheck {
    /// Validate `body`, a parsed response envelope, for `kind`. An error is a soft
    /// failure, with its reason.
    pub fn validate(self, kind: EndpointKind, body: &Json) -> (r: Result<(), String>)
        ensures
            verdict_view(r) == verdict(self, kind, body@),
    {
        if self == ResponseCheck::Any {
            return Ok(());
        }
        if kind == EndpointKind::Embeddings {
            return check_embedding(body);
        }
        match primary_text(kind, body) {
            Err(why) => Err(why),
            Ok(text) => {
                if is_blank(text) {
                    Err("empty output content".to_owned())
                } else if self == ResponseCheck::Json {
                    judge_parse(parse_json(text))
                } else {
                    Ok(())
                }
            },
        }
    }
}

/// With no check configured every body is accepted.
pub proof fn law_any_accepts_everything(kind: EndpointKind, body: JsonView)
    ensures
        verdict(ResponseCheck::Any, kind, body) == Ok::<(), Seq<char>>(()),
{
}

/// The JSON check accepts nothing that the non-empty check rejects.
pub proof fn law_json_is_stricter(kind: EndpointKind, body: JsonView)
    ensures
        verdict(ResponseCheck::Json, kind, body) is Ok ==> verdict(
            ResponseCheck::NonEmpty,
            kind,
            body,
        ) is Ok,
{
}

/// For embeddings the JSON check asks for no more than the non-empty check.
pub proof fn law_embeddings_ignore_json(body: JsonView)
    ensures
        verdict(ResponseCheck::Json, EndpointKind::Embeddings, body) == verdict(
            ResponseCheck::NonEmpty,
            EndpointKind::Embeddings,
            body,
        ),
{
}

/// The check for content looks at what the model answers: the first message of a chat, the
/// first completion, the first block of a message, the first embedding. It accepts just
/// what is there and not blank.
pub proof fn law_content_is_present(kind: EndpointKind, body: &Json, r: Result<(), String>)
    requires
        call_ensures(ResponseCheck::validate, (ResponseCheck::NonEmpty, kind, body), r),
    ensures
        kind == EndpointKind::Chat ==> (r is Ok <==> (body@.array_at("choices"@) matches Some(c)
            && c.len() > 0 && (c[0].get("message"@) matches Some(m) && (m.str_at(
            "content"@,
        ) matches Some(t) && trim(t).len() > 0)))),
        kind == EndpointKind::Completions ==> (r is Ok <==> (body@.array_at("choices"@) matches Some(
            c,
        ) && c.len() > 0 && (c[0].str_at("text"@) matches Some(t) && trim(t).len() > 0))),
        kind == EndpointKind::Messages ==> (r is Ok <==> (body@.array_at("content"@) matches Some(c)
            && c.len() > 0 && (c[0].str_at("text"@) matches Some(t) && trim(t).len() > 0))),
        kind == EndpointKind::Embeddings ==> (r is Ok <==> (body@.array_at("data"@) matches Some(d)
            && d.len() > 0 && (d[0].array_at("embedding"@) matches Some(v) && v.len() > 0))),
{
}

/// The check for JSON accepts just the content that is there, not blank, and can be read as
/// JSON; of embeddings it asks no more than that they are there.
pub proof fn law_json_content_is_read(
    kind: EndpointKind,
    body: &Json,
    r: Result<(), String>,
    present: Result<(), String>,
    text: Result<&str, String>,
)
    requires
        call_ensures(ResponseCheck::validate, (ResponseCheck::Json, kind, body), r),
        call_ensures(ResponseCheck::validate, (ResponseCheck::NonEmpty, kind, body), present),
        call_ensures(primary_text, (kind, body), text),
    ensures
        kind == EndpointKind::Embeddings ==> (r is Ok <==> present is Ok),
        kind != EndpointKind::Embeddings ==> (r is Ok <==> present is Ok && (text matches Ok(t)
            && json_parse(t@) is Ok)),
{
}

/// Without a check, whatever came is accepted.
pub proof fn law_unchecked_content_passes(kind: EndpointKind, body: &Json, r: Result<(), String>)
    requires
        call_ensures(ResponseCheck::validate, (ResponseCheck::Any, kind, body), r),
    ensures
        r is Ok,
{
}

} // verus!
