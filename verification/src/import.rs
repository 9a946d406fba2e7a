//! Import of the batch files of closed batch APIs: each line is normalized to the four
//! fields of a native one, whatever the names under which its source has them.

use vstd::prelude::*;

use crate::error::{error_text, ForgeError};
use crate::ingest::{not_utf8_text, reject_view, reject_views, Reject};
use crate::item::{checked_line, invalid_id, invalid_id_text, valid_custom_id, valid_id};
use crate::json::{
    canonical, depth_within, json_parse, json_text, lemma_object_view, members_view, names_ascend,
    parse_json, parse_view, render_json, Json, JsonView, DEPTH_LIMIT,
};
use crate::id_set::IdSet;
use crate::paths::{same_file, same_target};
use crate::text::{
    blank, concat2, concat3, decode, is_blank, lossy, opt_str_view, raw_views, shown, text_of, trim,
    views,
};
use crate::state::ItemState;
use crate::types::{endpoint_path, EndpointKind};

verus! {

/// Outcome of an import pass.
#[derive(Debug, Clone, Copy, PartialEq, Eq, Structural)]
pub struct ImportStats {
    /// Lines read that were not blank.
    pub lines_read: u64,
    /// Lines normalized and written.
    pub written: u64,
    /// Lines rejected for their shape or id.
    pub rejected: u64,
    /// Lines dropped because their id had already appeared.
    pub duplicates: u64,
}

impl Default for ImportStats {
    fn default() -> (s: Self)
        ensures
            s == (ImportStats { lines_read: 0, written: 0, rejected: 0, duplicates: 0 }),
    {
        ImportStats { lines_read: 0, written: 0, rejected: 0, duplicates: 0 }
    }
}

/// The request path that a body's shape implies.
pub open spec fn inferred_kind(body: JsonView, default_endpoint: EndpointKind) -> EndpointKind {
    if body.get("messages"@) is Some {
        EndpointKind::Chat
    } else if body.get("input"@) is Some {
        EndpointKind::Embeddings
    } else if body.get("prompt"@) is Some {
        EndpointKind::Completions
    } else {
        default_endpoint
    }
}

/// The first of two optional values.
pub open spec fn either(a: Option<JsonView>, b: Option<JsonView>) -> Option<JsonView> {
    match a {
        Some(v) => Some(v),
        None => b,
    }
}

/// The id of a source line.
pub open spec fn source_id(v: JsonView) -> Option<Seq<char>> {
    match either(v.get("custom_id"@), v.get("recordId"@)) {
        Some(x) => x.as_str(),
        None => None,
    }
}

/// The body of a source line.
pub open spec fn source_body(v: JsonView) -> Option<JsonView> {
    either(either(v.get("body"@), v.get("params"@)), v.get("modelInput"@))
}

/// The native record of a line.
pub open spec fn native_json(
    custom_id: Seq<char>,
    method: Seq<char>,
    url: Seq<char>,
    body: JsonView,
) -> JsonView {
    JsonView::Object(
        seq![
            ("body"@, body),
            ("custom_id"@, JsonView::Text(custom_id)),
            ("method"@, JsonView::Text(method)),
            ("url"@, JsonView::Text(url)),
        ],
    )
}

/// What a parsed source line normalizes to: its id and its native record, or the
/// message of the error.
pub open spec fn normalized(
    parsed: Result<JsonView, Seq<char>>,
    default_endpoint: EndpointKind,
) -> Result<(Seq<char>, JsonView), Seq<char>> {
    match parsed {
        Err(e) => Err("json: "@ + e),
        Ok(v) => match source_id(v) {
            None => Err("ingest: "@ + "missing custom_id / recordId"@),
            Some(id) => if !valid_id(id) {
                Err("ingest: "@ + invalid_id_text(id))
            } else {
                match source_body(v) {
                    None => Err("ingest: "@ + "missing body / params / modelInput"@),
                    Some(body) => if !(body is Object) {
                        Err("ingest: "@ + "body / params / modelInput is not a JSON object"@)
                    } else {
                        let method = match v.str_at("method"@) {
                            Some(m) => m,
                            None => "POST"@,
                        };
                        let url = match v.str_at("url"@) {
                            Some(u) => u,
                            None => endpoint_path(inferred_kind(body, default_endpoint)),
                        };
                        Ok((id, native_json(id, method, url, body)))
                    },
                }
            },
        },
    }
}

/// A line in native form.
pub struct Normalized {
    pub custom_id: String,
    /// The record to write.
    pub record: Json,
}

/// The view of a normalized line.
pub open spec fn normalized_view(r: Result<Normalized, ForgeError>) -> Result<
    (Seq<char>, JsonView),
    Seq<char>,
> {
    match r {
        Ok(n) => Ok((n.custom_id@, n.record@)),
        Err(e) => Err(error_text(e)),
    }
}

/// Infers the request path from the body's shape, where the source line names none.
pub fn infer_url(body: &Json, default_endpoint: EndpointKind) -> (r: &'static str)
    ensures
        r@ == endpoint_path(inferred_kind(body@, default_endpoint)),
{
    if body.get("messages").is_some() {
        EndpointKind::Chat.default_path()
    } else if body.get("input").is_some() {
        EndpointKind::Embeddings.default_path()
    } else if body.get("prompt").is_some() {
        EndpointKind::Completions.default_path()
    } else {
        default_endpoint.default_path()
    }
}

/// The members of a native record stand in the order of their names.
proof fn lemma_native_canonical(
    custom_id: Seq<char>,
    method: Seq<char>,
    url: Seq<char>,
    body: JsonView,
)
    requires
        canonical(body),
    ensures
        canonical(native_json(custom_id, method, url, body)),
{
    reveal_strlit("body");
    reveal_strlit("custom_id");
    reveal_strlit("method");
    reveal_strlit("url");
    assert("body"@[0] == 'b' && "custom_id"@[0] == 'c' && "method"@[0] == 'm' && "url"@[0] == 'u');
    let m = native_json(custom_id, method, url, body)->Object_0;
    assert(names_ascend(m));
    assert(canonical(JsonView::Text(custom_id)));
    assert(canonical(JsonView::Text(method)));
    assert(canonical(JsonView::Text(url)));
}

/// A member of a canonical object is canonical.
pub proof fn lemma_member_canonical(members: Seq<(Seq<char>, JsonView)>, key: Seq<char>)
    requires
        forall|i: int| 0 <= i < members.len() ==> canonical((#[trigger] members[i]).1),
    ensures
        crate::json::member(members, key) matches Some(v) ==> canonical(v),
    decreases members.len(),
{
    if members.len() > 0 {
        assert(canonical(members[0].1));
        assert forall|i: int| 0 <= i < members.skip(1).len() implies canonical(
            (#[trigger] members.skip(1)[i]).1,
        ) by {
            assert(members.skip(1)[i] == members[i + 1]);
        }
        lemma_member_canonical(members.skip(1), key);
    }
}

/// What a canonical value holds under a name is canonical.
pub proof fn lemma_get_canonical(v: JsonView, key: Seq<char>)
    requires
        canonical(v),
    ensures
        v.get(key) matches Some(x) ==> canonical(x),
{
    if let JsonView::Object(members) = v {
        lemma_member_canonical(members, key);
    }
}

/// The record of a normalized line is canonical where the parsed line is.
pub proof fn law_native_records_are_canonical(
    parsed: Result<JsonView, Seq<char>>,
    default_endpoint: EndpointKind,
)
    requires
        parsed matches Ok(v) ==> canonical(v),
    ensures
        normalized(parsed, default_endpoint) matches Ok((_, record)) ==> canonical(record),
{
    if let Ok(v) = parsed {
        lemma_get_canonical(v, "body"@);
        lemma_get_canonical(v, "params"@);
        lemma_get_canonical(v, "modelInput"@);
        if let Ok((id, record)) = normalized(parsed, default_endpoint) {
            let method = match v.str_at("method"@) {
                Some(m) => m,
                None => "POST"@,
            };
            let body = source_body(v)->0;
            let url = match v.str_at("url"@) {
                Some(u) => u,
                None => endpoint_path(inferred_kind(body, default_endpoint)),
            };
            lemma_native_canonical(id, method, url, body);
        }
    }
}

/// What a value holds under a name nests less deep.
proof fn lemma_get_depth(v: JsonView, key: Seq<char>, limit: nat)
    requires
        depth_within(v, limit),
    ensures
        v.get(key) matches Some(x) ==> limit > 0 && depth_within(x, (limit - 1) as nat),
{
    if let JsonView::Object(members) = v {
        lemma_member_depth(members, key, (limit - 1) as nat);
    }
}

proof fn lemma_member_depth(members: Seq<(Seq<char>, JsonView)>, key: Seq<char>, limit: nat)
    requires
        forall|i: int| 0 <= i < members.len() ==> depth_within((#[trigger] members[i]).1, limit),
    ensures
        crate::json::member(members, key) matches Some(v) ==> depth_within(v, limit),
    decreases members.len(),
{
    if members.len() > 0 {
        assert(depth_within(members[0].1, limit));
        let rest = members.skip(1);
        assert forall|i: int| 0 <= i < rest.len() implies depth_within(
            (#[trigger] rest[i]).1,
            limit,
        ) by {
            assert(rest[i] == members[i + 1]);
        }
        lemma_member_depth(rest, key, limit);
    }
}

/// The record of a normalized line nests no deeper than the parsed line.
proof fn lemma_native_depth(
    parsed: Result<JsonView, Seq<char>>,
    default_endpoint: EndpointKind,
    limit: nat,
)
    requires
        parsed matches Ok(v) ==> depth_within(v, limit),
    ensures
        normalized(parsed, default_endpoint) matches Ok((_, record)) ==> depth_within(
            record,
            limit,
        ),
{
    if let Ok(v) = parsed {
        lemma_get_depth(v, "body"@, limit);
        lemma_get_depth(v, "params"@, limit);
        lemma_get_depth(v, "modelInput"@, limit);
        if let Ok((id, record)) = normalized(parsed, default_endpoint) {
            let m = record->Object_0;
            assert(m[0].1 == source_body(v)->0);
            assert forall|i: int| 0 <= i < m.len() implies depth_within(
                (#[trigger] m[i]).1,
                (limit - 1) as nat,
            ) by {}
        }
    }
}

/// The native record of a normalized line is an item that was never tried, with the id
/// and the body of the source line: what is imported can be ingested.
pub proof fn law_native_records_are_items(v: JsonView, endpoint: EndpointKind)
    ensures
        normalized(Ok(v), endpoint) matches Ok((id, record)) ==> (checked_line(
            Ok::<JsonView, Seq<char>>(record),
        ) matches Ok(i) && i.custom_id == id && Some(i.body) == source_body(v) && i.status
            == ItemState::Pending && i.attempts == 0),
{
    if let Ok((id, record)) = normalized(Ok(v), endpoint) {
        reveal_strlit("body");
        reveal_strlit("custom_id");
        reveal_strlit("method");
        reveal_strlit("url");
        reveal_strlit("recordId");
        reveal_strlit("status");
        reveal_strlit("attempts");
        reveal_strlit("leased_until");
        reveal_strlit("leased_by");
        reveal_strlit("last_error");
        assert("body"@[0] == 'b' && "custom_id"@[0] == 'c' && "method"@[0] == 'm' && "url"@[0]
            == 'u');
        assert("recordId"@[0] == 'r' && "status"@[0] == 's' && "attempts"@[0] == 'a'
            && "leased_until"@[0] == 'l' && "leased_by"@[0] == 'l' && "last_error"@[0] == 'l');
        reveal_with_fuel(crate::json::member, 5);
        let m = record->Object_0;
        let m1 = m.skip(1);
        let m2 = m1.skip(1);
        let m3 = m2.skip(1);
        assert(m1[0] == m[1] && m2[0] == m[2] && m3[0] == m[3]);
        assert(m3.skip(1).len() == 0);
    }
}

/// The id with which a line is accepted into a queue, if it is.
pub open spec fn accepted_id(line: Seq<char>) -> Option<Seq<char>> {
    match checked_line(json_parse(line)) {
        Ok(i) => Some(i.custom_id),
        Err(_) => None,
    }
}

fn native(custom_id: &str, method: &str, url: &str, body: Json) -> (r: Json)
    ensures
        r@ == native_json(custom_id@, method@, url@, body@),
{
    let members: Vec<(String, Json)> = vec![
        ("body".to_owned(), body),
        ("custom_id".to_owned(), Json::Text(custom_id.to_owned())),
        ("method".to_owned(), Json::Text(method.to_owned())),
        ("url".to_owned(), Json::Text(url.to_owned())),
    ];
    proof {
        lemma_object_view(members);
        assert(members_view(members@) == native_json(custom_id@, method@, url@, body@)->Object_0);
    }
    Json::Object(members)
}

/// Normalizes a parsed source line.
pub fn normalize_json(parsed: Result<Json, String>, default_endpoint: EndpointKind) -> (r: Result<
    Normalized,
    ForgeError,
>)
    ensures
        normalized_view(r) == normalized(parse_view(parsed), default_endpoint),
{
    let v: Json = match parsed {
        Ok(v) => v,
        Err(e) => {
            return Err(ForgeError::Json(e));
        },
    };
    let id: Option<&Json> = match v.get("custom_id") {
        Some(x) => Some(x),
        None => v.get("recordId"),
    };
    let text: Option<&str> = match id {
        Some(x) => x.as_str(),
        None => None,
    };
    let custom_id: &str = match text {
        Some(t) => t,
        None => {
            return Err(ForgeError::Ingest("missing custom_id / recordId".to_owned()));
        },
    };
    if !valid_custom_id(custom_id) {
        return Err(invalid_id(custom_id));
    }
    let found: Option<&Json> = match v.get("body") {
        Some(b) => Some(b),
        None => match v.get("params") {
            Some(b) => Some(b),
            None => v.get("modelInput"),
        },
    };
    let body: &Json = match found {
        Some(b) => b,
        None => {
            return Err(ForgeError::Ingest("missing body / params / modelInput".to_owned()));
        },
    };
    if !body.is_object() {
        return Err(
            ForgeError::Ingest("body / params / modelInput is not a JSON object".to_owned()),
        );
    }
    let method: &str = match v.str_at("method") {
        Some(m) => m,
        None => "POST",
    };
    let url: &str = match v.str_at("url") {
        Some(u) => u,
        None => infer_url(body, default_endpoint),
    };
    let record: Json = native(custom_id, method, url, body.duplicate());
    Ok(Normalized { custom_id: custom_id.to_owned(), record })
}

/// Normalizes one source line. Its id may be a `custom_id` or a `recordId`, its body a
/// `body`, `params` or `modelInput`; a path that it does not name is inferred from the
/// body.
pub fn normalize_line(line: &str, default_endpoint: EndpointKind) -> (r: Result<
    Normalized,
    ForgeError,
>)
    ensures
        normalized_view(r) == normalized(json_parse(line@), default_endpoint),
        r matches Ok(n) ==> canonical(n.record@) && depth_within(n.record@, DEPTH_LIMIT as nat),
{
    let parsed: Result<Json, String> = parse_json(line);
    proof {
        law_native_records_are_canonical(parse_view(parsed), default_endpoint);
        lemma_native_depth(parse_view(parsed), default_endpoint, DEPTH_LIMIT as nat);
    }
    normalize_json(parsed, default_endpoint)
}

/// What became of a source line.
pub enum Imported {
    /// It was blank.
    Blank,
    /// Its native line, to be written.
    Written(String),
    /// It was set aside: it cannot be used, or its id had already appeared.
    SetAside(Reject),
}

/// The mathematical value of what became of a source line.
pub enum ImportedView {
    Blank,
    Written(Seq<char>),
    SetAside(nat, Seq<char>, Seq<char>),
}

impl View for Imported {
    type V = ImportedView;

    open spec fn view(&self) -> ImportedView {
        match self {
            Imported::Blank => ImportedView::Blank,
            Imported::Written(t) => ImportedView::Written(t@),
            Imported::SetAside(r) => ImportedView::SetAside(r.line_no as nat, r.error@, r.input@),
        }
    }
}

/// An import under way: the ids that have appeared, and the counts.
pub struct Import {
    endpoint: EndpointKind,
    seen: IdSet,
    stats: ImportStats,
    line_no: u64,
}

/// A raw source line normalized: its id and its native record, or the reason why it cannot
/// be used.
pub open spec fn normalized_raw(raw: Seq<u8>, endpoint: EndpointKind) -> Result<
    (Seq<char>, JsonView),
    Seq<char>,
> {
    match text_of(raw) {
        Some(line) => normalized(json_parse(line), endpoint),
        None => Err(not_utf8_text()),
    }
}

/// What a line with the number `line_no` comes to, once the ids `seen` have appeared.
pub open spec fn imported(
    raw: Seq<u8>,
    line_no: nat,
    seen: Set<Seq<char>>,
    endpoint: EndpointKind,
) -> ImportedView {
    if blank(raw) {
        ImportedView::Blank
    } else {
        match normalized_raw(raw, endpoint) {
            Err(e) => ImportedView::SetAside(line_no, e, shown(raw)),
            Ok((id, record)) => if seen.contains(id) {
                ImportedView::SetAside(line_no, "duplicate custom_id"@, shown(raw))
            } else {
                ImportedView::Written(json_text(record))
            },
        }
    }
}

/// The ids that have appeared once a line has been taken in.
pub open spec fn seen_after(
    raw: Seq<u8>,
    seen: Set<Seq<char>>,
    endpoint: EndpointKind,
) -> Set<Seq<char>> {
    if blank(raw) {
        seen
    } else {
        match normalized_raw(raw, endpoint) {
            Ok((id, _)) => seen.insert(id),
            Err(_) => seen,
        }
    }
}

/// The counts once a line has been taken in.
pub open spec fn stats_after(
    raw: Seq<u8>,
    seen: Set<Seq<char>>,
    endpoint: EndpointKind,
    s: ImportStats,
) -> ImportStats {
    if blank(raw) {
        s
    } else {
        let read = ImportStats { lines_read: (s.lines_read + 1) as u64, ..s };
        match normalized_raw(raw, endpoint) {
            Err(_) => ImportStats { rejected: (s.rejected + 1) as u64, ..read },
            Ok((id, _)) => if seen.contains(id) {
                ImportStats { duplicates: (s.duplicates + 1) as u64, ..read }
            } else {
                ImportStats { written: (s.written + 1) as u64, ..read }
            },
        }
    }
}

impl Import {
    /// The ids that have appeared.
    pub closed spec fn spec_seen(self) -> Set<Seq<char>> {
        self.seen@
    }

    /// The counts so far.
    pub closed spec fn spec_stats(self) -> ImportStats {
        self.stats
    }

    /// The number of the last line.
    pub closed spec fn spec_line(self) -> nat {
        self.line_no as nat
    }

    /// The endpoint for lines that name no path and imply none.
    pub closed spec fn spec_endpoint(self) -> EndpointKind {
        self.endpoint
    }

    /// Every line that was read is accounted for, and as many were written as there are
    /// ids.
    pub open spec fn wf(self) -> bool {
        &&& self.spec_stats().lines_read == self.spec_stats().written + self.spec_stats().rejected
            + self.spec_stats().duplicates
        &&& self.spec_stats().lines_read <= self.spec_line()
        &&& self.spec_stats().written == self.spec_seen().len()
        &&& self.spec_seen().finite()
    }

    /// An import at its start.
    pub fn start(endpoint: EndpointKind) -> (s: Self)
        ensures
            s.wf(),
            s.spec_seen() == Set::<Seq<char>>::empty(),
            s.spec_stats() == (ImportStats {
                lines_read: 0,
                written: 0,
                rejected: 0,
                duplicates: 0,
            }),
            s.spec_line() == 0,
            s.spec_endpoint() == endpoint,
    {
        let s: Import = Import {
            endpoint,
            seen: IdSet::new(),
            stats: ImportStats::default(),
            line_no: 0,
        };
        s
    }

    /// The counts so far.
    pub fn stats(&self) -> (s: ImportStats)
        ensures
            s == self.spec_stats(),
    {
        self.stats
    }

    /// Whether the counters have room for one more line.
    pub fn has_room(&self) -> (r: bool)
        ensures
            r == (self.spec_line() < u64::MAX),
    {
        self.line_no < 0xffff_ffff_ffff_ffff
    }

    /// Takes in one source line, without its line break. One that is no UTF-8 is set aside.
    pub fn line(&mut self, raw: &[u8]) -> (r: Imported)
        requires
            old(self).wf(),
            old(self).spec_line() < u64::MAX,
        ensures
            final(self).wf(),
            final(self).spec_line() == old(self).spec_line() + 1,
            final(self).spec_endpoint() == old(self).spec_endpoint(),
            final(self).spec_seen() == seen_after(
                raw@,
                old(self).spec_seen(),
                old(self).spec_endpoint(),
            ),
            final(self).spec_stats() == stats_after(
                raw@,
                old(self).spec_seen(),
                old(self).spec_endpoint(),
                old(self).spec_stats(),
            ),
            r@ == imported(
                raw@,
                old(self).spec_line() + 1,
                old(self).spec_seen(),
                old(self).spec_endpoint(),
            ),
            r matches Imported::Written(t) ==> {
                &&& !t@.contains('\n')
                &&& trim(t@).len() > 0
                &&& accepted_id(t@) matches Some(id) && !old(self).spec_seen().contains(id)
                    && final(self).spec_seen().contains(id)
            },
    {
        let ghost seen = self.spec_seen();
        self.line_no = self.line_no + 1;
        let text: String = match decode(raw) {
            Some(t) => t,
            None => {
                self.stats.lines_read = self.stats.lines_read + 1;
                self.stats.rejected = self.stats.rejected + 1;
                return Imported::SetAside(
                    Reject {
                        line_no: self.line_no,
                        error: concat2("ingest: ", "line is not valid UTF-8"),
                        input: lossy(raw),
                    },
                );
            },
        };
        let line: &str = text.as_str();
        if is_blank(line) {
            return Imported::Blank;
        }
        self.stats.lines_read = self.stats.lines_read + 1;
        match normalize_line(line, self.endpoint) {
            Ok(norm) => {
                if !self.seen.insert(norm.custom_id.as_str()) {
                    assert(self.seen@ =~= seen);
                    self.stats.duplicates = self.stats.duplicates + 1;
                    return Imported::SetAside(
                        Reject {
                            line_no: self.line_no,
                            error: "duplicate custom_id".to_owned(),
                            input: line.to_owned(),
                        },
                    );
                }
                let native: String = render_json(&norm.record);
                proof {
                    law_native_records_are_items(json_parse(line@)->Ok_0, self.endpoint);
                }
                self.stats.written = self.stats.written + 1;
                Imported::Written(native)
            },
            Err(e) => {
                self.stats.rejected = self.stats.rejected + 1;
                Imported::SetAside(
                    Reject {
                        line_no: self.line_no,
                        error: e.to_string(),
                        input: line.to_owned(),
                    },
                )
            },
        }
    }
}

/// Every line that was read was written, rejected, or dropped as a duplicate, and as
/// many lines were written as there are different ids: none was written twice.
pub proof fn law_import_accounts_for_every_line(s: Import)
    requires
        s.wf(),
    ensures
        s.spec_stats().lines_read == s.spec_stats().written + s.spec_stats().rejected
            + s.spec_stats().duplicates,
        s.spec_stats().written == s.spec_seen().len(),
{
}

/// Taking in a line a second time writes nothing.
pub proof fn law_imported_once(raw: Seq<u8>, seen: Set<Seq<char>>, endpoint: EndpointKind, n: nat)
    ensures
        !(imported(raw, n, seen_after(raw, seen, endpoint), endpoint) is Written),
{
}

/// The imported record keeps the id, and its body is the one of the source line.
pub proof fn law_import_keeps_id_and_body(v: JsonView, endpoint: EndpointKind)
    ensures
        normalized(Ok(v), endpoint) matches Ok((id, record)) ==> source_id(v) == Some(id)
            && record.get("body"@) == source_body(v) && record.str_at("custom_id"@) == Some(id),
{
    if let Ok((id, record)) = normalized(Ok(v), endpoint) {
        reveal_strlit("body");
        reveal_strlit("custom_id");
        assert("body"@[0] == 'b' && "custom_id"@[0] == 'c');
        reveal_with_fuel(crate::json::member, 3);
        let m = record->Object_0;
        assert(m[0].0 == "body"@);
        assert(m.skip(1)[0].0 == "custom_id"@);
        assert("body"@ != "custom_id"@);
    }
}

/// Where an import stands after some lines.
#[verifier::ext_equal]
pub struct ImportRun {
    pub seen: Set<Seq<char>>,
    pub stats: ImportStats,
    /// The native lines, in order.
    pub written: Seq<Seq<char>>,
    /// The lines set aside: the number, the reason, and the line.
    pub aside: Seq<(nat, Seq<char>, Seq<char>)>,
}

/// Where an import of `lines` stands.
pub open spec fn import_run(lines: Seq<Seq<u8>>, endpoint: EndpointKind) -> ImportRun
    decreases lines.len(),
{
    if lines.len() == 0 {
        ImportRun {
            seen: Set::empty(),
            stats: ImportStats { lines_read: 0, written: 0, rejected: 0, duplicates: 0 },
            written: Seq::empty(),
            aside: Seq::empty(),
        }
    } else {
        let init = import_run(lines.drop_last(), endpoint);
        let line = lines.last();
        let what = imported(line, lines.len(), init.seen, endpoint);
        ImportRun {
            seen: seen_after(line, init.seen, endpoint),
            stats: stats_after(line, init.seen, endpoint, init.stats),
            written: match what {
                ImportedView::Written(t) => init.written.push(t),
                _ => init.written,
            },
            aside: match what {
                ImportedView::SetAside(n, e, t) => init.aside.push((n, e, t)),
                _ => init.aside,
            },
        }
    }
}

/// Imports lines: what is to be written and what is set aside, in order, and the counts.
/// Each text that is to be written is a line that is accepted into a queue, under an id of
/// its own.
pub fn import_batch(lines: &[Vec<u8>], endpoint: EndpointKind) -> (r: (
    ImportStats,
    Vec<String>,
    Vec<Reject>,
))
    ensures
        ({
            let run = import_run(raw_views(lines@), endpoint);
            &&& r.0 == run.stats
            &&& views(r.1@) == run.written
            &&& reject_views(r.2@) == run.aside
        }),
        forall|k: int|
            0 <= k < r.1@.len() ==> accepted_id((#[trigger] r.1@[k])@) is Some && !r.1@[k]@.contains(
                '\n',
            ),
        forall|j: int, k: int|
            0 <= j < k < r.1@.len() ==> accepted_id((#[trigger] r.1@[j])@) != accepted_id(
                (#[trigger] r.1@[k])@,
            ),
{
    let ghost all = raw_views(lines@);
    let mut import: Import = Import::start(endpoint);
    let mut written: Vec<String> = Vec::new();
    let mut aside: Vec<Reject> = Vec::new();
    let mut i: usize = 0;
    proof {
        assert(all.take(0) == Seq::<Seq<u8>>::empty());
        assert(views(written@) == Seq::<Seq<char>>::empty());
        assert(reject_views(aside@) == Seq::<(nat, Seq<char>, Seq<char>)>::empty());
    }
    while i < lines.len()
        invariant
            i <= lines@.len(),
            all == raw_views(lines@),
            import.wf(),
            import.spec_line() == i,
            import.spec_endpoint() == endpoint,
            import.spec_seen() == import_run(all.take(i as int), endpoint).seen,
            import.spec_stats() == import_run(all.take(i as int), endpoint).stats,
            views(written@) == import_run(all.take(i as int), endpoint).written,
            reject_views(aside@) == import_run(all.take(i as int), endpoint).aside,
            forall|k: int|
                0 <= k < written@.len() ==> accepted_id((#[trigger] written@[k])@) is Some
                    && import.spec_seen().contains(accepted_id(written@[k]@)->0)
                    && !written@[k]@.contains('\n'),
            forall|j: int, k: int|
                0 <= j < k < written@.len() ==> accepted_id((#[trigger] written@[j])@)
                    != accepted_id((#[trigger] written@[k])@),
        decreases lines@.len() - i,
    {
        let ghost w = written@;
        let ghost a = aside@;
        proof {
            assert(all.take(i + 1).drop_last() == all.take(i as int));
            assert(all.take(i + 1).last() == lines@[i as int]@);
        }
        match import.line(lines[i].as_slice()) {
            Imported::Blank => {},
            Imported::Written(t) => {
                written.push(t);
                assert(views(written@) == views(w).push(t@));
            },
            Imported::SetAside(r) => {
                aside.push(r);
                assert(reject_views(aside@) == reject_views(a).push(reject_view(r)));
            },
        }
        i = i + 1;
    }
    assert(all.take(all.len() as int) == all);
    (import.stats(), written, aside)
}

/// Why a file is not imported onto itself.
pub open spec fn import_onto_itself_text(input: Seq<char>) -> Seq<char> {
    "ingest: "@ + ("refusing to import "@ + input
        + " onto itself (--input and --out are the same file)"@)
}

/// Refuses to import a file onto itself, which would truncate it before it is read.
pub fn check_import(
    input: &str,
    out: &str,
    resolved_input: Option<&str>,
    resolved_out: Option<&str>,
) -> (r: Result<(), ForgeError>)
    ensures
        match r {
            Ok(_) => !same_target(
                input@,
                out@,
                opt_str_view(resolved_input),
                opt_str_view(resolved_out),
            ),
            Err(e) => same_target(
                input@,
                out@,
                opt_str_view(resolved_input),
                opt_str_view(resolved_out),
            ) && error_text(e) == import_onto_itself_text(input@),
        },
{
    if same_file(input, out, resolved_input, resolved_out) {
        return Err(
            ForgeError::Ingest(
                concat3(
                    "refusing to import ",
                    input,
                    " onto itself (--input and --out are the same file)",
                ),
            ),
        );
    }
    Ok(())
}

/// An imported record asks for what its line asks for. The id is the `custom_id`, or the
/// `recordId` where the line has none; the body is the `body`, else the `params`, else the
/// `modelInput`. A method and a path that the line names are kept; without a method it is
/// a POST, and without a path it is the one that the body's shape implies.
pub proof fn law_imported_records_keep_the_request(
    parsed: Result<Json, String>,
    default_endpoint: EndpointKind,
    r: Result<Normalized, ForgeError>,
)
    requires
        call_ensures(normalize_json, (parsed, default_endpoint), r),
        r is Ok,
    ensures
        parsed is Ok,
        ({
            let v = parsed->Ok_0@;
            let record = r->Ok_0.record@;
            let id = r->Ok_0.custom_id@;
            let body = record.get("body"@);
            &&& record.str_at("custom_id"@) == Some(id)
            &&& v.get("custom_id"@) is Some ==> v.str_at("custom_id"@) == Some(id)
            &&& v.get("custom_id"@) is None ==> v.str_at("recordId"@) == Some(id)
            &&& v.get("body"@) is Some ==> body == v.get("body"@)
            &&& v.get("body"@) is None && v.get("params"@) is Some ==> body == v.get("params"@)
            &&& v.get("body"@) is None && v.get("params"@) is None ==> body == v.get("modelInput"@)
            &&& body is Some && body->0 is Object
            &&& v.str_at("method"@) is Some ==> record.str_at("method"@) == v.str_at("method"@)
            &&& v.str_at("method"@) is None ==> record.str_at("method"@) == Some("POST"@)
            &&& v.str_at("url"@) is Some ==> record.str_at("url"@) == v.str_at("url"@)
            &&& v.str_at("url"@) is None ==> record.str_at("url"@) == Some(
                if body->0.get("messages"@) is Some {
                    "/v1/chat/completions"@
                } else if body->0.get("input"@) is Some {
                    "/v1/embeddings"@
                } else if body->0.get("prompt"@) is Some {
                    "/v1/completions"@
                } else {
                    match default_endpoint {
                        EndpointKind::Chat => "/v1/chat/completions"@,
                        EndpointKind::Completions => "/v1/completions"@,
                        EndpointKind::Embeddings => "/v1/embeddings"@,
                        EndpointKind::Messages => "/v1/messages"@,
                    }
                },
            )
        }),
{
    reveal_strlit("body");
    reveal_strlit("custom_id");
    reveal_strlit("method");
    reveal_strlit("url");
    assert("body"@[0] == 'b' && "custom_id"@[0] == 'c' && "method"@[0] == 'm' && "url"@[0] == 'u');
    reveal_with_fuel(crate::json::member, 5);
    let m = r->Ok_0.record@->Object_0;
    let m1 = m.skip(1);
    let m2 = m1.skip(1);
    let m3 = m2.skip(1);
    assert(m1[0] == m[1] && m2[0] == m[2] && m3[0] == m[3]);
}

/// A line is imported just where it can be read, its id is a valid text and its body is an
/// object.
pub proof fn law_usable_lines_are_imported(
    parsed: Result<Json, String>,
    default_endpoint: EndpointKind,
    r: Result<Normalized, ForgeError>,
)
    requires
        call_ensures(normalize_json, (parsed, default_endpoint), r),
    ensures
        parsed is Err ==> r is Err,
        parsed is Ok ==> ({
            let v = parsed->Ok_0@;
            let id = if v.get("custom_id"@) is Some {
                v.str_at("custom_id"@)
            } else {
                v.str_at("recordId"@)
            };
            let body = if v.get("body"@) is Some {
                v.get("body"@)
            } else if v.get("params"@) is Some {
                v.get("params"@)
            } else {
                v.get("modelInput"@)
            };
            r is Ok == (id is Some && valid_id(id->0) && body is Some && body->0 is Object)
        }),
{
}

/// Each line is counted once, as what became of it: written, a duplicate or rejected. A
/// line set aside is kept under its number, as it was read; a line is a duplicate just
/// where its id has been written before.
pub proof fn law_each_line_is_counted_once(before: Import, after: Import, raw: &[u8], r: Imported)
    requires
        before.wf(),
        before.spec_line() < u64::MAX,
        exists|m: &mut Import|
            *m == before && *final(m) == after && #[trigger] call_ensures(Import::line, (m, raw), r),
    ensures
        after.spec_line() == before.spec_line() + 1,
        ({
            let s = before.spec_stats();
            let t = after.spec_stats();
            match r {
                Imported::Blank => t == s && after.spec_seen() == before.spec_seen(),
                Imported::Written(_) => t.lines_read == s.lines_read + 1 && t.written == s.written
                    + 1 && t.rejected == s.rejected && t.duplicates == s.duplicates
                    && after.spec_seen().len() == before.spec_seen().len() + 1,
                Imported::SetAside(x) => t.lines_read == s.lines_read + 1 && t.written == s.written
                    && t.rejected + t.duplicates == s.rejected + s.duplicates + 1 && x.line_no
                    == before.spec_line() + 1 && (text_of(raw@) matches Some(line) ==> x.input@
                    == line) && after.spec_seen() == before.spec_seen(),
            }
        }),
        text_of(raw@) matches Some(line) ==> (r is Blank <==> trim(line).len() == 0),
        text_of(raw@) is None ==> r is SetAside && after.spec_stats().rejected
            == before.spec_stats().rejected + 1,
        before.spec_seen().subset_of(after.spec_seen()),
{
    assert(before.spec_seen() =~= after.spec_seen() || !(r is SetAside));
}

/// The text of a line is read as JSON, and is imported as the JSON is; one that is no JSON
/// is an error.
pub proof fn law_line_texts_are_imported_as_json(
    line: &str,
    endpoint: EndpointKind,
    r: Result<Normalized, ForgeError>,
    parsed: Result<Json, String>,
    read: Result<Normalized, ForgeError>,
)
    requires
        call_ensures(normalize_line, (line, endpoint), r),
        call_ensures(parse_json, (line,), parsed),
        call_ensures(normalize_json, (parsed, endpoint), read),
    ensures
        r is Ok <==> read is Ok,
        r is Ok ==> r->Ok_0.custom_id@ == read->Ok_0.custom_id@ && r->Ok_0.record@
            == read->Ok_0.record@,
        json_parse(line@) is Err ==> r is Err,
{
}

/// The path of a request without one goes by what its payload holds: messages are a chat,
/// an input is for embeddings, a prompt is a completion; otherwise it is the one asked for.
pub proof fn law_paths_go_by_the_payload(
    body: &Json,
    endpoint: EndpointKind,
    r: &'static str,
)
    requires
        call_ensures(infer_url, (body, endpoint), r),
    ensures
        body@.get("messages"@) is Some ==> r@ == "/v1/chat/completions"@,
        body@.get("messages"@) is None && body@.get("input"@) is Some ==> r@ == "/v1/embeddings"@,
        body@.get("messages"@) is None && body@.get("input"@) is None && body@.get("prompt"@)
            is Some ==> r@ == "/v1/completions"@,
        body@.get("messages"@) is None && body@.get("input"@) is None && body@.get("prompt"@)
            is None ==> r@ == match endpoint {
            EndpointKind::Chat => "/v1/chat/completions"@,
            EndpointKind::Completions => "/v1/completions"@,
            EndpointKind::Embeddings => "/v1/embeddings"@,
            EndpointKind::Messages => "/v1/messages"@,
        },
{
}

/// A raw line is a request with an id.
pub open spec fn names(raw: Seq<u8>, endpoint: EndpointKind, id: Seq<char>) -> bool {
    text_of(raw) matches Some(line) && trim(line).len() > 0 && (normalized(
        json_parse(line),
        endpoint,
    ) matches Ok((x, _)) && x == id)
}

/// The ids that have been seen are those that a line has.
proof fn lemma_seen_is_named(lines: Seq<Seq<u8>>, endpoint: EndpointKind)
    ensures
        forall|id: Seq<char>| #[trigger]
            import_run(lines, endpoint).seen.contains(id) <==> exists|k: int|
                0 <= k < lines.len() && names(#[trigger] lines[k], endpoint, id),
    decreases lines.len(),
{
    if lines.len() > 0 {
        let init = lines.drop_last();
        lemma_seen_is_named(init, endpoint);
        assert forall|id: Seq<char>| #[trigger]
            import_run(lines, endpoint).seen.contains(id) <==> exists|k: int|
                0 <= k < lines.len() && names(#[trigger] lines[k], endpoint, id) by {
            if import_run(init, endpoint).seen.contains(id) {
                let k = choose|k: int|
                    0 <= k < init.len() && names(#[trigger] init[k], endpoint, id);
                assert(names(lines[k], endpoint, id));
            }
            if names(lines.last(), endpoint, id) {
                assert(names(lines[lines.len() - 1], endpoint, id));
            }
            if exists|k: int| 0 <= k < lines.len() && names(#[trigger] lines[k], endpoint, id) {
                let k = choose|k: int|
                    0 <= k < lines.len() && names(#[trigger] lines[k], endpoint, id);
                if k < init.len() {
                    assert(names(init[k], endpoint, id));
                }
            }
        }
    }
}

/// No more lines are counted than there are.
proof fn lemma_run_counts(lines: Seq<Seq<u8>>, endpoint: EndpointKind)
    requires
        lines.len() <= u64::MAX,
    ensures
        ({
            let s = import_run(lines, endpoint).stats;
            s.lines_read <= lines.len() && s.written <= s.lines_read && s.rejected <= s.lines_read
                && s.duplicates <= s.lines_read
        }),
    decreases lines.len(),
{
    if lines.len() > 0 {
        lemma_run_counts(lines.drop_last(), endpoint);
    }
}

/// One more line adds to an import what that line comes to: its record, where its id is on
/// no line before; an entry among those set aside, under its number, where it is not or
/// where it is no request; nothing, where it is blank.
pub proof fn law_lines_are_imported_in_turn(
    lines: &[Vec<u8>],
    init: &[Vec<u8>],
    endpoint: EndpointKind,
    before: (ImportStats, Vec<String>, Vec<Reject>),
    r: (ImportStats, Vec<String>, Vec<Reject>),
    line: &str,
    n: Result<Normalized, ForgeError>,
)
    requires
        lines@.len() > 0,
        init@ == lines@.drop_last(),
        text_of(lines@.last()@) == Some(line@),
        call_ensures(import_batch, (init, endpoint), before),
        call_ensures(import_batch, (lines, endpoint), r),
        call_ensures(normalize_line, (line, endpoint), n),
    ensures
        ({
            let known = n is Ok && exists|k: int|
                0 <= k < init@.len() && names((#[trigger] init@[k])@, endpoint, n->Ok_0.custom_id@);
            let filled = trim(line@).len() > 0;
            &&& !filled ==> views(r.1@) == views(before.1@) && reject_views(r.2@) == reject_views(
                before.2@,
            ) && r.0 == before.0
            &&& filled && n is Err ==> views(r.1@) == views(before.1@) && r.2@.len()
                == before.2@.len() + 1 && r.2@.last().line_no == lines@.len()
                && r.2@.last().input@ == line@ && r.0.rejected == before.0.rejected + 1
                && r.0.written == before.0.written
            &&& filled && n is Ok && !known ==> views(r.1@) == views(before.1@).push(
                json_text(n->Ok_0.record@),
            ) && reject_views(r.2@) == reject_views(before.2@) && r.0.written == before.0.written
                + 1
            &&& filled && n is Ok && known ==> views(r.1@) == views(before.1@) && r.2@.len()
                == before.2@.len() + 1 && r.2@.last().line_no == lines@.len()
                && r.0.duplicates == before.0.duplicates + 1
            &&& filled ==> r.0.lines_read == before.0.lines_read + 1
        }),
{
    let all = raw_views(lines@);
    assert(all.drop_last() == raw_views(init@));
    assert(all.last() == lines@.last()@);
    let run = import_run(all.drop_last(), endpoint);
    lemma_seen_is_named(all.drop_last(), endpoint);
    assert(lines.len() == lines@.len());
    lemma_run_counts(all.drop_last(), endpoint);
    assert(reject_views(r.2@).len() == r.2@.len());
    assert(reject_views(before.2@).len() == before.2@.len());
    if n is Ok {
        let id = n->Ok_0.custom_id@;
        if run.seen.contains(id) {
            let k = choose|k: int|
                0 <= k < all.drop_last().len() && names(#[trigger] all.drop_last()[k], endpoint, id);
            assert(all.drop_last()[k] == init@[k]@);
        }
        if exists|k: int| 0 <= k < init@.len() && names((#[trigger] init@[k])@, endpoint, id) {
            let k = choose|k: int|
                0 <= k < init@.len() && names((#[trigger] init@[k])@, endpoint, id);
            assert(all.drop_last()[k] == init@[k]@);
        }
    }
    if r.2@.len() > 0 {
        assert(reject_views(r.2@).last() == reject_view(r.2@.last()));
    }
}

/// The same file is never both read and written; files that are different can be.
pub proof fn law_imports_are_not_onto_themselves(
    input: &str,
    out: &str,
    resolved_input: Option<&str>,
    resolved_out: Option<&str>,
    r: Result<(), ForgeError>,
    same: bool,
)
    requires
        call_ensures(check_import, (input, out, resolved_input, resolved_out), r),
        call_ensures(crate::paths::same_file, (input, out, resolved_input, resolved_out), same),
    ensures
        r is Err <==> same,
        input@ == out@ ==> r is Err,
        resolved_input is Some && resolved_out is Some && resolved_input->0@ == resolved_out->0@
            ==> r is Err,
{
}


} // verus!
