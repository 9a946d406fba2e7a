//! The batch front door: which handler a request goes to, and who may ask.

use vstd::prelude::*;

use crate::text::{
    after_prefix, ascii_lower, ascii_lower_chars, before_suffix, opt_str_view, opt_view,
    split_char, split_on, split_once_char, split_once_on, str_eq, string_from, strip_prefix_str,
    strip_suffix_str, trim, trim_str, views,
};

verus! {

/// Cap on an uploaded input file, in bytes.
pub const MAX_UPLOAD_BYTES: u64 = 536_870_912;

/// Cap on the body of a request to create a batch, in bytes.
pub const MAX_BATCH_REQUEST_BYTES: u64 = 1_048_576;

/// A body of at most `max` bytes; nothing for a longer one. `data` is what was read of
/// it: all of it, or at least one byte more than `max`.
pub fn read_body_capped(data: &[u8], max: u64) -> (r: Option<Vec<u8>>)
    ensures
        match r {
            Some(b) => data@.len() <= max && b@ == data@,
            None => data@.len() > max,
        },
{
    if data.len() as u64 > max {
        return None;
    }
    let mut out: Vec<u8> = Vec::new();
    let mut i: usize = 0;
    while i < data.len()
        invariant
            i <= data@.len(),
            out@ == data@.take(i as int),
        decreases data@.len() - i,
    {
        out.push(data[i]);
        i = i + 1;
        assert(data@.take(i as int) == data@.take(i - 1).push(data@[i - 1]));
    }
    assert(data@.take(data@.len() as int) == data@);
    Some(out)
}

/// The byte at a position, or zero behind the end.
fn byte_or_zero(a: &[u8], i: usize) -> (r: u8)
    ensures
        r == if i < a@.len() {
            a@[i as int]
        } else {
            0
        },
{
    if i < a.len() {
        a[i]
    } else {
        0
    }
}

/// Compares bytes by accumulating every difference, so that the time taken does not tell
/// where the first one is.
pub fn constant_time_eq(a: &[u8], b: &[u8]) -> (r: bool)
    ensures
        r == (a@ == b@),
{
    let n: usize = if a.len() > b.len() {
        a.len()
    } else {
        b.len()
    };
    let mut diff: u8 = if a.len() != b.len() {
        1
    } else {
        0
    };
    let mut i: usize = 0;
    while i < n
        invariant
            i <= n,
            n == (if a@.len() > b@.len() {
                a@.len()
            } else {
                b@.len()
            }),
            diff == 0 <==> a@.len() == b@.len() && a@.take(i as int) =~= b@.take(i as int),
        decreases n - i,
    {
        let x: u8 = byte_or_zero(a, i);
        let y: u8 = byte_or_zero(b, i);
        let ghost before = diff;
        diff = diff | (x ^ y);
        proof {
            assert(before | (x ^ y) == 0 <==> before == 0 && x == y) by (bit_vector);
            if a@.len() == b@.len() {
                assert(a@.take(i + 1) == a@.take(i as int).push(a@[i as int]));
                assert(b@.take(i + 1) == b@.take(i as int).push(b@[i as int]));
                if a@.take(i + 1) =~= b@.take(i + 1) {
                    assert(a@.take(i + 1)[i as int] == b@.take(i + 1)[i as int]);
                    assert(a@.take(i as int) == a@.take(i + 1).drop_last());
                    assert(b@.take(i as int) == b@.take(i + 1).drop_last());
                }
            }
        }
        i = i + 1;
    }
    proof {
        if a@.len() == b@.len() {
            assert(a@.take(n as int) == a@);
            assert(b@.take(n as int) == b@);
        }
    }
    diff == 0
}

/// The header carries the key.
pub open spec fn carries_key(auth: Option<Seq<char>>, expected: Seq<char>) -> bool {
    match auth {
        Some(a) => match after_prefix(a, "Bearer "@) {
            Some(t) => trim(t) == expected,
            None => false,
        },
        None => false,
    }
}

/// Whether the header carries the key.
pub fn bearer_matches(auth: Option<&str>, expected: &str) -> (r: bool)
    ensures
        r == carries_key(opt_str_view(auth), expected@),
{
    match auth {
        Some(a) => match strip_prefix_str(a, "Bearer ") {
            Some(t) => {
                let key: String = trim_str(t.as_str());
                let same: bool = constant_time_eq(key.as_str().as_bytes(), expected.as_bytes());
                proof {
                    vstd::utf8::encode_utf8_decode_utf8(key@);
                    vstd::utf8::encode_utf8_decode_utf8(expected@);
                }
                same
            },
            None => false,
        },
        None => false,
    }
}

/// The value of the first header with a name, in either case.
pub open spec fn header_in(
    headers: Seq<(Seq<char>, Seq<char>)>,
    field: Seq<char>,
) -> Option<Seq<char>>
    decreases headers.len(),
{
    if headers.len() == 0 {
        None
    } else if ascii_lower(headers[0].0) == ascii_lower(field) {
        Some(headers[0].1)
    } else {
        header_in(headers.skip(1), field)
    }
}

/// The views of headers.
pub open spec fn header_views(headers: Seq<(String, String)>) -> Seq<(Seq<char>, Seq<char>)> {
    headers.map_values(|h: (String, String)| (h.0@, h.1@))
}

fn lower_text(s: &str) -> (r: String)
    ensures
        r@ == ascii_lower(s@),
{
    let lower: Vec<char> = ascii_lower_chars(s);
    assert(lower@.subrange(0, lower@.len() as int) == lower@);
    string_from(lower.as_slice(), 0, lower.len())
}

/// The value of the first header with a name, in either case.
pub fn header_value(headers: &[(String, String)], field: &str) -> (r: Option<String>)
    ensures
        opt_view(r) == header_in(header_views(headers@), field@),
{
    let ghost all = header_views(headers@);
    let wanted: String = lower_text(field);
    let mut i: usize = 0;
    assert(all.skip(0) == all);
    while i < headers.len()
        invariant
            i <= headers@.len(),
            all == header_views(headers@),
            wanted@ == ascii_lower(field@),
            header_in(all, field@) == header_in(all.skip(i as int), field@),
        decreases headers@.len() - i,
    {
        proof {
            assert(all.skip(i as int)[0] == all[i as int]);
            assert(all.skip(i as int).skip(1) == all.skip(i + 1));
        }
        if str_eq(lower_text(headers[i].0.as_str()).as_str(), wanted.as_str()) {
            return Some(headers[i].1.as_str().to_owned());
        }
        i = i + 1;
    }
    None
}

/// What stands before the query of a URL.
pub open spec fn url_path(raw_url: Seq<char>) -> Seq<char> {
    match split_once_char(raw_url, '?') {
        Some((path, _)) => path,
        None => raw_url,
    }
}

/// What stands before the query of a URL.
pub fn path_of(raw_url: &str) -> (r: String)
    ensures
        r@ == url_path(raw_url@),
{
    match split_once_on(raw_url, '?') {
        Some((path, _)) => path,
        None => raw_url.to_owned(),
    }
}

/// The name and the value of one field of a query; a field without `=` has no value.
pub open spec fn field_of(kv: Seq<char>) -> (Seq<char>, Seq<char>) {
    match split_once_char(kv, '=') {
        Some((k, v)) => (k, v),
        None => (kv, Seq::empty()),
    }
}

/// The value of the first field with a name.
pub open spec fn field_in(fields: Seq<Seq<char>>, key: Seq<char>) -> Option<Seq<char>>
    decreases fields.len(),
{
    if fields.len() == 0 {
        None
    } else if field_of(fields[0]).0 == key {
        Some(field_of(fields[0]).1)
    } else {
        field_in(fields.skip(1), key)
    }
}

/// The value of a parameter of a URL's query.
pub open spec fn query_value(raw_url: Seq<char>, key: Seq<char>) -> Option<Seq<char>> {
    match split_once_char(raw_url, '?') {
        Some((_, query)) => field_in(split_char(query, '&'), key),
        None => None,
    }
}

/// The value of a parameter of a URL's query.
pub fn query_param(raw_url: &str, key: &str) -> (r: Option<String>)
    ensures
        opt_view(r) == query_value(raw_url@, key@),
{
    let query: String = match split_once_on(raw_url, '?') {
        Some((_, q)) => q,
        None => {
            return None;
        },
    };
    let fields: Vec<String> = split_on(query.as_str(), '&');
    let ghost all = views(fields@);
    let mut i: usize = 0;
    assert(all.skip(0) == all);
    while i < fields.len()
        invariant
            i <= fields@.len(),
            all == views(fields@),
            query_value(raw_url@, key@) == field_in(all.skip(i as int), key@),
        decreases fields@.len() - i,
    {
        proof {
            assert(all.skip(i as int)[0] == fields@[i as int]@);
            assert(all.skip(i as int).skip(1) == all.skip(i + 1));
        }
        let (k, v): (String, String) = match split_once_on(fields[i].as_str(), '=') {
            Some((k, v)) => (k, v),
            None => (fields[i].as_str().to_owned(), String::new()),
        };
        if str_eq(k.as_str(), key) {
            return Some(v);
        }
        i = i + 1;
    }
    None
}

/// Where a request goes.
#[derive(Debug, Clone, PartialEq, Eq)]
pub enum Route {
    /// Liveness, which needs no key.
    Health,
    /// The key is missing or wrong.
    Unauthorized,
    UploadFile,
    FileContent(String),
    FileInfo(String),
    CreateBatch,
    ListBatches,
    CancelBatch(String),
    GetBatch(String),
    /// There is no such route.
    NotFound,
}

/// The view of a route.
#[verifier::ext_equal]
pub enum RouteView {
    Health,
    Unauthorized,
    UploadFile,
    FileContent(Seq<char>),
    FileInfo(Seq<char>),
    CreateBatch,
    ListBatches,
    CancelBatch(Seq<char>),
    GetBatch(Seq<char>),
    NotFound,
}

impl View for Route {
    type V = RouteView;

    open spec fn view(&self) -> RouteView {
        match self {
            Route::Health => RouteView::Health,
            Route::Unauthorized => RouteView::Unauthorized,
            Route::UploadFile => RouteView::UploadFile,
            Route::FileContent(id) => RouteView::FileContent(id@),
            Route::FileInfo(id) => RouteView::FileInfo(id@),
            Route::CreateBatch => RouteView::CreateBatch,
            Route::ListBatches => RouteView::ListBatches,
            Route::CancelBatch(id) => RouteView::CancelBatch(id@),
            Route::GetBatch(id) => RouteView::GetBatch(id@),
            Route::NotFound => RouteView::NotFound,
        }
    }
}

/// The route of a request for a file.
pub open spec fn file_route(path: Seq<char>) -> Option<RouteView> {
    match after_prefix(path, "/v1/files/"@) {
        Some(rest) => match before_suffix(rest, "/content"@) {
            Some(id) => Some(RouteView::FileContent(id)),
            None => if rest.len() > 0 {
                Some(RouteView::FileInfo(rest))
            } else {
                None
            },
        },
        None => None,
    }
}

/// The route of a request about batches.
pub open spec fn batch_route(method: Seq<char>, path: Seq<char>) -> RouteView {
    if method == "POST"@ && path == "/v1/batches"@ {
        RouteView::CreateBatch
    } else if method == "GET"@ && path == "/v1/batches"@ {
        RouteView::ListBatches
    } else {
        match after_prefix(path, "/v1/batches/"@) {
            Some(rest) => match before_suffix(rest, "/cancel"@) {
                Some(id) => if method == "POST"@ {
                    RouteView::CancelBatch(id)
                } else {
                    RouteView::NotFound
                },
                None => if method == "GET"@ && rest.len() > 0 {
                    RouteView::GetBatch(rest)
                } else {
                    RouteView::NotFound
                },
            },
            None => RouteView::NotFound,
        }
    }
}

/// The route of a request whose key, if one is asked for, is right.
pub open spec fn open_route(method: Seq<char>, path: Seq<char>) -> RouteView {
    if method == "POST"@ && path == "/v1/files"@ {
        RouteView::UploadFile
    } else if method == "GET"@ && file_route(path) is Some {
        file_route(path)->0
    } else {
        batch_route(method, path)
    }
}

/// The route of a request: liveness is open to all, everything else asks for the key if
/// there is one.
pub open spec fn route_of(
    method: Seq<char>,
    raw_url: Seq<char>,
    auth: Option<Seq<char>>,
    api_key: Option<Seq<char>>,
) -> RouteView {
    let path = url_path(raw_url);
    if method == "GET"@ && path == "/v1/health"@ {
        RouteView::Health
    } else if api_key is Some && !carries_key(auth, api_key->0) {
        RouteView::Unauthorized
    } else {
        open_route(method, path)
    }
}

fn route_file(path: &str) -> (r: Option<Route>)
    ensures
        match r {
            Some(x) => file_route(path@) == Some(x@),
            None => file_route(path@) is None,
        },
{
    match strip_prefix_str(path, "/v1/files/") {
        Some(rest) => match strip_suffix_str(rest.as_str(), "/content") {
            Some(id) => Some(Route::FileContent(id)),
            None => {
                if rest.as_str().is_empty() {
                    None
                } else {
                    Some(Route::FileInfo(rest))
                }
            },
        },
        None => None,
    }
}

fn route_batch(post: bool, get: bool, path: &str, Ghost(method): Ghost<Seq<char>>) -> (r: Route)
    requires
        post == (method == "POST"@),
        get == (method == "GET"@),
    ensures
        r@ == batch_route(method, path@),
{
    if str_eq(path, "/v1/batches") {
        if post {
            return Route::CreateBatch;
        }
        if get {
            return Route::ListBatches;
        }
    }
    match strip_prefix_str(path, "/v1/batches/") {
        Some(rest) => match strip_suffix_str(rest.as_str(), "/cancel") {
            Some(id) => {
                if post {
                    Route::CancelBatch(id)
                } else {
                    Route::NotFound
                }
            },
            None => {
                if get && !rest.as_str().is_empty() {
                    Route::GetBatch(rest)
                } else {
                    Route::NotFound
                }
            },
        },
        None => Route::NotFound,
    }
}

/// The route of a request.
pub fn route_request(
    method: &str,
    raw_url: &str,
    auth: Option<&str>,
    api_key: Option<&str>,
) -> (r: Route)
    ensures
        r@ == route_of(method@, raw_url@, opt_str_view(auth), opt_str_view(api_key)),
{
    let path: String = path_of(raw_url);
    let post: bool = str_eq(method, "POST");
    let get: bool = str_eq(method, "GET");
    if get && str_eq(path.as_str(), "/v1/health") {
        return Route::Health;
    }
    if let Some(key) = api_key {
        if !bearer_matches(auth, key) {
            return Route::Unauthorized;
        }
    }
    if post && str_eq(path.as_str(), "/v1/files") {
        return Route::UploadFile;
    }
    if get {
        if let Some(r) = route_file(path.as_str()) {
            return r;
        }
    }
    route_batch(post, get, path.as_str(), Ghost(method@))
}

/// With a key configured, a request without it reaches nothing but liveness.
pub proof fn law_key_guards_everything_but_health(
    method: Seq<char>,
    raw_url: Seq<char>,
    auth: Option<Seq<char>>,
    key: Seq<char>,
)
    requires
        !carries_key(auth, key),
    ensures
        route_of(method, raw_url, auth, Some(key)) is Health || route_of(
            method,
            raw_url,
            auth,
            Some(key),
        ) is Unauthorized,
{
}

/// Without a key configured, no request is refused for one.
pub proof fn law_open_server_refuses_nobody(
    method: Seq<char>,
    raw_url: Seq<char>,
    auth: Option<Seq<char>>,
)
    ensures
        !(route_of(method, raw_url, auth, None) is Unauthorized),
{
    let path = url_path(raw_url);
    if let Some(r) = file_route(path) {
        assert(!(r is Unauthorized));
    }
}

proof fn lemma_after_prefix(prefix: Seq<char>, rest: Seq<char>)
    ensures
        after_prefix(prefix + rest, prefix) == Some(rest),
{
    assert((prefix + rest).take(prefix.len() as int) =~= prefix);
    assert((prefix + rest).skip(prefix.len() as int) =~= rest);
}

proof fn lemma_before_suffix(rest: Seq<char>, suffix: Seq<char>)
    ensures
        before_suffix(rest + suffix, suffix) == Some(rest),
{
    let s = rest + suffix;
    assert(s.skip(s.len() - suffix.len()) =~= suffix);
    assert(s.take(s.len() - suffix.len()) =~= rest);
}

/// A URL asks for a path: it is the path, or the path with a query behind it.
pub open spec fn asks_for(raw_url: Seq<char>, path: Seq<char>) -> bool {
    ||| raw_url == path
    ||| exists|query: Seq<char>| raw_url == #[trigger] (path + seq!['?'] + query)
}

proof fn lemma_url_path(raw_url: Seq<char>, path: Seq<char>)
    requires
        asks_for(raw_url, path),
        !path.contains('?'),
    ensures
        url_path(raw_url) == path,
{
    crate::text::lemma_first_index(raw_url, '?');
    let i = crate::text::first_index(raw_url, '?') as int;
    if raw_url == path {
        if i < raw_url.len() {
            assert(path.contains(raw_url[i]));
        }
    } else {
        let query = choose|query: Seq<char>| raw_url == #[trigger] (path + seq!['?'] + query);
        assert(raw_url[path.len() as int] == '?');
        assert(i <= path.len());
        if i < path.len() {
            assert(path[i] == raw_url[i]);
            assert(path.contains(path[i]));
        }
        assert(raw_url.take(i) =~= path);
    }
}

/// A client may come in: no key is asked for, or it presents the key as a bearer token.
pub open spec fn let_in(auth: Option<Seq<char>>, api_key: Option<Seq<char>>) -> bool {
    api_key matches Some(k) ==> (auth matches Some(a) && exists|t: Seq<char>|
        a == #[trigger] ("Bearer "@ + t) && trim(t) == k)
}

proof fn lemma_let_in(auth: Option<Seq<char>>, key: Seq<char>)
    ensures
        let_in(auth, Some(key)) == carries_key(auth, key),
{
    if let Some(a) = auth {
        if carries_key(auth, key) {
            let t = after_prefix(a, "Bearer "@)->0;
            assert(a =~= "Bearer "@ + t);
        }
        if let_in(auth, Some(key)) {
            let t = choose|t: Seq<char>| a == #[trigger] ("Bearer "@ + t) && trim(t) == key;
            lemma_after_prefix("Bearer "@, t);
        }
    }
}

/// Whoever may come in reaches what the API documents, whatever the query: files are
/// uploaded, shown and fetched by id, and batches are created, listed, shown and cancelled
/// by id. Whoever may not is turned away.
#[verifier::rlimit(40)]
pub proof fn law_routes_reach_what_is_documented(
    method: &str,
    raw_url: &str,
    auth: Option<&str>,
    api_key: Option<&str>,
    id: Seq<char>,
    r: Route,
)
    requires
        call_ensures(route_request, (method, raw_url, auth, api_key), r),
        id.len() > 0,
        !id.contains('?'),
        !id.contains('/'),
    ensures
        method@ == "GET"@ && asks_for(raw_url@, "/v1/health"@) ==> r is Health,
        !let_in(opt_str_view(auth), opt_str_view(api_key)) ==> r is Health || r is Unauthorized,
        let_in(opt_str_view(auth), opt_str_view(api_key)) ==> {
            &&& !(r is Unauthorized)
            &&& method@ == "POST"@ && asks_for(raw_url@, "/v1/files"@) ==> r is UploadFile
            &&& method@ == "GET"@ && asks_for(raw_url@, "/v1/files/"@ + id) ==> (
            r matches Route::FileInfo(x) && x@ == id)
            &&& method@ == "GET"@ && asks_for(raw_url@, "/v1/files/"@ + (id + "/content"@)) ==> (
            r matches Route::FileContent(x) && x@ == id)
            &&& method@ == "POST"@ && asks_for(raw_url@, "/v1/batches"@) ==> r is CreateBatch
            &&& method@ == "GET"@ && asks_for(raw_url@, "/v1/batches"@) ==> r is ListBatches
            &&& method@ == "GET"@ && asks_for(raw_url@, "/v1/batches/"@ + id) ==> (
            r matches Route::GetBatch(x) && x@ == id)
            &&& method@ == "POST"@ && asks_for(raw_url@, "/v1/batches/"@ + (id + "/cancel"@)) ==> (
            r matches Route::CancelBatch(x) && x@ == id)
        },
{
    reveal_strlit("/v1/health");
    reveal_strlit("/v1/files");
    reveal_strlit("/v1/files/");
    reveal_strlit("/v1/batches");
    reveal_strlit("/v1/batches/");
    reveal_strlit("/content");
    reveal_strlit("/cancel");
    reveal_strlit("GET");
    reveal_strlit("POST");
    assert("GET"@.len() == 3 && "POST"@.len() == 4);
    if let Some(k) = opt_str_view(api_key) {
        lemma_let_in(opt_str_view(auth), k);
    }
    let u = raw_url@;
    let f = "/v1/files/"@;
    let b = "/v1/batches/"@;
    lemma_plain_id(id);
    if asks_for(u, "/v1/health"@) {
        lemma_url_path(u, "/v1/health"@);
    }
    law_open_server_refuses_nobody(method@, u, opt_str_view(auth));
    if asks_for(u, "/v1/files"@) {
        lemma_url_path(u, "/v1/files"@);
    }
    if asks_for(u, f + id) {
        lemma_url_path(u, f + id);
        lemma_after_prefix(f, id);
        assert((f + id)[4] == 'f');
    }
    if asks_for(u, f + (id + "/content"@)) {
        lemma_url_path(u, f + (id + "/content"@));
        lemma_after_prefix(f, id + "/content"@);
        lemma_before_suffix(id, "/content"@);
        assert((f + (id + "/content"@))[4] == 'f');
    }
    if asks_for(u, "/v1/batches"@) {
        lemma_url_path(u, "/v1/batches"@);
        assert("/v1/batches"@[4] == 'b');
        assert(file_route("/v1/batches"@) is None);
    }
    if asks_for(u, b + id) {
        let p = b + id;
        lemma_url_path(u, p);
        lemma_after_prefix(b, id);
        assert(p[4] == 'b' && p.len() > 12);
        lemma_not_a_file(p);
    }
    if asks_for(u, b + (id + "/cancel"@)) {
        let p = b + (id + "/cancel"@);
        lemma_url_path(u, p);
        lemma_after_prefix(b, id + "/cancel"@);
        lemma_before_suffix(id, "/cancel"@);
        assert(p[4] == 'b' && p.len() > 12);
    }
}

/// A path whose fifth character is no `f` is not that of a file.
proof fn lemma_not_a_file(path: Seq<char>)
    requires
        path.len() > 4,
        path[4] != 'f',
    ensures
        file_route(path) is None,
{
    reveal_strlit("/v1/files/");
    if after_prefix(path, "/v1/files/"@) is Some {
        assert(path.take("/v1/files/"@.len() as int)[4] == "/v1/files/"@[4]);
    }
}

/// An id without a slash ends in no action, and makes no query of a path.
proof fn lemma_plain_id(id: Seq<char>)
    requires
        !id.contains('?'),
        !id.contains('/'),
    ensures
        before_suffix(id, "/content"@) is None,
        before_suffix(id, "/cancel"@) is None,
        !("/v1/health"@.contains('?')),
        !("/v1/files"@.contains('?')),
        !("/v1/batches"@.contains('?')),
        !(("/v1/files/"@ + id).contains('?')),
        !(("/v1/files/"@ + (id + "/content"@)).contains('?')),
        !(("/v1/batches/"@ + id).contains('?')),
        !(("/v1/batches/"@ + (id + "/cancel"@)).contains('?')),
{
    reveal_strlit("/v1/health");
    reveal_strlit("/v1/files");
    reveal_strlit("/v1/files/");
    reveal_strlit("/v1/batches");
    reveal_strlit("/v1/batches/");
    reveal_strlit("/content");
    reveal_strlit("/cancel");
    if before_suffix(id, "/content"@) is Some {
        assert(id.skip(id.len() - 8)[0] == "/content"@[0]);
        assert(id[id.len() - 8] == '/');
    }
    if before_suffix(id, "/cancel"@) is Some {
        assert(id.skip(id.len() - 7)[0] == "/cancel"@[0]);
        assert(id[id.len() - 7] == '/');
    }
}

/// The value of a query parameter is what stands behind its name and `=`.
pub proof fn law_query_parameters_are_read_by_name(
    raw_url: &str,
    key: &str,
    r: Option<String>,
    path: Seq<char>,
    value: Seq<char>,
)
    requires
        call_ensures(query_param, (raw_url, key), r),
        raw_url@ == path + seq!['?'] + (key@ + seq!['='] + value),
        !path.contains('?'),
        !key@.contains('='),
        !key@.contains('&'),
        !value.contains('&'),
    ensures
        r matches Some(v) && v@ == value,
{
    let q = key@ + seq!['='] + value;
    crate::text::lemma_first_index(raw_url@, '?');
    let i = crate::text::first_index(raw_url@, '?') as int;
    assert(raw_url@[path.len() as int] == '?');
    if i < path.len() {
        assert(path[i] == raw_url@[i]);
        assert(path.contains(path[i]));
    }
    assert(raw_url@.skip(i + 1) =~= q);
    crate::text::lemma_first_index(q, '&');
    let a = crate::text::first_index(q, '&') as int;
    if a < q.len() {
        if a < key@.len() {
            assert(key@[a] == q[a]);
        } else if a > key@.len() {
            assert(value[a - key@.len() - 1] == q[a]);
        }
    }
    crate::text::lemma_first_index(q, '=');
    let e = crate::text::first_index(q, '=') as int;
    assert(q[key@.len() as int] == '=');
    if e < key@.len() {
        assert(key@[e] == q[e]);
    }
    assert(q.take(e) =~= key@);
    assert(q.skip(e + 1) =~= value);
    assert(split_char(q, '&')[0] == q);
}

/// A header is found by its name, in whatever case; the first of that name counts.
pub proof fn law_headers_are_found_by_name(headers: &[(String, String)], field: &str, r: Option<String>, i: int)
    requires
        call_ensures(header_value, (headers, field), r),
        0 <= i < headers@.len(),
        ascii_lower(headers@[i].0@) == ascii_lower(field@),
        forall|k: int|
            0 <= k < i ==> ascii_lower((#[trigger] headers@[k]).0@) != ascii_lower(field@),
    ensures
        r matches Some(v) && v@ == headers@[i].1@,
{
    lemma_header_in(header_views(headers@), field@, i);
}

proof fn lemma_header_in(headers: Seq<(Seq<char>, Seq<char>)>, field: Seq<char>, i: int)
    requires
        0 <= i < headers.len(),
        ascii_lower(headers[i].0) == ascii_lower(field),
        forall|k: int|
            0 <= k < i ==> ascii_lower((#[trigger] headers[k]).0) != ascii_lower(field),
    ensures
        header_in(headers, field) == Some(headers[i].1),
    decreases i,
{
    if i > 0 {
        assert(ascii_lower(headers[0].0) != ascii_lower(field));
        let rest = headers.skip(1);
        assert(rest[i - 1] == headers[i]);
        assert forall|k: int| 0 <= k < i - 1 implies ascii_lower((#[trigger] rest[k]).0)
            != ascii_lower(field) by {
            assert(rest[k] == headers[k + 1]);
        }
        lemma_header_in(rest, field, i - 1);
    }
}

/// A body is taken whole up to the cap, and not at all beyond it; an upload may have half
/// a gibibyte, a request one mebibyte.
pub proof fn law_bodies_are_capped(data: &[u8], max: u64, r: Option<Vec<u8>>)
    requires
        call_ensures(read_body_capped, (data, max), r),
    ensures
        r is Some <==> data@.len() <= max,
        r matches Some(b) ==> b@ == data@,
        MAX_UPLOAD_BYTES == 512 * 1024 * 1024,
        MAX_BATCH_REQUEST_BYTES == 1024 * 1024,
{
}

/// A key is carried just by a header that is the word, and the key behind it, with white
/// space around at most; keys are equal just where all their bytes are.
pub proof fn law_keys_are_carried_by_bearers(
    auth: Option<&str>,
    expected: &str,
    r: bool,
    a: &[u8],
    b: &[u8],
    same: bool,
)
    requires
        call_ensures(bearer_matches, (auth, expected), r),
        call_ensures(constant_time_eq, (a, b), same),
    ensures
        auth is None ==> !r,
        auth matches Some(h) ==> h@ == "Bearer "@ + expected@ && trim(expected@) == expected@ ==> r,
        r ==> auth is Some && auth->0@.len() >= 7 && auth->0@.take(7) == "Bearer "@ && trim(
            auth->0@.skip(7),
        ) == expected@,
        same <==> a@.len() == b@.len() && forall|i: int|
            0 <= i < a@.len() ==> #[trigger] a@[i] == b@[i],
{
    reveal_strlit("Bearer ");
    if auth is Some {
        let h = auth->0@;
        if h == "Bearer "@ + expected@ {
            assert(h.take(7) == "Bearer "@);
            assert(h.skip(7) == expected@);
        }
    }
    if a@.len() == b@.len() && forall|i: int| 0 <= i < a@.len() ==> #[trigger] a@[i] == b@[i] {
        assert(a@ == b@);
    }
}

/// The path of a request ends before its query.
pub proof fn law_paths_end_before_the_query(raw_url: &str, r: String, path: Seq<char>, rest: Seq<char>)
    requires
        call_ensures(path_of, (raw_url,), r),
        !path.contains('?'),
    ensures
        raw_url@ == path ==> r@ == path,
        raw_url@ == path.push('?') + rest ==> r@ == path,
{
    let i = path.len() as int;
    if raw_url@ == path {
        assert forall|j: int| 0 <= j < i implies raw_url@[j] != '?' by {
            assert(path.contains(path[j]));
        }
        crate::text::lemma_first_index_unique(raw_url@, '?', i);
        assert(raw_url@.take(i) == path);
    }
    if raw_url@ == path.push('?') + rest {
        assert forall|j: int| 0 <= j < i implies raw_url@[j] != '?' by {
            assert(path.contains(path[j]));
            assert(raw_url@[j] == path[j]);
        }
        assert(raw_url@[i] == '?');
        crate::text::lemma_first_index_unique(raw_url@, '?', i);
        assert(raw_url@.take(i) == path);
    }
}


} // verus!
