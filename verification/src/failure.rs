//! Classification of a dead-letter error into a coarse reason, so that a status
//! report can show why items failed.

use vstd::prelude::*;

use crate::text::{ascii_lower, ascii_lower_chars, chars_contain, text_contains};

verus! {

/// A coarse failure category for a dead-lettered item.
#[derive(Debug, Clone, Copy, PartialEq, Eq, Hash, PartialOrd, Ord, Structural)]
pub enum FailureKind {
    /// The response content failed a required check (empty or not JSON).
    Validation,
    /// The engine answered HTTP 429 (over its rate or queue limit).
    RateLimited,
    /// A request timeout (HTTP 408, or a request that timed out on the client).
    Timeout,
    /// A connection-level error: the endpoint was down.
    Connection,
    /// A non-retryable 4xx.
    ClientError,
    /// An exhausted-retry 5xx.
    ServerError,
    /// Anything that did not match a known pattern.
    Other,
}

/// The stable token of a category.
pub open spec fn failure_token(k: FailureKind) -> Seq<char> {
    match k {
        FailureKind::Validation => "validation"@,
        FailureKind::RateLimited => "rate_limited"@,
        FailureKind::Timeout => "timeout"@,
        FailureKind::Connection => "connection"@,
        FailureKind::ClientError => "client_error"@,
        FailureKind::ServerError => "server_error"@,
        FailureKind::Other => "other"@,
    }
}

impl FailureKind {
    /// Stable lowercase token for reports and metric labels.
    pub fn as_str(self) -> (r: &'static str)
        ensures
            r@ == failure_token(self),
    {
        match self {
            FailureKind::Validation => "validation",
            FailureKind::RateLimited => "rate_limited",
            FailureKind::Timeout => "timeout",
            FailureKind::Connection => "connection",
            FailureKind::ClientError => "client_error",
            FailureKind::ServerError => "server_error",
            FailureKind::Other => "other",
        }
    }
}

/// The lower-cased error tells of a client-side transport failure.
pub open spec fn transport_words(e: Seq<char>) -> bool {
    ||| text_contains(e, "request error"@)
    ||| text_contains(e, "connect"@)
    ||| text_contains(e, "connection"@)
    ||| text_contains(e, "refused"@)
    ||| text_contains(e, "reset"@)
    ||| text_contains(e, "dns"@)
}

/// The lower-cased error tells of a timeout.
pub open spec fn timeout_words(e: Seq<char>) -> bool {
    text_contains(e, "timed out"@) || text_contains(e, "timeout"@)
}

/// The category of a lower-cased error.
pub open spec fn failure_of(e: Seq<char>) -> FailureKind {
    if text_contains(e, "validation failed"@) {
        FailureKind::Validation
    } else if text_contains(e, "http 429"@) || text_contains(e, "too many requests"@) {
        FailureKind::RateLimited
    } else if text_contains(e, "http 408"@) {
        FailureKind::Timeout
    } else if text_contains(e, "http 5"@) {
        FailureKind::ServerError
    } else if transport_words(e) {
        if timeout_words(e) {
            FailureKind::Timeout
        } else {
            FailureKind::Connection
        }
    } else if text_contains(e, "(terminal)"@) || text_contains(e, "http 4"@) {
        FailureKind::ClientError
    } else if timeout_words(e) {
        FailureKind::Timeout
    } else {
        FailureKind::Other
    }
}

/// Classify a dead-letter error into a [`FailureKind`]. Order-sensitive: a status
/// code counts only in its `HTTP <code>` context, and a 5xx wins over an incidental
/// word such as the one in `HTTP 504 Gateway Timeout`.
pub fn classify_failure(error: &str) -> (r: FailureKind)
    ensures
        r == failure_of(ascii_lower(error@)),
{
    let lowered: Vec<char> = ascii_lower_chars(error);
    let e: &[char] = lowered.as_slice();
    let transport: bool = chars_contain(e, "request error") || chars_contain(e, "connect")
        || chars_contain(e, "connection") || chars_contain(e, "refused") || chars_contain(
        e,
        "reset",
    ) || chars_contain(e, "dns");
    let timeoutish: bool = chars_contain(e, "timed out") || chars_contain(e, "timeout");
    if chars_contain(e, "validation failed") {
        FailureKind::Validation
    } else if chars_contain(e, "http 429") || chars_contain(e, "too many requests") {
        FailureKind::RateLimited
    } else if chars_contain(e, "http 408") {
        FailureKind::Timeout
    } else if chars_contain(e, "http 5") {
        FailureKind::ServerError
    } else if transport {
        if timeoutish {
            FailureKind::Timeout
        } else {
            FailureKind::Connection
        }
    } else if chars_contain(e, "(terminal)") || chars_contain(e, "http 4") {
        FailureKind::ClientError
    } else if timeoutish {
        FailureKind::Timeout
    } else {
        FailureKind::Other
    }
}

/// A validation failure is reported as one whatever else the message mentions.
pub proof fn law_validation_wins(e: Seq<char>)
    requires
        text_contains(e, "validation failed"@),
    ensures
        failure_of(e) == FailureKind::Validation,
{
}

/// A 5xx answer is a server error even where a timeout or transport word stands in
/// the message.
pub proof fn law_server_status_wins_over_words(e: Seq<char>)
    requires
        text_contains(e, "http 5"@),
        !text_contains(e, "validation failed"@),
        !text_contains(e, "http 429"@),
        !text_contains(e, "too many requests"@),
        !text_contains(e, "http 408"@),
    ensures
        failure_of(e) == FailureKind::ServerError,
{
}

proof fn lemma_lower_holds(s: Seq<char>, a: Seq<char>, word: Seq<char>, b: Seq<char>)
    requires
        s == a + word + b,
    ensures
        text_contains(ascii_lower(s), ascii_lower(word)),
{
    let l = ascii_lower(s);
    let w = ascii_lower(word);
    assert(l.subrange(a.len() as int, (a.len() + word.len()) as int) =~= w);
    assert(crate::text::occurs_at(l, w, a.len() as int));
}

/// An error is put down to what it says, in whatever case and whatever stands around it: a
/// failed check first, then the status that the engine answered with, then the transport,
/// then a refused request.
pub proof fn law_errors_are_put_down_to_their_cause(
    error: &str,
    r: FailureKind,
    a: Seq<char>,
    b: Seq<char>,
)
    requires
        call_ensures(classify_failure, (error,), r),
    ensures
        error@ == a + "validation failed"@ + b ==> r == FailureKind::Validation,
        ({
            let e = ascii_lower(error@);
            let checked = text_contains(e, "validation failed"@);
            let limited = text_contains(e, "http 429"@) || text_contains(e, "too many requests"@);
            let slow = text_contains(e, "http 408"@);
            let server = text_contains(e, "http 5"@);
            let late = text_contains(e, "timed out"@) || text_contains(e, "timeout"@);
            let transport = text_contains(e, "request error"@) || text_contains(e, "connect"@)
                || text_contains(e, "connection"@) || text_contains(e, "refused"@) || text_contains(
                e,
                "reset"@,
            ) || text_contains(e, "dns"@);
            let terminal = text_contains(e, "(terminal)"@) || text_contains(e, "http 4"@);
            &&& error@ == a + "HTTP 429"@ + b && !checked ==> r == FailureKind::RateLimited
            &&& error@ == a + "HTTP 408"@ + b && !checked && !limited ==> r == FailureKind::Timeout
            &&& error@ == a + "HTTP 5"@ + b && !checked && !limited && !slow ==> r
                == FailureKind::ServerError
            &&& error@ == a + "request error: "@ + b && !checked && !limited && !slow && !server && !late
                ==> r == FailureKind::Connection
            &&& error@ == a + "request error: "@ + b && !checked && !limited && !slow && !server && late
                ==> r == FailureKind::Timeout
            &&& error@ == a + " (terminal): "@ + b && !checked && !limited && !slow && !server
                && !transport ==> r == FailureKind::ClientError
            &&& !checked && !limited && !slow && !server && !transport && !terminal && !late ==> r
                == FailureKind::Other
            &&& r == FailureKind::Validation ==> checked
            &&& r == FailureKind::RateLimited ==> limited
            &&& r == FailureKind::ServerError ==> server
            &&& r == FailureKind::Timeout ==> slow || late
            &&& r == FailureKind::Connection ==> transport && !late
            &&& r == FailureKind::ClientError ==> terminal
        }),
{
    let e = ascii_lower(error@);
    reveal_strlit("validation failed");
    reveal_strlit("HTTP 429");
    reveal_strlit("http 429");
    reveal_strlit("HTTP 408");
    reveal_strlit("http 408");
    reveal_strlit("HTTP 5");
    reveal_strlit("http 5");
    reveal_strlit("request error: ");
    reveal_strlit("request error");
    reveal_strlit(" (terminal): ");
    reveal_strlit("(terminal)");
    if error@ == a + "validation failed"@ + b {
        lemma_lower_holds(error@, a, "validation failed"@, b);
        assert(ascii_lower("validation failed"@) =~= "validation failed"@);
    }
    if error@ == a + "HTTP 429"@ + b {
        lemma_lower_holds(error@, a, "HTTP 429"@, b);
        assert(ascii_lower("HTTP 429"@) =~= "http 429"@);
    }
    if error@ == a + "HTTP 408"@ + b {
        lemma_lower_holds(error@, a, "HTTP 408"@, b);
        assert(ascii_lower("HTTP 408"@) =~= "http 408"@);
    }
    if error@ == a + "HTTP 5"@ + b {
        lemma_lower_holds(error@, a, "HTTP 5"@, b);
        assert(ascii_lower("HTTP 5"@) =~= "http 5"@);
    }
    if error@ == a + "request error: "@ + b {
        assert("request error: "@ =~= "request error"@ + seq![':', ' ']);
        assert(error@ =~= a + "request error"@ + (seq![':', ' '] + b));
        lemma_lower_holds(error@, a, "request error"@, seq![':', ' '] + b);
        assert(ascii_lower("request error"@) =~= "request error"@);
    }
    if error@ == a + " (terminal): "@ + b {
        assert(" (terminal): "@ =~= seq![' '] + "(terminal)"@ + seq![':', ' ']);
        assert(error@ =~= (a + seq![' ']) + "(terminal)"@ + (seq![':', ' '] + b));
        lemma_lower_holds(error@, a + seq![' '], "(terminal)"@, seq![':', ' '] + b);
        assert(ascii_lower("(terminal)"@) =~= "(terminal)"@);
    }
}

/// Each category has a token of its own.
pub proof fn law_failure_tokens_are_apart(k: FailureKind, token: &'static str)
    requires
        call_ensures(FailureKind::as_str, (k,), token),
    ensures
        k == FailureKind::Validation ==> token@ == "validation"@,
        k == FailureKind::RateLimited ==> token@ == "rate_limited"@,
        k == FailureKind::Timeout ==> token@ == "timeout"@,
        k == FailureKind::Connection ==> token@ == "connection"@,
        k == FailureKind::ClientError ==> token@ == "client_error"@,
        k == FailureKind::ServerError ==> token@ == "server_error"@,
        k == FailureKind::Other ==> token@ == "other"@,
{
}

} // verus!
