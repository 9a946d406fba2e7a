//! The one error type the whole coordinator speaks.

use vstd::prelude::*;

use crate::text::concat2;

verus! {

/// Errors surfaced by the queue, workers, store, ingest, and the run loop.
#[derive(Debug, Clone, PartialEq, Eq)]
pub enum ForgeError {
    Queue(String),
    Worker(String),
    Store(String),
    Ingest(String),
    Config(String),
    Io(String),
    Json(String),
}

/// The message of an error: the part of the coordinator it came from, and why.
pub open spec fn error_text(e: ForgeError) -> Seq<char> {
    match e {
        ForgeError::Queue(m) => "queue: "@ + m@,
        ForgeError::Worker(m) => "worker: "@ + m@,
        ForgeError::Store(m) => "store: "@ + m@,
        ForgeError::Ingest(m) => "ingest: "@ + m@,
        ForgeError::Config(m) => "config: "@ + m@,
        ForgeError::Io(m) => "io: "@ + m@,
        ForgeError::Json(m) => "json: "@ + m@,
    }
}

impl ForgeError {
    /// The message of this error.
    pub fn to_string(&self) -> (r: String)
        ensures
            r@ == error_text(*self),
    {
        match self {
            ForgeError::Queue(m) => concat2("queue: ", m.as_str()),
            ForgeError::Worker(m) => concat2("worker: ", m.as_str()),
            ForgeError::Store(m) => concat2("store: ", m.as_str()),
            ForgeError::Ingest(m) => concat2("ingest: ", m.as_str()),
            ForgeError::Config(m) => concat2("config: ", m.as_str()),
            ForgeError::Io(m) => concat2("io: ", m.as_str()),
            ForgeError::Json(m) => concat2("json: ", m.as_str()),
        }
    }
}

/// An error says which part it came from, and why.
pub proof fn law_errors_name_their_part(e: &ForgeError, r: String)
    requires
        call_ensures(ForgeError::to_string, (e,), r),
    ensures
        *e matches ForgeError::Queue(m) ==> r@ == "queue: "@ + m@,
        *e matches ForgeError::Worker(m) ==> r@ == "worker: "@ + m@,
        *e matches ForgeError::Store(m) ==> r@ == "store: "@ + m@,
        *e matches ForgeError::Ingest(m) ==> r@ == "ingest: "@ + m@,
        *e matches ForgeError::Config(m) ==> r@ == "config: "@ + m@,
        *e matches ForgeError::Io(m) ==> r@ == "io: "@ + m@,
        *e matches ForgeError::Json(m) ==> r@ == "json: "@ + m@,
{
}

} // verus!
