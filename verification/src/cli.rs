//! What the command line decides before and after a run: where its files go, how its
//! fleet is configured, and what its reports say.

use vstd::prelude::*;

use crate::duration::Duration;
use crate::retry::RetryPolicy;
use crate::run::RunConfig;
use crate::text::{
    chars_of, concat2, concat3, decimal, decimal_of, find_from, occurs_at, opt_str_view, opt_view,
    split_char, split_on, str_eq, string_from, views,
};
use crate::types::{EndpointKind, EngineHint, WorkerSpec};
use crate::validate::ResponseCheck;

verus! {

/// A path beside another: `results.jsonl` and `.reject.jsonl` make
/// `results.jsonl.reject.jsonl`.
pub fn sibling(base: &str, suffix: &str) -> (r: String)
    ensures
        r@ == base@ + suffix@,
{
    concat2(base, suffix)
}

/// A character of a URL's scheme.
pub open spec fn scheme_char(c: char) -> bool {
    ('a' <= c <= 'z') || ('A' <= c <= 'Z') || ('0' <= c <= '9') || c == '+' || c == '-' || c == '.'
}

/// `i` is where the first `://` stands.
pub open spec fn scheme_ends_at(s: Seq<char>, i: int) -> bool {
    &&& occurs_at(s, "://"@, i)
    &&& forall|j: int| 0 <= j < i ==> !#[trigger] occurs_at(s, "://"@, j)
}

/// A scheme of at least one character stands before the first `://`.
pub open spec fn names_object_store(s: Seq<char>) -> bool {
    exists|i: int| #[trigger]
        scheme_ends_at(s, i) && i > 0 && forall|k: int| 0 <= k < i ==> scheme_char(#[trigger] s[k])
}

/// Whether an output names an object store rather than a local path.
pub fn is_object_url(out: &str) -> (r: bool)
    ensures
        r == names_object_store(out@),
{
    let cs: Vec<char> = chars_of(out);
    let pat: Vec<char> = chars_of("://");
    match find_from(cs.as_slice(), pat.as_slice(), 0) {
        Some(i) => {
            assert(scheme_ends_at(out@, i as int));
            assert forall|x: int| scheme_ends_at(out@, x) implies x == i by {
                if x < i {
                    assert(occurs_at(out@, "://"@, x));
                } else if x > i {
                    assert(occurs_at(out@, "://"@, i as int));
                }
            }
            let mut k: usize = 0;
            while k < i
                invariant
                    k <= i <= cs@.len(),
                    cs@ == out@,
                    forall|j: int| 0 <= j < k ==> scheme_char(#[trigger] out@[j]),
                    forall|x: int| scheme_ends_at(out@, x) ==> x == i,
                decreases i - k,
            {
                let c: char = cs[k];
                if !(('a' <= c && c <= 'z') || ('A' <= c && c <= 'Z') || ('0' <= c && c <= '9') || c
                    == '+' || c == '-' || c == '.') {
                    assert(!scheme_char(out@[k as int]));
                    return false;
                }
                k = k + 1;
            }
            i > 0
        },
        None => {
            assert forall|x: int| !scheme_ends_at(out@, x) by {
                if scheme_ends_at(out@, x) {
                    assert(occurs_at(out@, "://"@, x));
                }
            }
            false
        },
    }
}

/// The message of a build that cannot write to an object store.
pub open spec fn no_object_store_text(out: Seq<char>) -> Seq<char> {
    "object-store output ("@ + out
        + ") needs a `forge` built with `--features object_store`; the default binary writes local JSONL only"@
}

/// Refuses an output in an object store where the build has none.
pub fn ensure_object_store_build(out: &str, object_out: bool, built: bool) -> (r: Result<(), String>)
    ensures
        match r {
            Ok(_) => !object_out || built,
            Err(e) => object_out && !built && e@ == no_object_store_text(out@),
        },
{
    if object_out && !built {
        return Err(
            concat3(
                "object-store output (",
                out,
                ") needs a `forge` built with `--features object_store`; the default binary writes local JSONL only",
            ),
        );
    }
    Ok(())
}

/// Where the rejected lines of a run go: beside its results, or beside the checkpoint
/// where the results are in an object store.
pub fn reject_path(out: &str, checkpoint: &str) -> (r: String)
    ensures
        r@ == (if names_object_store(out@) {
            checkpoint@
        } else {
            out@
        }) + ".reject.jsonl"@,
{
    if is_object_url(out) {
        sibling(checkpoint, ".reject.jsonl")
    } else {
        sibling(out, ".reject.jsonl")
    }
}

/// A part of a path that names something.
pub open spec fn names_something(part: Seq<char>) -> bool {
    part.len() > 0 && part != "."@
}

/// The last part of a path that names something.
pub open spec fn last_part(parts: Seq<Seq<char>>) -> Option<Seq<char>>
    decreases parts.len(),
{
    if parts.len() == 0 {
        None
    } else if names_something(parts.last()) {
        Some(parts.last())
    } else {
        last_part(parts.drop_last())
    }
}

/// The name of the file at a path; none for one that ends in `..` or names nothing.
pub open spec fn path_file_name(path: Seq<char>) -> Option<Seq<char>> {
    match last_part(split_char(path, '/')) {
        Some(n) => if n == ".."@ {
            None
        } else {
            Some(n)
        },
        None => None,
    }
}

/// Where the last `c` stands.
pub open spec fn last_index(s: Seq<char>, c: char) -> Option<nat>
    decreases s.len(),
{
    if s.len() == 0 {
        None
    } else if s.last() == c {
        Some((s.len() - 1) as nat)
    } else {
        last_index(s.drop_last(), c)
    }
}

/// A file's name without its extension. A dot at the start begins none.
pub open spec fn stem(name: Seq<char>) -> Seq<char> {
    match last_index(name, '.') {
        Some(i) => if i == 0 {
            name
        } else {
            name.take(i as int)
        },
        None => name,
    }
}

/// A character as part of an object's key.
pub open spec fn key_char(c: char) -> char {
    if ('a' <= c <= 'z') || ('A' <= c <= 'Z') || ('0' <= c <= '9') || c == '-' || c == '_' {
        c
    } else {
        '_'
    }
}

/// The job that a checkpoint's path names.
pub open spec fn job_of(path: Seq<char>) -> Seq<char> {
    let cleaned = match path_file_name(path) {
        Some(n) => stem(n).map_values(|c: char| key_char(c)),
        None => "forge"@,
    };
    if cleaned.len() == 0 {
        "forge"@
    } else {
        cleaned
    }
}

fn file_name_of(path: &str) -> (r: Option<String>)
    ensures
        opt_view(r) == path_file_name(path@),
{
    let parts: Vec<String> = split_on(path, '/');
    let ghost all = views(parts@);
    let mut i: usize = parts.len();
    assert(all.take(all.len() as int) == all);
    while i > 0
        invariant
            i <= parts@.len(),
            all == views(parts@),
            all == split_char(path@, '/'),
            last_part(all) == last_part(all.take(i as int)),
        decreases i,
    {
        let part: &str = parts[i - 1].as_str();
        proof {
            assert(all.take(i as int).last() == part@);
            assert(all.take(i as int).drop_last() == all.take(i - 1));
        }
        if !part.is_empty() && !str_eq(part, ".") {
            if str_eq(part, "..") {
                return None;
            }
            return Some(part.to_owned());
        }
        i = i - 1;
    }
    None
}

fn stem_chars(name: &str) -> (r: Vec<char>)
    ensures
        r@ == stem(name@),
{
    let cs: Vec<char> = chars_of(name);
    let mut i: usize = cs.len();
    assert(cs@.take(cs@.len() as int) == cs@);
    while i > 0
        invariant
            i <= cs@.len(),
            cs@ == name@,
            last_index(name@, '.') == last_index(name@.take(i as int), '.'),
        decreases i,
    {
        proof {
            assert(name@.take(i as int).last() == cs@[i - 1]);
            assert(name@.take(i as int).drop_last() == name@.take(i - 1));
        }
        if cs[i - 1] == '.' {
            let at: usize = i - 1;
            if at == 0 {
                return cs;
            }
            let mut out: Vec<char> = Vec::new();
            let mut k: usize = 0;
            while k < at
                invariant
                    k <= at < cs@.len(),
                    out@ == cs@.take(k as int),
                decreases at - k,
            {
                out.push(cs[k]);
                k = k + 1;
                assert(cs@.take(k as int) == cs@.take(k - 1).push(cs@[k - 1]));
            }
            return out;
        }
        i = i - 1;
    }
    cs
}

/// A stable id for the job of a checkpoint: its file's stem, made safe for an object's
/// key. The same checkpoint always gives the same id.
pub fn object_job_id(checkpoint: &str) -> (r: String)
    ensures
        r@ == job_of(checkpoint@),
{
    let name: String = match file_name_of(checkpoint) {
        Some(n) => n,
        None => {
            assert("forge"@.len() > 0) by {
                reveal_strlit("forge");
            }
            return "forge".to_owned();
        },
    };
    let cs: Vec<char> = stem_chars(name.as_str());
    let mut out: Vec<char> = Vec::new();
    let mut i: usize = 0;
    while i < cs.len()
        invariant
            i <= cs@.len(),
            out@ == cs@.take(i as int).map_values(|c: char| key_char(c)),
        decreases cs@.len() - i,
    {
        let c: char = cs[i];
        let k: char = if ('a' <= c && c <= 'z') || ('A' <= c && c <= 'Z') || ('0' <= c && c <= '9')
            || c == '-' || c == '_' {
            c
        } else {
            '_'
        };
        out.push(k);
        i = i + 1;
        assert(cs@.take(i as int).map_values(|c: char| key_char(c)) == cs@.take(i - 1).map_values(
            |c: char| key_char(c),
        ).push(key_char(cs@[i - 1])));
    }
    assert(cs@.take(cs@.len() as int) == cs@);
    if out.len() == 0 {
        "forge".to_owned()
    } else {
        assert(out@.subrange(0, out@.len() as int) == out@);
        string_from(out.as_slice(), 0, out.len())
    }
}

/// The id of a job is never empty and safe for an object's key.
pub proof fn law_job_ids_are_safe(path: Seq<char>)
    ensures
        job_of(path).len() > 0,
        forall|i: int| 0 <= i < job_of(path).len() ==> key_char(#[trigger] job_of(path)[i]) == job_of(path)[i],
{
    reveal_strlit("forge");
}

/// Where a resumed run writes, and whether a path that was given is ignored.
pub struct ResumeOut {
    pub out: String,
    /// The path that was given is another than the recorded one.
    pub ignored: bool,
}

/// The message of a checkpoint that does not say where its run writes.
pub open spec fn no_output_text() -> Seq<char> {
    "checkpoint has no recorded output path (created before job metadata) — pass --out"@
}

/// Where a resumed run writes: where the original run wrote, since what it wrote is there
/// to be found again. The path that is given counts only where none was recorded.
pub fn resolve_resume_out(recorded: Option<String>, supplied: Option<&str>) -> (r: Result<
    ResumeOut,
    String,
>)
    ensures
        match r {
            Ok(x) => match (opt_view(recorded), opt_str_view(supplied)) {
                (Some(p), s) => x.out@ == p && x.ignored == (s is Some && s->0 != p),
                (None, Some(s)) => x.out@ == s && !x.ignored,
                (None, None) => false,
            },
            Err(e) => recorded is None && supplied is None && e@ == no_output_text(),
        },
{
    match recorded {
        Some(p) => {
            let ignored: bool = match supplied {
                Some(s) => !str_eq(s, p.as_str()),
                None => false,
            };
            Ok(ResumeOut { out: p, ignored })
        },
        None => match supplied {
            Some(s) => Ok(ResumeOut { out: s.to_owned(), ignored: false }),
            None => Err(
                "checkpoint has no recorded output path (created before job metadata) — pass --out".to_owned(),
            ),
        },
    }
}

/// The per-worker cap where nothing says otherwise.
pub const DEFAULT_CONCURRENCY: usize = 256;

/// The per-worker cap of a resumed run: the one that is given, else the one that the
/// original run recorded, else the default.
pub fn resume_concurrency(recorded: Option<usize>, supplied: Option<usize>) -> (r: usize)
    ensures
        r == match (supplied, recorded) {
            (Some(n), _) => n,
            (None, Some(n)) => n,
            (None, None) => DEFAULT_CONCURRENCY,
        },
{
    match supplied {
        Some(n) => n,
        None => match recorded {
            Some(n) => n,
            None => DEFAULT_CONCURRENCY,
        },
    }
}

/// The fleet and how it is driven, as the command line gives it.
#[derive(Debug, Clone)]
pub struct WorkerArgs {
    /// The base URLs of the endpoints.
    pub workers: Vec<String>,
    pub engine: EngineHint,
    pub endpoint: EndpointKind,
    /// The in-flight cap of each worker.
    pub concurrency: usize,
    /// The floor of a lease, in seconds.
    pub lease_secs: u64,
    /// The cap of the adaptive lease, in seconds.
    pub lease_max_secs: u64,
    /// How long to wait for a worker to become ready, in seconds.
    pub ready_grace_secs: u64,
    /// Attempts of an item before it is a dead letter.
    pub max_attempts: u32,
    /// The check of every response.
    pub require: ResponseCheck,
    /// Dispatch in flat rotation.
    pub no_load_aware: bool,
}

/// `s` is the spec of the worker at a position.
pub open spec fn is_worker_spec(s: WorkerSpec, args: WorkerArgs, i: int) -> bool {
    &&& s.worker_id@ == "w"@ + decimal(i as nat)
    &&& s.base_url@ == args.workers@[i]@
    &&& s.endpoint_kind == args.endpoint
    &&& s.concurrency_limit == args.concurrency
    &&& s.engine_hint == args.engine
    &&& s.health_path@ == "/health"@
    &&& !s.ready
    &&& s.rate_limit_per_second is None
}

impl WorkerArgs {
    /// The retry envelope: the attempts that are given, with the default pauses.
    pub fn retry_policy(&self) -> (p: RetryPolicy)
        ensures
            p.max_attempts == self.max_attempts,
            p.base@ == 500_000_000,
            p.cap@ == 30_000_000_000,
    {
        RetryPolicy { max_attempts: self.max_attempts, ..RetryPolicy::default() }
    }

    /// The specs of the workers, in the order of their URLs.
    pub fn worker_specs(&self) -> (r: Vec<WorkerSpec>)
        ensures
            r@.len() == self.workers@.len(),
            forall|i: int| 0 <= i < r@.len() ==> is_worker_spec(#[trigger] r@[i], *self, i),
    {
        let mut out: Vec<WorkerSpec> = Vec::new();
        let mut i: usize = 0;
        while i < self.workers.len()
            invariant
                i <= self.workers@.len(),
                out@.len() == i,
                forall|k: int| 0 <= k < i ==> is_worker_spec(#[trigger] out@[k], *self, k),
            decreases self.workers@.len() - i,
        {
            let id: String = concat2("w", decimal_of(i as u64).as_str());
            let spec: WorkerSpec = WorkerSpec::new(
                id.as_str(),
                self.workers[i].as_str(),
                self.endpoint,
            ).concurrency(self.concurrency).engine_hint(self.engine);
            out.push(spec);
            i = i + 1;
        }
        out
    }

    /// The tunables of the run. The cap of the lease is never below its floor.
    pub fn run_config(&self) -> (c: RunConfig)
        ensures
            c.lease_for@ == self.lease_secs * 1_000_000_000,
            c.lease_max@ == (if self.lease_max_secs < self.lease_secs {
                self.lease_secs
            } else {
                self.lease_max_secs
            }) * 1_000_000_000,
            c.lease_batch == 256,
            c.poll_interval@ == 250_000_000,
            c.ready_grace@ == self.ready_grace_secs * 1_000_000_000,
            c.retry.max_attempts == self.max_attempts,
            c.retry.base@ == 500_000_000,
            c.retry.cap@ == 30_000_000_000,
            c.load_aware == !self.no_load_aware,
    {
        let lease_max: u64 = if self.lease_max_secs < self.lease_secs {
            self.lease_secs
        } else {
            self.lease_max_secs
        };
        RunConfig {
            lease_for: Duration::from_secs(self.lease_secs),
            lease_max: Duration::from_secs(lease_max),
            ready_grace: Duration::from_secs(self.ready_grace_secs),
            retry: self.retry_policy(),
            load_aware: !self.no_load_aware,
            ..RunConfig::default()
        }
    }
}

/// The path beside an output holds the lines that a run rejects: beside a local output, and
/// beside the checkpoint where the output is in an object store.
pub proof fn law_rejects_stand_beside_a_local_file(
    out: &str,
    checkpoint: &str,
    r: String,
    scheme: Seq<char>,
    rest: Seq<char>,
)
    requires
        call_ensures(reject_path, (out, checkpoint), r),
    ensures
        r@ == out@ + ".reject.jsonl"@ || r@ == checkpoint@ + ".reject.jsonl"@,
        (forall|i: int| !occurs_at(out@, "://"@, i)) ==> r@ == out@ + ".reject.jsonl"@,
        out@ == scheme + "://"@ + rest && scheme.len() > 0 && (forall|i: int|
            0 <= i < scheme.len() ==> ('a' <= (#[trigger] scheme[i]) && scheme[i] <= 'z')) ==> r@
            == checkpoint@ + ".reject.jsonl"@,
{
    if out@ == scheme + "://"@ + rest && scheme.len() > 0 && (forall|i: int|
        0 <= i < scheme.len() ==> ('a' <= (#[trigger] scheme[i]) && scheme[i] <= 'z')) {
        lemma_scheme_names_a_store(out@, scheme, rest);
    }
}

proof fn lemma_scheme_names_a_store(out: Seq<char>, scheme: Seq<char>, rest: Seq<char>)
    requires
        out == scheme + "://"@ + rest,
        scheme.len() > 0,
        forall|i: int| 0 <= i < scheme.len() ==> ('a' <= (#[trigger] scheme[i]) && scheme[i] <= 'z'),
    ensures
        names_object_store(out),
{
    reveal_strlit("://");
    let n = scheme.len() as int;
    assert(out.subrange(n, n + 3) =~= "://"@);
    assert(occurs_at(out, "://"@, n));
    assert forall|j: int| 0 <= j < n implies !#[trigger] occurs_at(out, "://"@, j) by {
        if occurs_at(out, "://"@, j) {
            assert(out.subrange(j, j + 3)[0] == "://"@[0]);
            assert(out[j] == ':');
            assert(out[j] == scheme[j]);
        }
    }
    assert(scheme_ends_at(out, n));
    assert forall|k: int| 0 <= k < n implies scheme_char(#[trigger] out[k]) by {
        assert(out[k] == scheme[k]);
    }
}

/// An output names an object store where a scheme stands before `://`, and a local path
/// where there is none.
pub proof fn law_urls_name_object_stores(out: &str, r: bool, scheme: Seq<char>, rest: Seq<char>)
    requires
        call_ensures(is_object_url, (out,), r),
    ensures
        out@ == scheme + "://"@ + rest && scheme.len() > 0 && (forall|i: int|
            0 <= i < scheme.len() ==> ('a' <= (#[trigger] scheme[i]) && scheme[i] <= 'z')) ==> r,
        (forall|i: int| !occurs_at(out@, "://"@, i)) ==> !r,
{
    if out@ == scheme + "://"@ + rest && scheme.len() > 0 && (forall|i: int|
        0 <= i < scheme.len() ==> ('a' <= (#[trigger] scheme[i]) && scheme[i] <= 'z')) {
        lemma_scheme_names_a_store(out@, scheme, rest);
    }
}

/// A build without object stores refuses to write to one, and nothing else.
pub proof fn law_only_missing_builds_refuse(out: &str, object_out: bool, built: bool, r: Result<(), String>)
    requires
        call_ensures(ensure_object_store_build, (out, object_out, built), r),
    ensures
        r is Err <==> object_out && !built,
{
}

/// A resumed run writes where the original wrote, whatever path is given; the path given
/// counts only where none is recorded, and without either there is nowhere to write.
pub proof fn law_resumed_runs_write_where_they_did(
    recorded: Option<String>,
    supplied: Option<&str>,
    r: Result<ResumeOut, String>,
)
    requires
        call_ensures(resolve_resume_out, (recorded, supplied), r),
    ensures
        recorded matches Some(p) ==> (r matches Ok(x) && x.out@ == p@ && (x.ignored <==> (
        supplied matches Some(s) && s@ != p@))),
        recorded is None ==> (supplied matches Some(s) ==> (r matches Ok(x) && x.out@ == s@
            && !x.ignored)),
        recorded is None && supplied is None ==> r is Err,
{
}

/// A resumed run has the concurrency that is given, else the recorded one, else 256.
pub proof fn law_resumed_runs_keep_their_concurrency(recorded: Option<usize>, supplied: Option<usize>, r: usize)
    requires
        call_ensures(resume_concurrency, (recorded, supplied), r),
    ensures
        supplied matches Some(n) ==> r == n,
        supplied is None ==> (recorded matches Some(n) ==> r == n),
        supplied is None && recorded is None ==> r == 256,
{
}

/// Each URL of the command line is a worker, in order, with the endpoint, the engine and
/// the concurrency that are asked for.
pub proof fn law_each_url_is_a_worker(args: &WorkerArgs, r: Vec<WorkerSpec>, i: int)
    requires
        call_ensures(WorkerArgs::worker_specs, (args,), r),
        0 <= i < args.workers@.len(),
    ensures
        r@.len() == args.workers@.len(),
        r@[i].base_url@ == args.workers@[i]@,
        r@[i].worker_id@ == "w"@ + decimal(i as nat),
        r@[i].endpoint_kind == args.endpoint,
        r@[i].engine_hint == args.engine,
        r@[i].concurrency_limit == args.concurrency,
        r@[i].health_path@ == "/health"@,
{
    assert(is_worker_spec(r@[i], *args, i));
}

/// The run is driven as the command line says: its leases, its grace, its attempts and
/// whether loads count; the cap of a lease is never below its floor.
pub proof fn law_runs_are_driven_as_asked(args: &WorkerArgs, c: RunConfig, p: RetryPolicy)
    requires
        call_ensures(WorkerArgs::run_config, (args,), c),
        call_ensures(WorkerArgs::retry_policy, (args,), p),
    ensures
        c.lease_for@ == args.lease_secs * 1_000_000_000,
        c.lease_max@ >= c.lease_for@,
        args.lease_max_secs >= args.lease_secs ==> c.lease_max@ == args.lease_max_secs
            * 1_000_000_000,
        c.ready_grace@ == args.ready_grace_secs * 1_000_000_000,
        c.retry.max_attempts == args.max_attempts,
        p.max_attempts == args.max_attempts,
        c.load_aware <==> !args.no_load_aware,
        c.lease_batch == 256,
        c.poll_interval@ == 250_000_000,
        p.base@ == 500_000_000 && p.cap@ == 30_000_000_000,
{
}

/// A checkpoint at a plain path `dir/name.ext` names the job `name`.
pub proof fn law_jobs_are_named_by_their_checkpoint(
    checkpoint: &str,
    r: String,
    name: Seq<char>,
    ext: Seq<char>,
)
    requires
        call_ensures(object_job_id, (checkpoint,), r),
        checkpoint@ == name + seq!['.'] + ext,
        name.len() > 0,
        forall|i: int| 0 <= i < name.len() ==> ('a' <= (#[trigger] name[i]) && name[i] <= 'z'),
        forall|i: int| 0 <= i < ext.len() ==> ('a' <= (#[trigger] ext[i]) && ext[i] <= 'z'),
    ensures
        r@ == name,
{
    let s = checkpoint@;
    assert forall|i: int| 0 <= i < s.len() implies s[i] != '/' by {
        if i < name.len() {
            assert(s[i] == name[i]);
        } else if i > name.len() {
            assert(s[i] == ext[i - name.len() - 1]);
        }
    }
    crate::text::lemma_first_index(s, '/');
    assert(split_char(s, '/') =~= seq![s]);
    assert(seq![s].last() == s);
    reveal_strlit(".");
    reveal_strlit("..");
    assert(s[0] == name[0]);
    assert("."@[0] == '.' && ".."@[0] == '.');
    lemma_last_dot(name, ext);
    assert(s.take(name.len() as int) =~= name);
    assert(name.map_values(|c: char| key_char(c)) =~= name);
}

proof fn lemma_last_dot(name: Seq<char>, ext: Seq<char>)
    requires
        forall|i: int| 0 <= i < ext.len() ==> (#[trigger] ext[i]) != '.',
    ensures
        last_index(name + seq!['.'] + ext, '.') == Some(name.len()),
    decreases ext.len(),
{
    let s = name + seq!['.'] + ext;
    if ext.len() == 0 {
        assert(s.last() == '.');
    } else {
        assert(s.last() == ext.last());
        assert(s.drop_last() =~= name + seq!['.'] + ext.drop_last());
        assert(ext[ext.len() - 1] != '.');
        lemma_last_dot(name, ext.drop_last());
    }
}

} // verus!
