//! Results as objects: the sink for object stores, which have no append.
//!
//! Each terminal result is an object of its own, written only if it is absent, and drops
//! a small marker under a manifest prefix. The ids already written are read back from the
//! markers alone.

use vstd::prelude::*;

use crate::cost::{usage_fits, with_usage, UsageTotals};
use crate::error::{error_text, ForgeError};
use crate::id_set::IdSet;
use crate::item::valid_id;
use crate::json::{json_parse, parse_json, JsonView};
use crate::result::{result_of, result_of_json};
use crate::text::{
    ascii_lower, ascii_lower_chars, chars_of, concat2, concat3, has_prefix, opt_view, quote,
    quoted, str_eq, string_from, views,
};

verus! {

/// Which terminal sub-prefix a result lands in.
#[derive(Debug, Clone, Copy, PartialEq, Eq, Structural)]
pub enum Kind {
    Done,
    Dead,
}

/// The directory of a kind.
pub open spec fn kind_dir(kind: Kind) -> Seq<char> {
    match kind {
        Kind::Done => "done"@,
        Kind::Dead => "dead"@,
    }
}

impl Kind {
    /// The directory of this kind.
    pub fn dir(self) -> (r: &'static str)
        ensures
            r@ == kind_dir(self),
    {
        match self {
            Kind::Done => "done",
            Kind::Dead => "dead",
        }
    }
}

/// The path that `object_store` makes of a text.
pub uninterp spec fn object_path(text: Seq<char>) -> Seq<char>;

/// Characters that an object path takes as they are.
pub open spec fn plain_char(c: char) -> bool {
    ('a' <= c <= 'z') || ('A' <= c <= 'Z') || ('0' <= c <= '9') || c == '-' || c == '_' || c == '.'
}

/// A segment that an object path takes as it is.
pub open spec fn plain_segment(s: Seq<char>) -> bool {
    &&& s.len() > 0
    &&& forall|i: int| 0 <= i < s.len() ==> plain_char(#[trigger] s[i])
    &&& exists|i: int| 0 <= i < s.len() && #[trigger] s[i] != '.'
}

/// A path with one more segment.
pub open spec fn joined(dir: Seq<char>, name: Seq<char>) -> Seq<char> {
    if dir.len() == 0 {
        name
    } else {
        dir + seq!['/'] + name
    }
}

/// A path with two more segments.
pub open spec fn joined_twice(dir: Seq<char>, sub: Seq<char>, name: Seq<char>) -> Seq<char> {
    joined(joined(dir, sub), name)
}

/// A text of three parts with slashes between them.
pub open spec fn slashed(dir: Seq<char>, sub: Seq<char>, name: Seq<char>) -> Seq<char> {
    dir + seq!['/'] + sub + seq!['/'] + name
}

/// `object_store::path::Path::from` on a text, and the path's text. It goes by segments:
/// the last two, where they are of plain characters, stand as they are behind the path
/// of what comes before them.
#[verifier::external_body]
fn path_text(text: &str) -> (r: String)
    ensures
        r@ == object_path(text@),
        forall|dir: Seq<char>, sub: Seq<char>, name: Seq<char>|
            text@ == #[trigger] slashed(dir, sub, name) && plain_segment(sub) && plain_segment(name)
                ==> r@ == joined_twice(object_path(dir), sub, name),
{
    String::from(object_store::path::Path::from(text))
}

/// What `url` makes of a text: the scheme of the URL, or why it is none.
pub uninterp spec fn url_scheme(text: Seq<char>) -> Result<Seq<char>, Seq<char>>;

/// `url::Url::parse` on a text: the scheme of the URL, or the message of the error.
#[verifier::external_body]
fn parse_url(text: &str) -> (r: Result<String, String>)
    ensures
        match r {
            Ok(scheme) => url_scheme(text@).ok() == Some(scheme@),
            Err(why) => url_scheme(text@).err() == Some(why@),
        },
{
    match url::Url::parse(text) {
        Ok(u) => Ok(u.scheme().to_string()),
        Err(e) => Err(e.to_string()),
    }
}

/// The message for a text that is no URL.
pub open spec fn bad_url_text(out: Seq<char>, why: Seq<char>) -> Seq<char> {
    "config: "@ + ("invalid object-store URL "@ + quoted(out) + ": "@ + why)
}

/// What a parsed `--out` gives: its scheme, or an error of the configuration.
pub fn check_out_url(out: &str, parsed: Result<String, String>) -> (r: Result<String, ForgeError>)
    ensures
        match (parsed, r) {
            (Ok(scheme), Ok(x)) => x@ == scheme@,
            (Err(why), Err(e)) => error_text(e) == bad_url_text(out@, why@),
            _ => false,
        },
{
    match parsed {
        Ok(scheme) => Ok(scheme),
        Err(why) => {
            let head: String = concat2("invalid object-store URL ", quote(out).as_str());
            Err(ForgeError::Config(concat3(head.as_str(), ": ", why.as_str())))
        },
    }
}

/// The scheme of an object-store URL.
pub fn parse_out_url(out: &str) -> (r: Result<String, ForgeError>)
    ensures
        match (url_scheme(out@), r) {
            (Ok(scheme), Ok(x)) => x@ == scheme,
            (Err(why), Err(e)) => error_text(e) == bad_url_text(out@, why),
            _ => false,
        },
{
    check_out_url(out, parse_url(out))
}

/// The schemes of local stores, which refuse options that they do not know.
pub open spec fn is_local_scheme(scheme: Seq<char>) -> bool {
    scheme == "file"@ || scheme == "memory"@
}

/// The name of an option of a cloud provider, in either case.
pub open spec fn is_cloud_option(key: Seq<char>) -> bool {
    let k = ascii_lower(key);
    has_prefix(k, "aws_"@) || has_prefix(k, "google_"@) || has_prefix(k, "azure_"@)
}

fn starts_with(s: &str, prefix: &str) -> (r: bool)
    ensures
        r == has_prefix(s@, prefix@),
{
    crate::text::strip_prefix_str(s, prefix).is_some()
}

/// Whether an option of the environment goes to a store with this scheme: only those of
/// the cloud providers, and none to a local store.
pub fn scheme_env_opt(scheme: &str, key: &str) -> (r: bool)
    ensures
        r == (!is_local_scheme(scheme@) && is_cloud_option(key@)),
{
    if str_eq(scheme, "file") || str_eq(scheme, "memory") {
        return false;
    }
    let lower: Vec<char> = ascii_lower_chars(key);
    let k: String = string_from(lower.as_slice(), 0, lower.len());
    assert(lower@.subrange(0, lower@.len() as int) == lower@);
    starts_with(k.as_str(), "aws_") || starts_with(k.as_str(), "google_") || starts_with(
        k.as_str(),
        "azure_",
    )
}

/// Where the results of a base stand.
pub open spec fn results_root(base: Seq<char>) -> Seq<char> {
    if base.len() == 0 {
        "results"@
    } else {
        base + "/results"@
    }
}

/// Where the results of a job stand.
pub open spec fn job_root(base: Seq<char>, job: Seq<char>) -> Seq<char> {
    results_root(base) + "/"@ + job
}

/// Where the results of a base stand.
pub fn results_prefix(base: &str) -> (r: String)
    ensures
        r@ == results_root(base@),
{
    if base.is_empty() {
        "results".to_owned()
    } else {
        concat2(base, "/results")
    }
}

/// The segment after the last slash; nothing in an empty path.
pub open spec fn last_segment(path: Seq<char>) -> Option<Seq<char>> {
    if path.len() == 0 {
        None
    } else {
        Some(after_last(path, '/'))
    }
}

/// What follows the last `c`; all of the text where there is none.
pub open spec fn after_last(s: Seq<char>, c: char) -> Seq<char>
    decreases s.len(),
{
    if s.len() == 0 || s.last() == c {
        Seq::empty()
    } else {
        after_last(s.drop_last(), c).push(s.last())
    }
}

/// The segment after the last slash.
pub fn file_name(path: &str) -> (r: Option<String>)
    ensures
        opt_view(r) == last_segment(path@),
{
    let cs: Vec<char> = chars_of(path);
    if cs.len() == 0 {
        return None;
    }
    let n: usize = cs.len();
    let mut i: usize = n;
    assert(cs@.take(n as int) == cs@);
    assert(cs@.subrange(n as int, n as int) == Seq::<char>::empty());
    while i > 0 && cs[i - 1] != '/'
        invariant
            i <= n,
            n == cs@.len(),
            after_last(cs@, '/') == after_last(cs@.take(i as int), '/') + cs@.subrange(
                i as int,
                n as int,
            ),
        decreases i,
    {
        proof {
            let t = cs@.take(i as int);
            assert(t.drop_last() == cs@.take(i - 1));
            assert(after_last(t, '/') == after_last(cs@.take(i - 1), '/').push(cs@[i - 1]));
            assert(after_last(cs@.take(i - 1), '/').push(cs@[i - 1]) + cs@.subrange(
                i as int,
                n as int,
            ) == after_last(cs@.take(i - 1), '/') + cs@.subrange(i - 1, n as int));
        }
        i = i - 1;
    }
    assert(after_last(cs@.take(i as int), '/') == Seq::<char>::empty());
    Some(string_from(cs.as_slice(), i, n))
}

/// The object of a result under a path of the job.
pub open spec fn result_at(dir: Seq<char>, id: Seq<char>, kind: Kind) -> Seq<char> {
    joined_twice(dir, kind_dir(kind), id + ".json"@)
}

/// The marker of an id under a path of the job.
pub open spec fn marker_at(dir: Seq<char>, id: Seq<char>) -> Seq<char> {
    joined_twice(dir, "_manifest"@, id)
}

/// The two objects that a terminal result writes, each only if it is absent.
pub struct Puts {
    pub result: String,
    pub marker: String,
}

/// The sink of one job in an object store. It holds the ids already written; the objects
/// are the caller's.
pub struct ObjStore {
    prefix: String,
    emitted: IdSet,
    loaded: bool,
}

/// A valid id makes plain segments.
proof fn lemma_plain_ids(id: Seq<char>)
    requires
        valid_id(id),
    ensures
        plain_segment(id),
        plain_segment(id + ".json"@),
        plain_segment("done"@),
        plain_segment("dead"@),
        plain_segment("_manifest"@),
{
    reveal_strlit(".json");
    reveal_strlit("done");
    reveal_strlit("dead");
    reveal_strlit("_manifest");
    assert(crate::item::id_char(id[0]));
    assert(id[0] != '.');
    let name = id + ".json"@;
    assert(name[0] == id[0]);
    assert forall|i: int| 0 <= i < id.len() implies plain_char(#[trigger] id[i]) by {
        assert(crate::item::id_char(id[i]));
    }
    assert forall|i: int| 0 <= i < name.len() implies plain_char(#[trigger] name[i]) by {
        if i < id.len() {
            assert(crate::item::id_char(id[i]));
        }
    }
    assert("done"@[0] != '.' && "dead"@[0] != '.' && "_manifest"@[0] != '.');
}

impl ObjStore {
    /// The root of the job.
    pub closed spec fn spec_prefix(self) -> Seq<char> {
        self.prefix@
    }

    /// The ids already written.
    pub closed spec fn spec_emitted(self) -> Set<Seq<char>> {
        self.emitted@
    }

    /// The markers were read.
    pub closed spec fn spec_loaded(self) -> bool {
        self.loaded
    }

    /// A sink rooted at the job, below `base` where there is one.
    pub fn at_job(base: &str, job: &str) -> (s: Self)
        ensures
            s.spec_prefix() == job_root(base@, job@),
            s.spec_emitted() == Set::<Seq<char>>::empty(),
            !s.spec_loaded(),
    {
        let prefix: String = concat3(results_prefix(base).as_str(), "/", job);
        ObjStore { prefix, emitted: IdSet::new(), loaded: false }
    }

    /// A sink rooted at `results/{job}`.
    pub fn new(job: &str) -> (s: Self)
        ensures
            s.spec_prefix() == "results"@ + "/"@ + job@,
            s.spec_emitted() == Set::<Seq<char>>::empty(),
            !s.spec_loaded(),
    {
        let none: String = String::new();
        Self::at_job(none.as_str(), job)
    }

    /// The root of the job.
    pub fn prefix(&self) -> (r: &str)
        ensures
            r@ == self.spec_prefix(),
    {
        self.prefix.as_str()
    }

    /// Whether the markers were read.
    pub fn is_loaded(&self) -> (r: bool)
        ensures
            r == self.spec_loaded(),
    {
        self.loaded
    }

    /// The object of a result.
    pub fn result_path(&self, custom_id: &str, kind: Kind) -> (r: String)
        ensures
            r@ == object_path(slashed(self.spec_prefix(), kind_dir(kind), custom_id@ + ".json"@)),
            valid_id(custom_id@) ==> r@ == result_at(
                object_path(self.spec_prefix()),
                custom_id@,
                kind,
            ),
    {
        let name: String = concat2(custom_id, ".json");
        let dir: String = concat3(self.prefix.as_str(), "/", kind.dir());
        let text: String = concat3(dir.as_str(), "/", name.as_str());
        proof {
            reveal_strlit("/");
            assert("/"@ == seq!['/']);
            assert(text@ == slashed(self.prefix@, kind_dir(kind), name@));
            if valid_id(custom_id@) {
                lemma_plain_ids(custom_id@);
            }
        }
        path_text(text.as_str())
    }

    /// The marker of an id.
    pub fn manifest_marker(&self, custom_id: &str) -> (r: String)
        ensures
            r@ == object_path(slashed(self.spec_prefix(), "_manifest"@, custom_id@)),
            valid_id(custom_id@) ==> r@ == marker_at(object_path(self.spec_prefix()), custom_id@),
    {
        let dir: String = concat3(self.prefix.as_str(), "/", "_manifest");
        let text: String = concat3(dir.as_str(), "/", custom_id);
        proof {
            reveal_strlit("/");
            assert("/"@ == seq!['/']);
            assert(text@ == slashed(self.prefix@, "_manifest"@, custom_id@));
            if valid_id(custom_id@) {
                lemma_plain_ids(custom_id@);
            }
        }
        path_text(text.as_str())
    }

    /// Where the markers stand.
    pub fn manifest_prefix(&self) -> (r: String)
        ensures
            r@ == object_path(self.spec_prefix() + "/"@ + "_manifest"@),
    {
        path_text(concat3(self.prefix.as_str(), "/", "_manifest").as_str())
    }

    /// Where the objects of a kind stand.
    pub fn kind_prefix(&self, kind: Kind) -> (r: String)
        ensures
            r@ == object_path(self.spec_prefix() + "/"@ + kind_dir(kind)),
    {
        path_text(concat3(self.prefix.as_str(), "/", kind.dir()).as_str())
    }

    /// Takes note of a marker that is there.
    pub fn note_marker(&mut self, path: &str)
        ensures
            final(self).spec_emitted() == match last_segment(path@) {
                Some(id) => old(self).spec_emitted().insert(id),
                None => old(self).spec_emitted(),
            },
            final(self).spec_prefix() == old(self).spec_prefix(),
            final(self).spec_loaded() == old(self).spec_loaded(),
    {
        if let Some(id) = file_name(path) {
            let _ = self.emitted.insert(id.as_str());
        }
    }

    /// Marks the markers as read.
    pub fn set_loaded(&mut self)
        ensures
            final(self).spec_loaded(),
            final(self).spec_emitted() == old(self).spec_emitted(),
            final(self).spec_prefix() == old(self).spec_prefix(),
    {
        self.loaded = true;
    }

    /// What a terminal result needs: nothing where its id was written already, else its
    /// object and then its marker.
    pub fn emit(&self, custom_id: &str, kind: Kind) -> (r: Option<Puts>)
        requires
            self.spec_loaded(),
        ensures
            match r {
                Some(p) => {
                    &&& !self.spec_emitted().contains(custom_id@)
                    &&& p.result@ == object_path(
                        slashed(self.spec_prefix(), kind_dir(kind), custom_id@ + ".json"@),
                    )
                    &&& p.marker@ == object_path(
                        slashed(self.spec_prefix(), "_manifest"@, custom_id@),
                    )
                    &&& valid_id(custom_id@) ==> p.result@ == result_at(
                        object_path(self.spec_prefix()),
                        custom_id@,
                        kind,
                    ) && p.marker@ == marker_at(object_path(self.spec_prefix()), custom_id@)
                },
                None => self.spec_emitted().contains(custom_id@),
            },
    {
        if self.emitted.contains(custom_id) {
            return None;
        }
        Some(
            Puts {
                result: self.result_path(custom_id, kind),
                marker: self.manifest_marker(custom_id),
            },
        )
    }

    /// Both objects of `custom_id` are there.
    pub fn emitted(&mut self, custom_id: &str)
        ensures
            final(self).spec_emitted() == old(self).spec_emitted().insert(custom_id@),
            final(self).spec_loaded() == old(self).spec_loaded(),
            final(self).spec_prefix() == old(self).spec_prefix(),
    {
        let _ = self.emitted.insert(custom_id);
    }

    /// The ids already written.
    pub fn emitted_ids(&self) -> (r: &IdSet)
        ensures
            r@ == self.spec_emitted(),
    {
        &self.emitted
    }
}

/// A name behind a slash is the last segment.
proof fn lemma_last_of_joined(dir: Seq<char>, name: Seq<char>)
    requires
        name.len() > 0,
        !name.contains('/'),
    ensures
        last_segment(joined(dir, name)) == Some(name),
    decreases name.len(),
{
    let t = joined(dir, name);
    assert(name.last() != '/') by {
        if name.last() == '/' {
            assert(name.contains('/'));
        }
    }
    assert(t.last() == name.last());
    if name.len() == 1 {
        if dir.len() > 0 {
            assert(t.drop_last() == dir + seq!['/']);
            assert(t.drop_last().last() == '/');
        }
        assert(after_last(t.drop_last(), '/') == Seq::<char>::empty());
        assert(name == Seq::<char>::empty().push(name.last()));
    } else {
        let init = name.drop_last();
        assert(t.drop_last() == joined(dir, init));
        assert(!init.contains('/')) by {
            if init.contains('/') {
                let i = choose|i: int| 0 <= i < init.len() && init[i] == '/';
                assert(name[i] == '/');
            }
        }
        lemma_last_of_joined(dir, init);
        assert(name == init.push(name.last()));
    }
}

/// Plain segments hold no slash.
proof fn lemma_plain_has_no_slash(s: Seq<char>)
    requires
        plain_segment(s),
    ensures
        !s.contains('/'),
{
    if s.contains('/') {
        let i = choose|i: int| 0 <= i < s.len() && s[i] == '/';
        assert(plain_char(s[i]));
    }
}

/// The marker of an id names the id: what is read back from the markers is what was
/// written.
pub proof fn law_marker_names_the_id(dir: Seq<char>, id: Seq<char>)
    requires
        valid_id(id),
    ensures
        last_segment(marker_at(dir, id)) == Some(id),
{
    lemma_plain_ids(id);
    lemma_plain_has_no_slash(id);
    lemma_last_of_joined(joined(dir, "_manifest"@), id);
}

/// Different results have different objects: no two ids share one, and a success never
/// shares one with a dead letter.
pub proof fn law_objects_are_distinct(
    dir: Seq<char>,
    a: Seq<char>,
    a_kind: Kind,
    b: Seq<char>,
    b_kind: Kind,
)
    requires
        valid_id(a),
        valid_id(b),
        result_at(dir, a, a_kind) == result_at(dir, b, b_kind),
    ensures
        a == b,
        a_kind == b_kind,
{
    reveal_strlit(".json");
    reveal_strlit("done");
    reveal_strlit("dead");
    lemma_plain_ids(a);
    lemma_plain_ids(b);
    let na = a + ".json"@;
    let nb = b + ".json"@;
    let da = joined(dir, kind_dir(a_kind));
    let db = joined(dir, kind_dir(b_kind));
    lemma_plain_has_no_slash(na);
    lemma_plain_has_no_slash(nb);
    lemma_last_of_joined(da, na);
    lemma_last_of_joined(db, nb);
    assert(na == nb);
    assert(a == na.take(na.len() - 5));
    assert(b == nb.take(nb.len() - 5));
    let t = joined(da, na);
    assert(da == t.take(t.len() - na.len() - 1));
    assert(db == t.take(t.len() - na.len() - 1));
    assert(kind_dir(a_kind) == da.skip(da.len() - 4));
    assert(kind_dir(b_kind) == db.skip(db.len() - 4));
    assert("done"@[1] == 'o' && "dead"@[1] == 'e');
}

/// The usage of an object, if it is a result.
pub open spec fn object_usage(parsed: Option<JsonView>) -> Option<crate::types::TokenUsage> {
    match parsed {
        Some(v) => match result_of(v) {
            Some(r) => Some(r.usage),
            None => None,
        },
        None => None,
    }
}

/// Adds the usage of an object to the totals; one that is no result is passed over. Says
/// whether the counters hold it; they are unchanged where they do not.
pub fn add_object(totals: &mut UsageTotals, text: &str) -> (fits: bool)
    ensures
        match object_usage(json_parse(text@).ok()) {
            Some(u) => {
                &&& fits == usage_fits(*old(totals), u)
                &&& *final(totals) == if fits {
                    with_usage(*old(totals), u)
                } else {
                    *old(totals)
                }
            },
            None => fits && *final(totals) == *old(totals),
        },
{
    match parse_json(text) {
        Ok(v) => match result_of_json(&v) {
            Some(r) => {
                if totals.fits(&r.usage) {
                    totals.add(&r.usage);
                    true
                } else {
                    false
                }
            },
            None => true,
        },
        Err(_) => true,
    }
}

/// The line that stands for a written id.
pub open spec fn emitted_line(id: Seq<char>) -> Seq<char> {
    "{\"custom_id\":\""@ + id + "\"}\n"@
}

/// The line that stands for the id of a marker; nothing for a path without a name.
pub fn dump_line(path: &str) -> (r: Option<String>)
    ensures
        opt_view(r) == match last_segment(path@) {
            Some(id) => Some(emitted_line(id)),
            None => None,
        },
{
    match file_name(path) {
        Some(id) => Some(concat3("{\"custom_id\":\"", id.as_str(), "\"}\n")),
        None => None,
    }
}

/// A list of texts as it is printed for debugging.
pub open spec fn quoted_list(items: Seq<Seq<char>>) -> Seq<char> {
    "["@ + quoted_items(items) + "]"@
}

/// The texts of a list in quotes, with commas between them.
pub open spec fn quoted_items(items: Seq<Seq<char>>) -> Seq<char>
    decreases items.len(),
{
    if items.len() == 0 {
        Seq::empty()
    } else if items.len() == 1 {
        quoted(items[0])
    } else {
        quoted_items(items.drop_last()) + ", "@ + quoted(items.last())
    }
}

/// A list of texts as it is printed for debugging.
pub fn quote_list(items: &[String]) -> (r: String)
    ensures
        r@ == quoted_list(views(items@)),
{
    let ghost all = views(items@);
    let mut out: String = String::new();
    let mut i: usize = 0;
    assert(out@ == quoted_items(all.take(0)));
    while i < items.len()
        invariant
            i <= items@.len(),
            all == views(items@),
            out@ == quoted_items(all.take(i as int)),
        decreases items@.len() - i,
    {
        let ghost next = all.take(i + 1);
        if i > 0 {
            out.append(", ");
        }
        out.append(quote(items[i].as_str()).as_str());
        proof {
            assert(next.drop_last() == all.take(i as int));
            assert(next.last() == items@[i as int]@);
            if i == 0 {
                assert(out@ == quoted(next[0]));
            }
        }
        i = i + 1;
    }
    assert(all.take(all.len() as int) == all);
    concat3("[", out.as_str(), "]")
}

/// Why there is not the one run that a URL should point at.
pub open spec fn no_single_run_text(
    out: Seq<char>,
    results: Seq<char>,
    jobs: Seq<Seq<char>>,
) -> Seq<char> {
    if jobs.len() == 0 {
        "store: "@ + ("no forge results found under "@ + out + " (expected "@ + results
            + "/<job>/)"@)
    } else {
        "store: "@ + ("multiple runs under "@ + out + ": "@ + quoted_list(jobs)
            + "; point --results at a single run"@)
    }
}

/// The one job among those found under `results`; an error where there is none, or more
/// than one.
pub fn single_run(out: &str, results: &str, jobs: &[String]) -> (r: Result<String, ForgeError>)
    ensures
        match r {
            Ok(job) => jobs@.len() == 1 && job@ == jobs@[0]@,
            Err(e) => jobs@.len() != 1 && error_text(e) == no_single_run_text(
                out@,
                results@,
                views(jobs@),
            ),
        },
{
    if jobs.len() == 1 {
        return Ok(jobs[0].as_str().to_owned());
    }
    if jobs.len() == 0 {
        let head: String = concat3("no forge results found under ", out, " (expected ");
        return Err(ForgeError::Store(concat3(head.as_str(), results, "/<job>/)")));
    }
    let head: String = concat3("multiple runs under ", out, ": ");
    Err(
        ForgeError::Store(
            concat3(head.as_str(), quote_list(jobs).as_str(), "; point --results at a single run"),
        ),
    )
}

/// A result whose id was not written is put under its job by its kind and id, with a marker
/// under its id; one that was written is not.
pub proof fn law_results_are_put_by_id(s: &ObjStore, custom_id: &str, kind: Kind, r: Option<Puts>, base: Seq<char>)
    requires
        s.spec_loaded(),
        call_ensures(ObjStore::emit, (s, custom_id, kind), r),
        valid_id(custom_id@),
        object_path(s.spec_prefix()) == base,
        base.len() > 0,
    ensures
        r is None <==> s.spec_emitted().contains(custom_id@),
        r matches Some(p) ==> kind == Kind::Done ==> p.result@ == base + "/done/"@ + custom_id@
            + ".json"@,
        r matches Some(p) ==> kind == Kind::Dead ==> p.result@ == base + "/dead/"@ + custom_id@
            + ".json"@,
        r matches Some(p) ==> p.marker@ == base + "/_manifest/"@ + custom_id@,
{
    reveal_strlit("done");
    reveal_strlit("dead");
    reveal_strlit("_manifest");
    reveal_strlit("/done/");
    reveal_strlit("/dead/");
    reveal_strlit("/_manifest/");
    if let Some(p) = r {
        assert(base + seq!['/'] + "done"@ + seq!['/'] + (custom_id@ + ".json"@) =~= base + "/done/"@
            + custom_id@ + ".json"@);
        assert(base + seq!['/'] + "dead"@ + seq!['/'] + (custom_id@ + ".json"@) =~= base + "/dead/"@
            + custom_id@ + ".json"@);
        assert(base + seq!['/'] + "_manifest"@ + seq!['/'] + custom_id@ =~= base + "/_manifest/"@
            + custom_id@);
    }
}

/// An id counts as written once its objects are there, and once its marker was found; then
/// nothing more is put for it.
pub proof fn law_markers_restore_written_ids(
    before: ObjStore,
    noted: ObjStore,
    written: ObjStore,
    custom_id: &str,
    dir: Seq<char>,
    path: &str,
)
    requires
        valid_id(custom_id@),
        path@ == dir + "/_manifest/"@ + custom_id@,
        exists|s: &mut ObjStore|
            *s == before && *final(s) == noted && #[trigger] call_ensures(
                ObjStore::note_marker,
                (s, path),
                (),
            ),
        exists|s: &mut ObjStore|
            *s == before && *final(s) == written && #[trigger] call_ensures(
                ObjStore::emitted,
                (s, custom_id),
                (),
            ),
    ensures
        noted.spec_emitted() == before.spec_emitted().insert(custom_id@),
        written.spec_emitted() == before.spec_emitted().insert(custom_id@),
        noted.spec_prefix() == before.spec_prefix(),
{
    let id = custom_id@;
    lemma_plain_ids(id);
    lemma_plain_has_no_slash(id);
    reveal_strlit("/_manifest/");
    reveal_strlit("/_manifest");
    let head = dir + "/_manifest"@;
    assert(path@ =~= joined(head, id));
    lemma_last_of_joined(head, id);
}

/// A sink of a job stands under `results` and the job's name, below the base where there is
/// one.
pub proof fn law_jobs_stand_under_results(base: &str, job: &str, s: ObjStore, t: ObjStore, p: String)
    requires
        call_ensures(ObjStore::at_job, (base, job), s),
        call_ensures(ObjStore::new, (job,), t),
        call_ensures(results_prefix, (base,), p),
    ensures
        base@.len() > 0 ==> s.spec_prefix() == base@ + "/results"@ + "/"@ + job@ && p@ == base@
            + "/results"@,
        base@.len() == 0 ==> s.spec_prefix() == "results"@ + "/"@ + job@ && p@ == "results"@,
        t.spec_prefix() == "results"@ + "/"@ + job@,
        !s.spec_loaded(),
{
}

/// Only options of a cloud provider go to a store, and none to a local one.
pub proof fn law_local_stores_take_no_options(scheme: &str, key: &str, r: bool)
    requires
        call_ensures(scheme_env_opt, (scheme, key), r),
    ensures
        scheme@ == "file"@ || scheme@ == "memory"@ ==> !r,
        r ==> has_prefix(ascii_lower(key@), "aws_"@) || has_prefix(ascii_lower(key@), "google_"@)
            || has_prefix(ascii_lower(key@), "azure_"@),
        scheme@ != "file"@ && scheme@ != "memory"@ && (has_prefix(ascii_lower(key@), "aws_"@)
            || has_prefix(ascii_lower(key@), "google_"@) || has_prefix(
            ascii_lower(key@),
            "azure_"@,
        )) ==> r,
{
}

/// The line that stands for a marker names its id.
pub proof fn law_dumped_lines_name_the_id(path: &str, r: Option<String>, dir: Seq<char>, id: Seq<char>)
    requires
        call_ensures(dump_line, (path,), r),
        valid_id(id),
        path@ == dir + seq!['/'] + id,
        dir.len() > 0,
    ensures
        r matches Some(line) && line@ == "{\"custom_id\":\""@ + id + "\"}\n"@,
{
    lemma_plain_ids(id);
    lemma_plain_has_no_slash(id);
    lemma_last_of_joined(dir, id);
}

/// An object that is a result adds one item and its tokens to the totals; anything else
/// adds nothing.
pub proof fn law_objects_add_their_tokens(
    before: UsageTotals,
    after: UsageTotals,
    text: &str,
    fits: bool,
    j: crate::json::Json,
    r: Option<crate::types::ItemResult>,
)
    requires
        exists|t: &mut UsageTotals|
            *t == before && *final(t) == after && #[trigger] call_ensures(
                add_object,
                (t, text),
                fits,
            ),
        json_parse(text@) matches Ok(v) ==> j@ == v,
        call_ensures(result_of_json, (&j,), r),
    ensures
        !fits ==> after == before,
        json_parse(text@) is Err ==> fits && after == before,
        json_parse(text@) is Ok && r is None ==> fits && after == before,
        json_parse(text@) is Ok && fits && r is Some ==> after.items == before.items + 1
            && after.prompt_tokens == before.prompt_tokens + r->0.usage.prompt_tokens
            && after.completion_tokens == before.completion_tokens + r->0.usage.completion_tokens
            && after.cached_tokens == before.cached_tokens + r->0.usage.cached_tokens,
{
}

/// A URL points at the one run that is found under it; none, or more than one, is an error.
pub proof fn law_one_run_is_found(out: &str, results: &str, jobs: &[String], r: Result<String, ForgeError>)
    requires
        call_ensures(single_run, (out, results, jobs), r),
    ensures
        r is Ok <==> jobs@.len() == 1,
        r matches Ok(job) ==> job@ == jobs@[0]@,
        r is Err ==> (r matches Err(e) && jobs@.len() != 1),
{
}

/// The name of an object is what follows the last slash of its path.
pub proof fn law_names_follow_the_last_slash(
    path: &str,
    r: Option<String>,
    dir: Seq<char>,
    name: Seq<char>,
)
    requires
        call_ensures(file_name, (path,), r),
        !name.contains('/'),
    ensures
        path@.len() == 0 ==> r is None,
        path@ == dir.push('/') + name ==> r is Some && r->0@ == name,
        path@.len() > 0 && path@ == name ==> r is Some && r->0@ == name,
{
    if path@ == dir.push('/') + name {
        lemma_after_last(dir.push('/'), name);
    }
    if path@ == name {
        assert(Seq::<char>::empty() + name == name);
        lemma_after_last(Seq::empty(), name);
    }
}

proof fn lemma_after_last(head: Seq<char>, name: Seq<char>)
    requires
        !name.contains('/'),
        head.len() == 0 || head.last() == '/',
    ensures
        after_last(head + name, '/') == name,
    decreases name.len(),
{
    let s = head + name;
    if name.len() == 0 {
        assert(s == head);
        assert(name == Seq::<char>::empty());
    } else {
        assert(name.contains(name.last()));
        assert(s.last() == name.last());
        assert(s.drop_last() == head + name.drop_last());
        assert forall|i: int| 0 <= i < name.drop_last().len() implies name.drop_last()[i] != '/' by {
            assert(name.contains(name[i]));
        }
        lemma_after_last(head, name.drop_last());
        assert(name == name.drop_last().push(name.last()));
    }
}

/// A URL that can be read is known by its scheme; one that cannot is a fault of the
/// configuration, which names the URL and says why.
pub proof fn law_urls_are_known_by_their_scheme(
    out: &str,
    parsed: Result<String, String>,
    r: Result<String, ForgeError>,
)
    requires
        call_ensures(check_out_url, (out, parsed), r),
    ensures
        parsed matches Ok(scheme) ==> r is Ok && r->Ok_0@ == scheme@,
        parsed matches Err(why) ==> r is Err && error_text(r->Err_0) == "config: "@ + (
        "invalid object-store URL "@ + quoted(out@) + ": "@ + why@),
{
}

/// Successes and failures are kept in directories of their own.
pub proof fn law_kinds_have_directories_of_their_own(k: Kind, dir: &'static str)
    requires
        call_ensures(Kind::dir, (k,), dir),
    ensures
        k == Kind::Done <==> dir@ == "done"@,
        k == Kind::Dead <==> dir@ == "dead"@,
{
    reveal_strlit("done");
    reveal_strlit("dead");
    assert("done"@[1] == 'o' && "dead"@[1] == 'e');
}


/// A list is shown with each text in quotes, in order, with commas between and brackets
/// around.
pub proof fn law_lists_are_shown_in_order(items: &[String], r: String)
    requires
        call_ensures(quote_list, (items,), r),
    ensures
        items@.len() == 0 ==> r@ == "[]"@,
        items@.len() == 1 ==> r@ == "["@ + quoted(items@[0]@) + "]"@,
        items@.len() == 2 ==> r@ == "["@ + (quoted(items@[0]@) + ", "@ + quoted(items@[1]@)) + "]"@,
{
    let v = views(items@);
    reveal_strlit("[");
    reveal_strlit("]");
    reveal_strlit("[]");
    if items@.len() == 0 {
        assert(r@ == "[]"@);
    } else {
        assert(v[0] == items@[0]@);
        if items@.len() == 2 {
            assert(v.drop_last()[0] == v[0]);
            assert(v.last() == items@[1]@);
            reveal_with_fuel(quoted_items, 2);
        }
    }
}


} // verus!
