//! What the HTTP API reads from requests and writes in responses, and the
//! small decisions its handlers take on their own.

use crate::k8s::names::{uuid_string, uuid_text};
use crate::models::is_finished_status;
use crate::text::{chars_of, concat_str, first_of, lemma_first_of_bound, lemma_first_of_is, string_from_range};
use vstd::prelude::*;

verus! {

broadcast use {vstd::string::group_string_axioms, vstd::slice::group_slice_axioms};

/// A manual deploy's body.
pub struct DeployRequest {
    /// Supplied by a webhook; absent for a manual deploy, which resolves the
    /// branch itself.
    pub commit_sha: Option<String>,
}

/// A deployment listing's query.
pub struct ListQuery {
    pub limit: i64,
}

/// How many deployments a listing returns when the query does not say.
pub fn default_limit() -> (n: i64)
    ensures
        n == 50,
{
    50
}

/// How many deployments the activity feed carries. Enough to fill the panel
/// without turning the analytics request into a full history download.
pub const RECENT_LIMIT: i64 = 12;

/// The analytics window asked for.
pub struct Window {
    pub days: Option<i32>,
}

impl Window {
    /// The window in days: 30 when not given, clamped to 1-365 rather than
    /// rejected, since a nonsense value in a query string should still render
    /// a page and an unbounded one would scan the whole table.
    pub fn days(&self) -> (d: i32)
        ensures
            d == match self.days {
                Some(n) => if n < 1 {
                    1
                } else if n > 365 {
                    365
                } else {
                    n
                },
                None => 30,
            },
    {
        let n = match self.days {
            Some(n) => n,
            None => 30,
        };
        if n < 1 {
            1
        } else if n > 365 {
            365
        } else {
            n
        }
    }
}

/// A signup or login body.
pub struct Credentials {
    pub email: String,
    pub password: String,
}

/// A custom domain to add.
pub struct AddDomain {
    pub domain_name: String,
}

/// Names only. Values are write-only by design and must be revealed one at a
/// time.
pub struct EnvKeys {
    pub keys: Vec<String>,
}

/// One revealed variable.
pub struct EnvValue {
    pub key: String,
    pub value: String,
}

/// A deploy token for a private repository.
pub struct GitCredentials {
    pub token: String,
}

/// The values needed to configure a push webhook at the git provider.
pub struct WebhookConfig {
    pub github_url: String,
    pub gitlab_url: String,
    /// Shown so the owner can paste it into the provider. It is never
    /// included in the application record itself.
    pub secret: String,
}

/// The webhook configuration of application `app_id`.
pub fn webhook_config(app_id: u128, secret: String) -> (c: WebhookConfig)
    ensures
        c.github_url@ == "/api/v1/webhooks/github/"@ + uuid_text(app_id),
        c.gitlab_url@ == "/api/v1/webhooks/gitlab/"@ + uuid_text(app_id),
        c.secret@ == secret@,
{
    let id = uuid_string(app_id);
    WebhookConfig {
        github_url: concat_str("/api/v1/webhooks/github/", id.as_str()),
        gitlab_url: concat_str("/api/v1/webhooks/gitlab/", id.as_str()),
        secret,
    }
}

/// A line that ended in '\n', without a '\r' before it.
pub open spec fn strip_cr(line: Seq<char>) -> Seq<char> {
    if line.len() > 0 && line.last() == '\r' {
        line.drop_last()
    } else {
        line
    }
}

/// What `str::lines` yields: the text split at each '\n' or "\r\n", a final
/// line ending being optional.
pub open spec fn lines_of(s: Seq<char>) -> Seq<Seq<char>>
    decreases s.len(),
{
    if s.len() == 0 {
        Seq::empty()
    } else {
        let i = first_of(s, '\n');
        proof {
            lemma_first_of_bound(s, '\n');
        }
        if i == s.len() {
            seq![s]
        } else {
            seq![strip_cr(s.take(i as int))] + lines_of(s.skip((i + 1) as int))
        }
    }
}

/// The lines of a chunk of log text.
pub fn split_lines(text: &str) -> (lines: Vec<String>)
    ensures
        lines@.map_values(|l: String| l@) == lines_of(text@),
{
    let v = chars_of(text);
    let n = v.len();
    let mut lines: Vec<String> = Vec::new();
    let mut start: usize = 0;
    proof {
        assert(v@.skip(0) =~= v@);
        assert(lines@.map_values(|l: String| l@) + lines_of(v@) =~= lines_of(v@));
    }
    while start < n
        invariant
            v@ == text@,
            n == v@.len(),
            start <= n,
            lines@.map_values(|l: String| l@) + lines_of(v@.skip(start as int)) == lines_of(v@),
        decreases n - start,
    {
        let ghost rest = v@.skip(start as int);
        let mut end: usize = start;
        while end < n && v[end] != '\n'
            invariant
                start <= end <= n,
                n == v@.len(),
                forall|j: int| start <= j < end ==> v@[j] != '\n',
            decreases n - end,
        {
            end += 1;
        }
        proof {
            lemma_first_of_is(rest, '\n', end - start);
        }
        let ghost before = lines@.map_values(|l: String| l@);
        if end == n {
            let line = string_from_range(&v, start, end);
            lines.push(line);
            proof {
                assert(rest.take((end - start) as int) =~= rest);
                assert(lines@.map_values(|l: String| l@) =~= before.push(rest));
                assert(v@.skip(n as int) =~= Seq::<char>::empty());
                assert(lines_of(rest) =~= seq![rest]);
            }
            start = end;
        } else {
            let line_end = if end > start && v[end - 1] == '\r' {
                end - 1
            } else {
                end
            };
            let line = string_from_range(&v, start, line_end);
            lines.push(line);
            proof {
                let head = rest.take((end - start) as int);
                assert(head =~= v@.subrange(start as int, end as int));
                assert(strip_cr(head) =~= v@.subrange(start as int, line_end as int));
                assert(rest.skip((end - start) + 1) =~= v@.skip(end + 1));
                assert(lines@.map_values(|l: String| l@) =~= before.push(strip_cr(head)));
                assert(lines_of(rest) =~= seq![strip_cr(head)] + lines_of(v@.skip(end + 1)));
                assert(before + lines_of(rest) =~= before.push(strip_cr(head)) + lines_of(
                    v@.skip(end + 1),
                ));
            }
            start = end + 1;
        }
    }
    proof {
        assert(v@.skip(n as int) =~= Seq::<char>::empty());
        assert(lines@.map_values(|l: String| l@) + Seq::<Seq<char>>::empty() =~= lines@.map_values(
            |l: String| l@,
        ));
    }
    lines
}

/// Whether the log stream ends after this look at the deployment, and then
/// with which status: a deployment in a terminal state ends it.
pub fn stream_end(status: &str) -> (end: bool)
    ensures
        end == is_finished_status(status@),
{
    crate::text::str_eq(status, "deployed") || crate::text::str_eq(status, "failed")
}

} // verus!
