//! What the GitHub poller needs from the configuration, and what it makes of
//! the answer.

use crate::text::{chars_of, has_prefix, push_str, split_fields, split_on, str_eq, string_from, string_of};
use vstd::prelude::*;

verus! {

/// A workflow run that waits for a runner.
#[derive(Debug, PartialEq, Eq)]
pub struct WorkflowRun {
    pub url: String,
}

/// The scheme of a repository URL and what follows `://`.
pub open spec fn scheme_and_rest(url: Seq<char>) -> Option<(Seq<char>, Seq<char>)> {
    if "https://"@.is_prefix_of(url) {
        Some(("https"@, url.skip(8)))
    } else if "http://"@.is_prefix_of(url) {
        Some(("http"@, url.skip(7)))
    } else {
        None
    }
}

/// The scheme, host, owner and name of a `scheme://host/owner/name` URL.
pub open spec fn repo_parts(url: Seq<char>) -> Option<(Seq<char>, Seq<char>, Seq<char>, Seq<char>)> {
    match scheme_and_rest(url) {
        Some((scheme, rest)) => {
            let f = split_fields(rest, '/');
            if f.len() == 3 && f[0].len() > 0 && f[1].len() > 0 && f[2].len() > 0 {
                Some((scheme, f[0], f[1], f[2]))
            } else {
                None
            }
        },
        None => None,
    }
}

/// The REST API base of a host: GitHub's own, or an Enterprise server's.
pub open spec fn api_base(scheme: Seq<char>, host: Seq<char>) -> Seq<char> {
    if host == "github.com"@ {
        "https://api.github.com"@
    } else {
        scheme + "://"@ + host + "/api/v3"@
    }
}

/// The API URL that lists a repository's queued workflow runs.
pub open spec fn queued_runs_url_of(repo_url: Seq<char>) -> Option<Seq<char>> {
    match repo_parts(repo_url) {
        Some((scheme, host, owner, name)) => Some(
            api_base(scheme, host) + "/repos/"@ + owner + "/"@ + name
                + "/actions/runs?status=queued"@,
        ),
        None => None,
    }
}

/// The API URL that lists the queued workflow runs of the repository at
/// `repo_url`, which must read `http(s)://host/owner/name`.
pub fn queued_runs_url(repo_url: &str) -> (r: Option<String>)
    ensures
        match queued_runs_url_of(repo_url@) {
            Some(u) => r matches Some(s) && s@ == u,
            None => r is None,
        },
{
    proof {
        reveal_strlit("https://");
        reveal_strlit("http://");
    }
    let cs = chars_of(repo_url);
    let (scheme, rest) = if has_prefix(repo_url, "https://") {
        (string_from("https"), string_of(&cs, 8, cs.len()))
    } else if has_prefix(repo_url, "http://") {
        (string_from("http"), string_of(&cs, 7, cs.len()))
    } else {
        return None;
    };
    assert(scheme_and_rest(repo_url@) == Some((scheme@, rest@)));
    let f = split_on(rest.as_str(), '/');
    if f.len() != 3 || f[0].as_str().is_empty() || f[1].as_str().is_empty() || f[2].as_str().is_empty() {
        proof {
            if f@.len() == 3 {
                assert(f@[0]@ == split_fields(rest@, '/')[0]);
                assert(f@[1]@ == split_fields(rest@, '/')[1]);
                assert(f@[2]@ == split_fields(rest@, '/')[2]);
            }
        }
        return None;
    }
    assert(f@[0]@ == split_fields(rest@, '/')[0]);
    assert(f@[1]@ == split_fields(rest@, '/')[1]);
    assert(f@[2]@ == split_fields(rest@, '/')[2]);
    let mut url = if str_eq(f[0].as_str(), "github.com") {
        string_from("https://api.github.com")
    } else {
        let mut base = string_from(scheme.as_str());
        push_str(&mut base, "://");
        push_str(&mut base, f[0].as_str());
        push_str(&mut base, "/api/v3");
        base
    };
    push_str(&mut url, "/repos/");
    push_str(&mut url, f[1].as_str());
    push_str(&mut url, "/");
    push_str(&mut url, f[2].as_str());
    push_str(&mut url, "/actions/runs?status=queued");
    Some(url)
}

/// The runs of a response, given as the `url` of each entry of its
/// `workflow_runs` array (`None` where the response has no such array, or
/// an entry has no `url`).
pub open spec fn runs_of(runs: Option<Seq<Option<String>>>) -> Result<Seq<Seq<char>>, Seq<char>> {
    match runs {
        None => Err("The response doesn't have an array field 'workflow_runs'."@),
        Some(entries) => if exists|i: int| 0 <= i < entries.len() && entries[i] is None {
            Err("The response contains a run without the 'url' field."@)
        } else {
            Ok(entries.map_values(|e: Option<String>| e->0@))
        },
    }
}

/// The entries of a response's run list, if it has one.
pub open spec fn entries_of(runs: Option<Vec<Option<String>>>) -> Option<Seq<Option<String>>> {
    match runs {
        Some(v) => Some(v@),
        None => None,
    }
}

/// The queued runs of a response, or what is wrong with it.
pub fn collect_workflow_runs(runs: Option<Vec<Option<String>>>) -> (r: Result<Vec<WorkflowRun>, String>)
    ensures
        match (r, runs_of(entries_of(runs))) {
            (Ok(v), Ok(urls)) => v@.map_values(|w: WorkflowRun| w.url@) == urls,
            (Err(m), Err(n)) => m@ == n,
            _ => false,
        },
{
    let ghost given = entries_of(runs);
    let entries = match runs {
        Some(v) => v,
        None => {
            return Err(string_from("The response doesn't have an array field 'workflow_runs'."));
        },
    };
    let ghost es = entries@;
    assert(given == Some(es));
    let mut out: Vec<WorkflowRun> = Vec::new();
    let mut i: usize = 0;
    while i < entries.len()
        invariant
            es == entries@,
            given == Some(es),
            given == entries_of(runs),
            i <= es.len(),
            out@.len() == i,
            forall|j: int| 0 <= j < i ==> es[j] is Some,
            forall|j: int| 0 <= j < i ==> (#[trigger] out@[j]).url@ == es[j]->0@,
        decreases es.len() - i,
    {
        match &entries[i] {
            Some(url) => {
                out.push(WorkflowRun { url: url.clone() });
            },
            None => {
                assert(es[i as int] is None);
                return Err(string_from("The response contains a run without the 'url' field."));
            },
        }
        i = i + 1;
    }
    assert(out@.map_values(|w: WorkflowRun| w.url@) =~= es.map_values(
        |e: Option<String>| e->0@,
    ));
    Ok(out)
}

} // verus!
