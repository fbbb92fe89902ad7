//! What the site is built from: the contributions view of the cache, and the
//! file names of the theme's images.

use vstd::prelude::*;
use crate::records::{Commit, CommitView, Issue, IssueView};
use crate::store::{Store, StoreView};

verus! {

/// The kind of a contribution.
#[derive(Clone, Copy, Debug, PartialEq, Eq, Structural)]
pub enum ContributionKind {
    Commit,
    Issue,
    PullRequest,
}

/// One contribution: a commit, an issue or a pull request.
pub struct Contribution {
    pub kind: ContributionKind,
    pub owner: String,
    pub repository: String,
    /// Set for commits.
    pub sha: Option<String>,
    /// Set for issues and pull requests.
    pub number: Option<i64>,
    pub author_id: i64,
    pub author_login: String,
    pub ts: i64,
    pub title: String,
}

/// The value a [`Contribution`] holds.
pub struct ContributionView {
    pub kind: ContributionKind,
    pub owner: Seq<char>,
    pub repository: Seq<char>,
    pub sha: Option<Seq<char>>,
    pub number: Option<i64>,
    pub author_id: i64,
    pub author_login: Seq<char>,
    pub ts: i64,
    pub title: Seq<char>,
}

impl View for Contribution {
    type V = ContributionView;

    open spec fn view(&self) -> ContributionView {
        ContributionView {
            kind: self.kind,
            owner: self.owner@,
            repository: self.repository@,
            sha: match self.sha {
                Some(s) => Some(s@),
                None => None,
            },
            number: self.number,
            author_id: self.author_id,
            author_login: self.author_login@,
            ts: self.ts,
            title: self.title@,
        }
    }
}

/// The contribution a commit is.
pub open spec fn commit_contribution(c: CommitView) -> ContributionView {
    ContributionView {
        kind: ContributionKind::Commit,
        owner: c.owner,
        repository: c.repository,
        sha: Some(c.sha),
        number: None,
        author_id: c.author_id,
        author_login: c.author_login,
        ts: c.ts,
        title: c.title,
    }
}

/// The contribution an issue or a pull request is.
pub open spec fn issue_contribution(i: IssueView, kind: ContributionKind) -> ContributionView {
    ContributionView {
        kind: kind,
        owner: i.owner,
        repository: i.repository,
        sha: None,
        number: Some(i.number),
        author_id: i.author_id,
        author_login: i.author_login,
        ts: i.ts,
        title: i.title,
    }
}

/// All contributions of a cache: its commits, then its issues, then its pull
/// requests.
pub open spec fn contributions_of(s: StoreView) -> Seq<ContributionView> {
    s.commits.map_values(|c: CommitView| commit_contribution(c)) + s.issues.map_values(
        |i: IssueView| issue_contribution(i, ContributionKind::Issue),
    ) + s.pull_requests.map_values(|i: IssueView| issue_contribution(i, ContributionKind::PullRequest))
}

fn commit_to_contribution(c: &Commit) -> (r: Contribution)
    ensures
        r@ == commit_contribution(c@),
{
    Contribution {
        kind: ContributionKind::Commit,
        owner: c.owner.clone(),
        repository: c.repository.clone(),
        sha: Some(c.sha.clone()),
        number: None,
        author_id: c.author_id,
        author_login: c.author_login.clone(),
        ts: c.ts,
        title: c.title.clone(),
    }
}

fn issue_to_contribution(i: &Issue, kind: ContributionKind) -> (r: Contribution)
    ensures
        r@ == issue_contribution(i@, kind),
{
    Contribution {
        kind,
        owner: i.owner.clone(),
        repository: i.repository.clone(),
        sha: None,
        number: Some(i.number),
        author_id: i.author_id,
        author_login: i.author_login.clone(),
        ts: i.ts,
        title: i.title.clone(),
    }
}

/// All contributions of a cache: its commits, then its issues, then its pull
/// requests.
pub fn contributions(cache: &Store) -> (r: Vec<Contribution>)
    ensures
        r@.map_values(|c: Contribution| c@) == contributions_of(cache@),
{
    let mut out: Vec<Contribution> = Vec::new();
    let commits = cache.commits();
    let mut i: usize = 0;
    while i < commits.len()
        invariant
            commits@ == cache@.commits,
            i <= commits@.len(),
            out@.map_values(|c: Contribution| c@) == commits@.take(i as int).map_values(
                |c: CommitView| commit_contribution(c),
            ),
        decreases commits@.len() - i,
    {
        let ghost before = out@.map_values(|c: Contribution| c@);
        let c = commit_to_contribution(commits.get(i));
        out.push(c);
        assert(out@.map_values(|c: Contribution| c@) =~= before.push(c@));
        assert(commits@.take(i + 1).map_values(|c: CommitView| commit_contribution(c))
            =~= commits@.take(i as int).map_values(|c: CommitView| commit_contribution(c)).push(
            commit_contribution(commits@[i as int]),
        ));
        i = i + 1;
    }
    assert(commits@.take(i as int) =~= commits@);
    let ghost head = out@.map_values(|c: Contribution| c@);
    let issues = cache.issues();
    let mut i: usize = 0;
    while i < issues.len()
        invariant
            issues@ == cache@.issues,
            i <= issues@.len(),
            out@.map_values(|c: Contribution| c@) == head + issues@.take(i as int).map_values(
                |v: IssueView| issue_contribution(v, ContributionKind::Issue),
            ),
        decreases issues@.len() - i,
    {
        let ghost before = out@.map_values(|c: Contribution| c@);
        let c = issue_to_contribution(issues.get(i), ContributionKind::Issue);
        out.push(c);
        assert(out@.map_values(|c: Contribution| c@) =~= before.push(c@));
        assert(issues@.take(i + 1).map_values(|v: IssueView| issue_contribution(v, ContributionKind::Issue))
            =~= issues@.take(i as int).map_values(
            |v: IssueView| issue_contribution(v, ContributionKind::Issue),
        ).push(issue_contribution(issues@[i as int], ContributionKind::Issue)));
        i = i + 1;
    }
    assert(issues@.take(i as int) =~= issues@);
    let ghost head = out@.map_values(|c: Contribution| c@);
    let pulls = cache.pull_requests();
    let mut i: usize = 0;
    while i < pulls.len()
        invariant
            pulls@ == cache@.pull_requests,
            i <= pulls@.len(),
            out@.map_values(|c: Contribution| c@) == head + pulls@.take(i as int).map_values(
                |v: IssueView| issue_contribution(v, ContributionKind::PullRequest),
            ),
        decreases pulls@.len() - i,
    {
        let ghost before = out@.map_values(|c: Contribution| c@);
        let c = issue_to_contribution(pulls.get(i), ContributionKind::PullRequest);
        out.push(c);
        assert(out@.map_values(|c: Contribution| c@) =~= before.push(c@));
        assert(pulls@.take(i + 1).map_values(|v: IssueView| issue_contribution(v, ContributionKind::PullRequest))
            =~= pulls@.take(i as int).map_values(
            |v: IssueView| issue_contribution(v, ContributionKind::PullRequest),
        ).push(issue_contribution(pulls@[i as int], ContributionKind::PullRequest)));
        i = i + 1;
    }
    assert(pulls@.take(i as int) =~= pulls@);
    out
}

/// What the address `url` says of its path: `None` when it does not parse,
/// else its last path segment, if it has a path.
pub uninterp spec fn last_segment_of(url: Seq<char>) -> Option<Option<Seq<char>>>;

/// Relies on `url::Url::parse` (as `reqwest::Url`) and `Url::path_segments`
/// to take the last segment of an address's path.
#[verifier::external_body]
fn url_last_segment(url: &str) -> (r: Option<Option<String>>)
    ensures
        match r {
            None => last_segment_of(url@) is None,
            Some(None) => last_segment_of(url@) == Some(None::<Seq<char>>),
            Some(Some(s)) => last_segment_of(url@) == Some(Some(s@)),
        },
{
    reqwest::Url::parse(url).ok().map(|u| u.path_segments().and_then(|mut p| p.next_back()).map(|s| s.to_string()))
}

/// The file name of the resource at `url`: the last segment of its path;
/// `None` when the address is invalid or has no path.
pub fn file_name(url: &str) -> (r: Option<String>)
    ensures
        match last_segment_of(url@) {
            Some(Some(s)) => r matches Some(n) && n@ == s,
            _ => r is None,
        },
{
    match url_last_segment(url) {
        Some(Some(s)) => Some(s),
        _ => None,
    }
}

/// Where an image downloaded from `url` is written, relative to the output
/// directory: `images/<file name>`.
pub fn image_path(url: &str) -> (r: Option<String>)
    ensures
        match last_segment_of(url@) {
            Some(Some(s)) => r matches Some(p) && p@ == "images/"@ + s,
            _ => r is None,
        },
{
    match file_name(url) {
        Some(name) => {
            let mut p = String::from_str("images/");
            p.append(name.as_str());
            Some(p)
        },
        None => None,
    }
}

} // verus!
