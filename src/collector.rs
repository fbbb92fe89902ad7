//! One repository's collection task, as a state machine: commits are fetched
//! page by page into a staging store and merged into the cache, then issues
//! and pull requests the same way. The caller performs each fetch and merge
//! that the task asks for and hands back what came of it; a task that fails
//! is dropped with its staging store, so nothing it staged reaches the cache.

use vstd::prelude::*;
use crate::api::{
    Paginator, boundary_text, commits_url, commits_url_spec, issues_url, issues_url_spec, page_step,
    since_text,
};
use crate::clock::{FIRST_SECOND_OF_YEAR_1, LAST_SECOND_OF_YEAR_9999};
use crate::error::ApiError;
use crate::records::{Commit, CommitItem, Issue, IssueItem, ItemKind, MergeCommitPolicy};
use crate::store::{MergeCounts, Store, StoreView, commit_rows, issue_rows, merged, older_of};
use crate::table::{insert_all, latest_ts, lemma_latest_ts_bound};

verus! {

/// Where a repository task stands.
#[derive(Clone, Copy, Debug, PartialEq, Eq, Structural)]
pub enum Phase {
    /// Fetching commits.
    Commits,
    /// Fetching issues and pull requests.
    Issues,
    /// Both kinds merged.
    Done,
}

/// What the task asks its caller to do next.
#[derive(Clone, Debug, PartialEq, Eq)]
pub enum Step {
    /// Fetch the page at this address and hand the response to `on_page`.
    Fetch(String),
    /// Merge the staged records into the cache with `merge_into`.
    Merge,
    /// Nothing: the task is complete.
    Finished,
}

/// The state of a repository task.
pub struct RepoTaskView {
    pub owner: Seq<char>,
    pub repo: Seq<char>,
    pub policy: MergeCommitPolicy,
    pub phase: Phase,
    /// Address of the next page to fetch in the current listing.
    pub next: Option<Seq<char>>,
    pub staged: StoreView,
}

/// The address of the first page of a listing, from the date of its resume
/// boundary, if any.
pub open spec fn first_page(
    owner: Seq<char>,
    repo: Seq<char>,
    phase: Phase,
    since: Option<Seq<char>>,
) -> Seq<char> {
    if phase == Phase::Commits {
        commits_url_spec(owner, repo, since)
    } else {
        issues_url_spec(owner, repo, since)
    }
}

/// Whether a resume boundary lies in years 1 to 9999 (or is absent): such a
/// boundary is always written as a date.
pub open spec fn boundary_in_range(boundary: Option<i64>) -> bool {
    match boundary {
        None => true,
        Some(t) => FIRST_SECOND_OF_YEAR_1 <= t <= LAST_SECOND_OF_YEAR_9999,
    }
}

/// A run over a cache that holds a commit of `owner/repo` dated `T` resumes
/// the commits of that repository from a boundary `b >= T` (the boundary
/// [`RepoTask::start`] asks from): it never asks again for commits older than
/// those it holds.
pub proof fn lemma_commit_boundary_covers_cache(
    cache: StoreView,
    owner: Seq<char>,
    repo: Seq<char>,
    i: int,
)
    requires
        0 <= i < cache.commits.len(),
        cache.commits[i].owner == owner,
        cache.commits[i].repository == repo,
    ensures
        exists|b: i64|
            b >= cache.commits[i].ts && latest_ts::<Commit>(cache.commits, owner, repo) == Some(b),
{
    lemma_latest_ts_bound::<Commit>(cache.commits, owner, repo, i);
}

/// The collection task of repository `owner/repo`.
pub struct RepoTask {
    owner: String,
    repo: String,
    policy: MergeCommitPolicy,
    phase: Phase,
    pages: Paginator,
    staged: Store,
}

impl View for RepoTask {
    type V = RepoTaskView;

    closed spec fn view(&self) -> RepoTaskView {
        RepoTaskView {
            owner: self.owner@,
            repo: self.repo@,
            policy: self.policy,
            phase: self.phase,
            next: self.pages@,
            staged: self.staged@,
        }
    }
}

/// The first page of a listing, or the error met writing its boundary.
fn listing_start(owner: &str, repo: &str, phase: Phase, boundary: Option<i64>) -> (r: Result<
    Paginator,
    ApiError,
>)
    requires
        phase != Phase::Done,
    ensures
        match boundary_text(boundary) {
            Some(since) => r matches Ok(p) && p@ == Some(first_page(owner@, repo@, phase, since)),
            None => r == Err::<Paginator, ApiError>(ApiError::TimestampOutOfRange),
        },
        boundary_in_range(boundary) ==> r is Ok,
{
    let since = since_text(boundary);
    match since {
        Err(e) => Err(e),
        Ok(text) => {
            let url = match &text {
                Some(t) => if phase == Phase::Commits {
                    commits_url(owner, repo, Some(t.as_str()))
                } else {
                    issues_url(owner, repo, Some(t.as_str()))
                },
                None => if phase == Phase::Commits {
                    commits_url(owner, repo, None)
                } else {
                    issues_url(owner, repo, None)
                },
            };
            Ok(Paginator::new(url))
        },
    }
}

impl RepoTask {
    /// Starts the task of repository `owner/repo`: commits are fetched from
    /// the most recent commit the cache holds for it on, or from the start
    /// of history when it holds none.
    pub fn start(owner: &str, repo: &str, policy: MergeCommitPolicy, cache: &Store) -> (r: Result<
        RepoTask,
        ApiError,
    >)
        ensures
            match boundary_text(latest_ts::<Commit>(cache@.commits, owner@, repo@)) {
                Some(since) => r matches Ok(t) && t@ == (RepoTaskView {
                    owner: owner@,
                    repo: repo@,
                    policy: policy,
                    phase: Phase::Commits,
                    next: Some(first_page(owner@, repo@, Phase::Commits, since)),
                    staged: t@.staged,
                }) && t@.staged.commits.len() == 0 && t@.staged.issues.len() == 0
                    && t@.staged.pull_requests.len() == 0,
                None => r matches Err(e) && e == ApiError::TimestampOutOfRange,
            },
            boundary_in_range(latest_ts::<Commit>(cache@.commits, owner@, repo@)) ==> r is Ok,
    {
        let boundary = cache.commits_since(owner, repo);
        match listing_start(owner, repo, Phase::Commits, boundary) {
            Err(e) => Err(e),
            Ok(pages) => Ok(
                RepoTask {
                    owner: String::from_str(owner),
                    repo: String::from_str(repo),
                    policy,
                    phase: Phase::Commits,
                    pages,
                    staged: Store::new(),
                },
            ),
        }
    }

    /// Where the task stands.
    pub fn phase(&self) -> (p: Phase)
        ensures
            p == self@.phase,
    {
        self.phase
    }

    /// What the caller is to do next: fetch the next page of the current
    /// listing, merge once it is exhausted, or nothing once both are merged.
    pub fn next_step(&self) -> (s: Step)
        ensures
            match s {
                Step::Fetch(u) => self@.phase != Phase::Done && self@.next == Some(u@),
                Step::Merge => self@.phase != Phase::Done && self@.next is None,
                Step::Finished => self@.phase == Phase::Done,
            },
    {
        if self.phase == Phase::Done {
            return Step::Finished;
        }
        match self.pages.next_url() {
            Some(u) => Step::Fetch(u),
            None => Step::Merge,
        }
    }

    /// Takes the response to the page last fetched (see
    /// [`Paginator::on_page`]); `Ok(true)` when its items are to be loaded.
    pub fn on_page(&mut self, status: u16, body: &str, link: Option<&str>) -> (r: Result<
        bool,
        ApiError,
    >)
        ensures
            (r, final(self)@.next) == page_step(
                status,
                body@,
                match link {
                    Some(h) => Some(h@),
                    None => None,
                },
            ),
            final(self)@ == (RepoTaskView { next: final(self)@.next, ..old(self)@ }),
    {
        self.pages.on_page(status, body, link)
    }

    /// Stages the commit items of a page.
    pub fn load_commits(&mut self, items: &Vec<CommitItem>) -> (r: Result<(), ApiError>)
        ensures
            match commit_rows(old(self)@.owner, old(self)@.repo, items@, old(self)@.policy) {
                Some(rows) => r is Ok && final(self)@ == (RepoTaskView {
                    staged: StoreView {
                        commits: insert_all::<Commit>(old(self)@.staged.commits, rows),
                        ..old(self)@.staged
                    },
                    ..old(self)@
                }),
                None => r == Err::<(), ApiError>(ApiError::MalformedTimestamp) && final(self)@
                    == old(self)@,
            },
    {
        self.staged.load_commits(self.owner.as_str(), self.repo.as_str(), items, self.policy)
    }

    /// Stages the issue and pull request entries of a page, each in its
    /// table by the shape of its address.
    pub fn load_issues(&mut self, items: &Vec<IssueItem>) -> (r: Result<(), ApiError>)
        ensures
            match (
                issue_rows(old(self)@.owner, old(self)@.repo, items@, ItemKind::Issue),
                issue_rows(old(self)@.owner, old(self)@.repo, items@, ItemKind::PullRequest),
            ) {
                (Some(issues), Some(pulls)) => r is Ok && final(self)@ == (RepoTaskView {
                    staged: StoreView {
                        issues: insert_all::<Issue>(old(self)@.staged.issues, issues),
                        pull_requests: insert_all::<Issue>(old(self)@.staged.pull_requests, pulls),
                        ..old(self)@.staged
                    },
                    ..old(self)@
                }),
                _ => r == Err::<(), ApiError>(ApiError::MalformedTimestamp) && final(self)@
                    == old(self)@,
            },
    {
        self.staged.load_issues(self.owner.as_str(), self.repo.as_str(), items)
    }

    /// Merges the staged records into the cache once the current listing is
    /// exhausted. After the commits, the issues listing starts from the
    /// older of the most recent issue and the most recent pull request now
    /// cached; after the issues, the task is complete. An error means the
    /// issues boundary could not be written as a date; the commits stay
    /// merged.
    pub fn merge_into(&mut self, cache: &mut Store) -> (r: Result<MergeCounts, ApiError>)
        requires
            old(self)@.next is None,
            old(self)@.phase != Phase::Done,
        ensures
            final(cache).wf(),
            final(cache)@ == merged(old(cache)@, old(self)@.staged),
            final(self)@.staged.commits.len() == 0,
            final(self)@.staged.issues.len() == 0,
            final(self)@.staged.pull_requests.len() == 0,
            final(self)@.owner == old(self)@.owner,
            final(self)@.repo == old(self)@.repo,
            final(self)@.policy == old(self)@.policy,
            old(self)@.phase == Phase::Issues ==> r is Ok && final(self)@.phase == Phase::Done
                && final(self)@.next is None,
            old(self)@.phase == Phase::Commits ==> ({
                let boundary = older_of(
                    latest_ts::<Issue>(final(cache)@.issues, old(self)@.owner, old(self)@.repo),
                    latest_ts::<Issue>(
                        final(cache)@.pull_requests,
                        old(self)@.owner,
                        old(self)@.repo,
                    ),
                );
                &&& match boundary_text(boundary) {
                    Some(since) => r is Ok && final(self)@.phase == Phase::Issues
                        && final(self)@.next == Some(
                        first_page(old(self)@.owner, old(self)@.repo, Phase::Issues, since),
                    ),
                    None => r == Err::<MergeCounts, ApiError>(ApiError::TimestampOutOfRange)
                        && final(self)@.phase == Phase::Done && final(self)@.next is None,
                }
                &&& boundary_in_range(boundary) ==> r is Ok
            }),
    {
        let counts = cache.merge(&self.staged);
        self.staged = Store::new();
        if self.phase == Phase::Issues {
            self.phase = Phase::Done;
            return Ok(counts);
        }
        let boundary = cache.issues_since(self.owner.as_str(), self.repo.as_str());
        match listing_start(self.owner.as_str(), self.repo.as_str(), Phase::Issues, boundary) {
            Ok(pages) => {
                self.pages = pages;
                self.phase = Phase::Issues;
                Ok(counts)
            },
            Err(e) => {
                self.phase = Phase::Done;
                Err(e)
            },
        }
    }
}

} // verus!
