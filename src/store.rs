//! The stores of a collection run: a per-repository staging store that
//! accumulates fetched records, and the durable cache it is merged into.
//!
//! Both have the same three tables. A merge copies every staged row into the
//! cache with conflict-ignore semantics; it takes `&mut` access to the cache,
//! so merges are serialised by whoever owns that access (the merge lock).

use vstd::prelude::*;
use crate::clock::{parse_rfc3339, rfc3339_seconds};
use crate::error::ApiError;
use crate::records::{
    Commit, CommitItem, CommitView, Issue, IssueItem, IssueView, ItemKind, MergeCommitPolicy,
    classify, commit_record, commit_view_of, issue_record, issue_view_of, keeps_commit, kind_of,
    is_issue_url, is_pull_url, lemma_url_kinds_exclusive,
};
use crate::table::{
    Row, Table, batches_disjoint, insert_all, insert_batches, keys_disjoint, keys_unique, latest_ts,
    lemma_insert_all_idempotent, lemma_insert_all_keys, lemma_insert_all_unique,
    lemma_insert_batches_order,
};

verus! {

/// The content of a store.
pub struct StoreView {
    pub commits: Seq<CommitView>,
    pub issues: Seq<IssueView>,
    pub pull_requests: Seq<IssueView>,
}

/// Commit, issue and pull request tables, each keyed by its natural key.
pub struct Store {
    commits: Table<Commit>,
    issues: Table<Issue>,
    pull_requests: Table<Issue>,
}

impl View for Store {
    type V = StoreView;

    closed spec fn view(&self) -> StoreView {
        StoreView {
            commits: self.commits@,
            issues: self.issues@,
            pull_requests: self.pull_requests@,
        }
    }
}

/// Keys are unique in each table.
pub open spec fn store_wf(s: StoreView) -> bool {
    keys_unique::<Commit>(s.commits) && keys_unique::<Issue>(s.issues) && keys_unique::<Issue>(
        s.pull_requests,
    )
}

/// The cache after merging `staged` into `cache`.
pub open spec fn merged(cache: StoreView, staged: StoreView) -> StoreView {
    StoreView {
        commits: insert_all::<Commit>(cache.commits, staged.commits),
        issues: insert_all::<Issue>(cache.issues, staged.issues),
        pull_requests: insert_all::<Issue>(cache.pull_requests, staged.pull_requests),
    }
}

/// The cache after a repository task ends: merged with what it staged when
/// its fetch succeeded, unchanged when it failed.
pub open spec fn published(cache: StoreView, outcome: Result<StoreView, ApiError>) -> StoreView {
    match outcome {
        Ok(staged) => merged(cache, staged),
        Err(_) => cache,
    }
}

/// The rows that commit items of repository `owner/repo` become, in order;
/// `None` when a kept item's date does not parse.
pub open spec fn commit_rows(
    owner: Seq<char>,
    repo: Seq<char>,
    items: Seq<CommitItem>,
    policy: MergeCommitPolicy,
) -> Option<Seq<CommitView>>
    decreases items.len(),
{
    if items.len() == 0 {
        Some(Seq::empty())
    } else {
        match commit_rows(owner, repo, items.drop_last(), policy) {
            None => None,
            Some(rows) => {
                let it = items.last();
                if !keeps_commit(it, policy) {
                    Some(rows)
                } else {
                    match rfc3339_seconds(it.committed_at@) {
                        None => None,
                        Some(ts) => Some(rows.push(commit_view_of(owner, repo, it, ts))),
                    }
                }
            },
        }
    }
}

/// The rows that the entries of kind `kind` among `items` become, in order;
/// `None` when such an entry's date does not parse.
pub open spec fn issue_rows(
    owner: Seq<char>,
    repo: Seq<char>,
    items: Seq<IssueItem>,
    kind: ItemKind,
) -> Option<Seq<IssueView>>
    decreases items.len(),
{
    if items.len() == 0 {
        Some(Seq::empty())
    } else {
        match issue_rows(owner, repo, items.drop_last(), kind) {
            None => None,
            Some(rows) => {
                let it = items.last();
                if kind_of(it.html_url@) != kind {
                    Some(rows)
                } else {
                    match rfc3339_seconds(it.created_at@) {
                        None => None,
                        Some(ts) => Some(rows.push(issue_view_of(owner, repo, it, ts))),
                    }
                }
            },
        }
    }
}

proof fn lemma_commit_rows_none(
    owner: Seq<char>,
    repo: Seq<char>,
    items: Seq<CommitItem>,
    policy: MergeCommitPolicy,
    i: int,
)
    requires
        0 <= i <= items.len(),
        commit_rows(owner, repo, items.take(i), policy) is None,
    ensures
        commit_rows(owner, repo, items, policy) is None,
    decreases items.len(),
{
    if i == items.len() {
        assert(items.take(i) =~= items);
    } else {
        assert(items.drop_last().take(i) =~= items.take(i));
        lemma_commit_rows_none(owner, repo, items.drop_last(), policy, i);
    }
}

proof fn lemma_issue_rows_none(
    owner: Seq<char>,
    repo: Seq<char>,
    items: Seq<IssueItem>,
    kind: ItemKind,
    i: int,
)
    requires
        0 <= i <= items.len(),
        issue_rows(owner, repo, items.take(i), kind) is None,
    ensures
        issue_rows(owner, repo, items, kind) is None,
    decreases items.len(),
{
    if i == items.len() {
        assert(items.take(i) =~= items);
    } else {
        assert(items.drop_last().take(i) =~= items.take(i));
        lemma_issue_rows_none(owner, repo, items.drop_last(), kind, i);
    }
}

/// Rows added per table by a merge.
#[derive(Clone, Copy, Debug, PartialEq, Eq, Structural)]
pub struct MergeCounts {
    pub commits: usize,
    pub issues: usize,
    pub pull_requests: usize,
}

impl Store {
    pub open spec fn wf(&self) -> bool {
        store_wf(self@)
    }

    /// An empty store.
    pub fn new() -> (s: Store)
        ensures
            s.wf(),
            s@.commits.len() == 0,
            s@.issues.len() == 0,
            s@.pull_requests.len() == 0,
    {
        Store { commits: Table::new(), issues: Table::new(), pull_requests: Table::new() }
    }

    /// The commit table.
    pub fn commits(&self) -> (t: &Table<Commit>)
        ensures
            t@ == self@.commits,
    {
        &self.commits
    }

    /// The issue table.
    pub fn issues(&self) -> (t: &Table<Issue>)
        ensures
            t@ == self@.issues,
    {
        &self.issues
    }

    /// The pull request table.
    pub fn pull_requests(&self) -> (t: &Table<Issue>)
        ensures
            t@ == self@.pull_requests,
    {
        &self.pull_requests
    }

    /// Inserts a commit unless its key is present; returns whether it was added.
    pub fn insert_commit(&mut self, c: Commit) -> (added: bool)
        ensures
            final(self).wf(),
            final(self)@ == (StoreView {
                commits: insert_all::<Commit>(old(self)@.commits, seq![c@]),
                ..old(self)@
            }),
            added == (final(self)@.commits.len() > old(self)@.commits.len()),
    {
        self.commits.wf_holds();
        self.issues.wf_holds();
        self.pull_requests.wf_holds();
        let ghost v = c@;
        let added = self.commits.insert(c);
        assert(seq![v].drop_last() =~= Seq::<CommitView>::empty());
        assert(insert_all::<Commit>(old(self)@.commits, seq![v]) == crate::table::insert_one::<Commit>(
            insert_all::<Commit>(old(self)@.commits, Seq::empty()), v));
        added
    }

    /// Inserts an issue unless its key is present; returns whether it was added.
    pub fn insert_issue(&mut self, i: Issue) -> (added: bool)
        ensures
            final(self).wf(),
            final(self)@ == (StoreView {
                issues: insert_all::<Issue>(old(self)@.issues, seq![i@]),
                ..old(self)@
            }),
            added == (final(self)@.issues.len() > old(self)@.issues.len()),
    {
        self.commits.wf_holds();
        self.issues.wf_holds();
        self.pull_requests.wf_holds();
        let ghost v = i@;
        let added = self.issues.insert(i);
        assert(seq![v].drop_last() =~= Seq::<IssueView>::empty());
        assert(insert_all::<Issue>(old(self)@.issues, seq![v]) == crate::table::insert_one::<Issue>(
            insert_all::<Issue>(old(self)@.issues, Seq::empty()), v));
        added
    }

    /// Inserts a pull request unless its key is present; returns whether it
    /// was added.
    pub fn insert_pull_request(&mut self, p: Issue) -> (added: bool)
        ensures
            final(self).wf(),
            final(self)@ == (StoreView {
                pull_requests: insert_all::<Issue>(old(self)@.pull_requests, seq![p@]),
                ..old(self)@
            }),
            added == (final(self)@.pull_requests.len() > old(self)@.pull_requests.len()),
    {
        self.commits.wf_holds();
        self.issues.wf_holds();
        self.pull_requests.wf_holds();
        let ghost v = p@;
        let added = self.pull_requests.insert(p);
        assert(seq![v].drop_last() =~= Seq::<IssueView>::empty());
        assert(insert_all::<Issue>(old(self)@.pull_requests, seq![v]) == crate::table::insert_one::<Issue>(
            insert_all::<Issue>(old(self)@.pull_requests, Seq::empty()), v));
        added
    }

    /// Loads one page of commit items of repository `owner/repo`. Nothing is
    /// loaded when the date of a kept item does not parse.
    pub fn load_commits(
        &mut self,
        owner: &str,
        repo: &str,
        items: &Vec<CommitItem>,
        policy: MergeCommitPolicy,
    ) -> (r: Result<(), ApiError>)
        ensures
            final(self).wf(),
            match commit_rows(owner@, repo@, items@, policy) {
                Some(rows) => r is Ok && final(self)@ == (StoreView {
                    commits: insert_all::<Commit>(old(self)@.commits, rows),
                    ..old(self)@
                }),
                None => r == Err::<(), ApiError>(ApiError::MalformedTimestamp) && final(self)@
                    == old(self)@,
            },
    {
        self.commits.wf_holds();
        self.issues.wf_holds();
        self.pull_requests.wf_holds();
        let mut rows: Vec<Commit> = Vec::new();
        let mut i: usize = 0;
        while i < items.len()
            invariant
                i <= items@.len(),
                self@ == old(self)@,
                self.wf(),
                commit_rows(owner@, repo@, items@.take(i as int), policy) == Some(
                    rows@.map_values(|c: Commit| c@),
                ),
            decreases items@.len() - i,
        {
            let item = &items[i];
            assert(items@.take(i + 1).drop_last() =~= items@.take(i as int));
            assert(items@.take(i + 1).last() == *item);
            let merge_left_out = match policy {
                MergeCommitPolicy::Record => false,
                MergeCommitPolicy::Exclude => item.parents > 1,
            };
            if item.author.is_some() && !merge_left_out {
                match parse_rfc3339(item.committed_at.as_str()) {
                    None => {
                        proof {
                            lemma_commit_rows_none(owner@, repo@, items@, policy, i + 1);
                        }
                        return Err(ApiError::MalformedTimestamp);
                    },
                    Some(ts) => {
                        match commit_record(owner, repo, item, ts) {
                            Some(c) => {
                                let ghost before = rows@.map_values(|c: Commit| c@);
                                rows.push(c);
                                assert(rows@.map_values(|c: Commit| c@) =~= before.push(
                                    commit_view_of(owner@, repo@, *item, ts),
                                ));
                            },
                            None => {},
                        }
                    },
                }
            }
            i = i + 1;
        }
        assert(items@.take(i as int) =~= items@);
        self.commits.insert_all_from(&rows);
        Ok(())
    }

    /// Loads one page of the issues listing of repository `owner/repo`: each
    /// entry goes to the issue or the pull request table by the shape of its
    /// address, or nowhere. Nothing is loaded when the date of a selected
    /// entry does not parse.
    pub fn load_issues(&mut self, owner: &str, repo: &str, items: &Vec<IssueItem>) -> (r: Result<
        (),
        ApiError,
    >)
        ensures
            final(self).wf(),
            match (
                issue_rows(owner@, repo@, items@, ItemKind::Issue),
                issue_rows(owner@, repo@, items@, ItemKind::PullRequest),
            ) {
                (Some(issues), Some(pulls)) => r is Ok && final(self)@ == (StoreView {
                    issues: insert_all::<Issue>(old(self)@.issues, issues),
                    pull_requests: insert_all::<Issue>(old(self)@.pull_requests, pulls),
                    ..old(self)@
                }),
                _ => r == Err::<(), ApiError>(ApiError::MalformedTimestamp) && final(self)@
                    == old(self)@,
            },
    {
        self.commits.wf_holds();
        self.issues.wf_holds();
        self.pull_requests.wf_holds();
        let mut issues: Vec<Issue> = Vec::new();
        let mut pulls: Vec<Issue> = Vec::new();
        let mut i: usize = 0;
        while i < items.len()
            invariant
                i <= items@.len(),
                self@ == old(self)@,
                self.wf(),
                issue_rows(owner@, repo@, items@.take(i as int), ItemKind::Issue) == Some(
                    issues@.map_values(|c: Issue| c@),
                ),
                issue_rows(owner@, repo@, items@.take(i as int), ItemKind::PullRequest) == Some(
                    pulls@.map_values(|c: Issue| c@),
                ),
            decreases items@.len() - i,
        {
            let item = &items[i];
            assert(items@.take(i + 1).drop_last() =~= items@.take(i as int));
            assert(items@.take(i + 1).last() == *item);
            let kind = classify(item.html_url.as_str());
            match kind {
                ItemKind::Other => {},
                _ => {
                    match parse_rfc3339(item.created_at.as_str()) {
                        None => {
                            proof {
                                lemma_issue_rows_none(owner@, repo@, items@, kind, i + 1);
                            }
                            return Err(ApiError::MalformedTimestamp);
                        },
                        Some(ts) => {
                            let row = issue_record(owner, repo, item, ts);
                            if kind == ItemKind::Issue {
                                let ghost before = issues@.map_values(|c: Issue| c@);
                                issues.push(row);
                                assert(issues@.map_values(|c: Issue| c@) =~= before.push(
                                    issue_view_of(owner@, repo@, *item, ts),
                                ));
                            } else {
                                let ghost before = pulls@.map_values(|c: Issue| c@);
                                pulls.push(row);
                                assert(pulls@.map_values(|c: Issue| c@) =~= before.push(
                                    issue_view_of(owner@, repo@, *item, ts),
                                ));
                            }
                        },
                    }
                },
            }
            i = i + 1;
        }
        assert(items@.take(i as int) =~= items@);
        self.issues.insert_all_from(&issues);
        self.pull_requests.insert_all_from(&pulls);
        Ok(())
    }

    /// Merges every staged row into this cache with conflict-ignore
    /// semantics; returns how many rows each table gained.
    pub fn merge(&mut self, staged: &Store) -> (counts: MergeCounts)
        ensures
            final(self).wf(),
            final(self)@ == merged(old(self)@, staged@),
            counts.commits == final(self)@.commits.len() - old(self)@.commits.len(),
            counts.issues == final(self)@.issues.len() - old(self)@.issues.len(),
            counts.pull_requests == final(self)@.pull_requests.len() - old(
                self,
            )@.pull_requests.len(),
    {
        self.commits.wf_holds();
        self.issues.wf_holds();
        self.pull_requests.wf_holds();
        let commits = self.commits.insert_from(&staged.commits);
        let issues = self.issues.insert_from(&staged.issues);
        let pull_requests = self.pull_requests.insert_from(&staged.pull_requests);
        MergeCounts { commits, issues, pull_requests }
    }

    /// Ends a repository task: merges what it staged when its fetch
    /// succeeded; leaves the cache as it is, and hands the error back, when
    /// it failed.
    pub fn publish(&mut self, outcome: Result<Store, ApiError>) -> (r: Result<MergeCounts, ApiError>)
        ensures
            final(self).wf(),
            final(self)@ == published(
                old(self)@,
                match outcome {
                    Ok(s) => Ok(s@),
                    Err(e) => Err(e),
                },
            ),
            match outcome {
                Ok(_) => r is Ok,
                Err(e) => r == Err::<MergeCounts, ApiError>(e),
            },
    {
        self.commits.wf_holds();
        self.issues.wf_holds();
        self.pull_requests.wf_holds();
        match outcome {
            Ok(staged) => Ok(self.merge(&staged)),
            Err(e) => Err(e),
        }
    }

    /// The resume boundary for commits of `owner/repo`: the date of the most
    /// recent cached commit, or `None` when none is cached.
    pub fn commits_since(&self, owner: &str, repo: &str) -> (r: Option<i64>)
        ensures
            r == latest_ts::<Commit>(self@.commits, owner@, repo@),
    {
        self.commits.latest_ts(owner, repo)
    }

    /// The resume boundary for issues and pull requests of `owner/repo`: the
    /// older of the most recent cached issue and the most recent cached pull
    /// request; the one that exists when only one does.
    pub fn issues_since(&self, owner: &str, repo: &str) -> (r: Option<i64>)
        ensures
            r == older_of(
                latest_ts::<Issue>(self@.issues, owner@, repo@),
                latest_ts::<Issue>(self@.pull_requests, owner@, repo@),
            ),
    {
        let a = self.issues.latest_ts(owner, repo);
        let b = self.pull_requests.latest_ts(owner, repo);
        match (a, b) {
            (Some(x), Some(y)) => Some(if x < y { x } else { y }),
            (Some(x), None) => Some(x),
            (None, y) => y,
        }
    }
}

/// The earlier of two optional instants, ignoring an absent one.
pub open spec fn older_of(a: Option<i64>, b: Option<i64>) -> Option<i64> {
    match (a, b) {
        (Some(x), Some(y)) => Some(if x < y { x } else { y }),
        (Some(x), None) => Some(x),
        (None, y) => y,
    }
}

/// Every row of `s` belongs to repository `owner/repo`.
pub open spec fn of_repository(s: StoreView, owner: Seq<char>, repo: Seq<char>) -> bool {
    &&& forall|i: int| 0 <= i < s.commits.len() ==> (#[trigger] s.commits[i]).owner == owner
        && s.commits[i].repository == repo
    &&& forall|i: int| 0 <= i < s.issues.len() ==> (#[trigger] s.issues[i]).owner == owner
        && s.issues[i].repository == repo
    &&& forall|i: int| 0 <= i < s.pull_requests.len() ==> (#[trigger] s.pull_requests[i]).owner
        == owner && s.pull_requests[i].repository == repo
}

/// Row `row` was built from entry `item`, whose address has the shape of
/// `kind` and not of the other kind.
pub open spec fn row_from_entry(row: IssueView, item: IssueItem, kind: ItemKind) -> bool {
    &&& row.number == item.number
    &&& row.title == item.title@
    &&& row.author_id == item.user.id
    &&& kind == ItemKind::Issue ==> is_issue_url(item.html_url@) && !is_pull_url(item.html_url@)
    &&& kind == ItemKind::PullRequest ==> is_pull_url(item.html_url@) && !is_issue_url(
        item.html_url@,
    )
}

/// On a page mixing issues and pull requests, every row headed for the issue
/// table comes from an entry whose address is an issue's and not a pull
/// request's, and every row headed for the pull request table from an entry
/// whose address is a pull request's and not an issue's.
pub proof fn lemma_page_classified(
    owner: Seq<char>,
    repo: Seq<char>,
    items: Seq<IssueItem>,
    kind: ItemKind,
)
    requires
        kind != ItemKind::Other,
        issue_rows(owner, repo, items, kind) is Some,
    ensures
        forall|i: int|
            0 <= i < issue_rows(owner, repo, items, kind)->Some_0.len() ==> exists|k: int|
                0 <= k < items.len() && row_from_entry(
                    #[trigger] issue_rows(owner, repo, items, kind)->Some_0[i],
                    items[k],
                    kind,
                ),
    decreases items.len(),
{
    if items.len() > 0 {
        let prefix = items.drop_last();
        lemma_page_classified(owner, repo, prefix, kind);
        let prev = issue_rows(owner, repo, prefix, kind)->Some_0;
        let rows = issue_rows(owner, repo, items, kind)->Some_0;
        let it = items.last();
        lemma_url_kinds_exclusive(it.html_url@);
        assert forall|i: int| 0 <= i < rows.len() implies exists|k: int|
            0 <= k < items.len() && row_from_entry(#[trigger] rows[i], items[k], kind) by {
            if i < prev.len() {
                assert(rows[i] == prev[i]);
                let k = choose|k: int| 0 <= k < prefix.len() && row_from_entry(prev[i], prefix[k], kind);
                assert(items[k] == prefix[k]);
            } else {
                assert(row_from_entry(rows[i], items[items.len() - 1], kind));
            }
        }
    }
}

/// Merging the same staged records into the cache twice leaves the same
/// cache as merging them once.
pub proof fn lemma_merge_idempotent(cache: StoreView, staged: StoreView)
    ensures
        merged(merged(cache, staged), staged) == merged(cache, staged),
{
    lemma_insert_all_idempotent::<Commit>(cache.commits, staged.commits);
    lemma_insert_all_idempotent::<Issue>(cache.issues, staged.issues);
    lemma_insert_all_idempotent::<Issue>(cache.pull_requests, staged.pull_requests);
}

/// The cache after merging each staged store of `staged` in turn.
pub open spec fn merged_all(cache: StoreView, staged: Seq<StoreView>) -> StoreView
    decreases staged.len(),
{
    if staged.len() == 0 {
        cache
    } else {
        merged(merged_all(cache, staged.drop_last()), staged.last())
    }
}

/// Staged store `staged[k]` holds rows of repository `repos[k]` only, and no
/// two of them belong to the same repository.
pub open spec fn from_distinct_repositories(
    staged: Seq<StoreView>,
    repos: Seq<(Seq<char>, Seq<char>)>,
) -> bool {
    &&& staged.len() == repos.len()
    &&& forall|k: int|
        0 <= k < staged.len() ==> of_repository(#[trigger] staged[k], repos[k].0, repos[k].1)
    &&& forall|j: int, k: int|
        0 <= j < repos.len() && 0 <= k < repos.len() && j != k ==> #[trigger] repos[j]
            != #[trigger] repos[k]
}

proof fn lemma_merged_all_tables(cache: StoreView, staged: Seq<StoreView>)
    ensures
        merged_all(cache, staged).commits == insert_batches::<Commit>(
            cache.commits,
            staged.map_values(|s: StoreView| s.commits),
        ),
        merged_all(cache, staged).issues == insert_batches::<Issue>(
            cache.issues,
            staged.map_values(|s: StoreView| s.issues),
        ),
        merged_all(cache, staged).pull_requests == insert_batches::<Issue>(
            cache.pull_requests,
            staged.map_values(|s: StoreView| s.pull_requests),
        ),
    decreases staged.len(),
{
    if staged.len() > 0 {
        lemma_merged_all_tables(cache, staged.drop_last());
        assert(staged.drop_last().map_values(|s: StoreView| s.commits) =~= staged.map_values(
            |s: StoreView| s.commits,
        ).drop_last());
        assert(staged.drop_last().map_values(|s: StoreView| s.issues) =~= staged.map_values(
            |s: StoreView| s.issues,
        ).drop_last());
        assert(staged.drop_last().map_values(|s: StoreView| s.pull_requests) =~= staged.map_values(
            |s: StoreView| s.pull_requests,
        ).drop_last());
    }
}

proof fn lemma_distinct_batches(staged: Seq<StoreView>, repos: Seq<(Seq<char>, Seq<char>)>)
    requires
        from_distinct_repositories(staged, repos),
    ensures
        batches_disjoint::<Commit>(staged.map_values(|s: StoreView| s.commits)),
        batches_disjoint::<Issue>(staged.map_values(|s: StoreView| s.issues)),
        batches_disjoint::<Issue>(staged.map_values(|s: StoreView| s.pull_requests)),
{
    let c = staged.map_values(|s: StoreView| s.commits);
    let i = staged.map_values(|s: StoreView| s.issues);
    let p = staged.map_values(|s: StoreView| s.pull_requests);
    assert forall|j: int, k: int| 0 <= j < c.len() && 0 <= k < c.len() && j != k implies keys_disjoint::<Commit>(
        #[trigger] c[j],
        #[trigger] c[k],
    ) by {
        assert(of_repository(staged[j], repos[j].0, repos[j].1));
        assert(of_repository(staged[k], repos[k].0, repos[k].1));
        assert(repos[j] != repos[k]);
    }
    assert forall|j: int, k: int| 0 <= j < i.len() && 0 <= k < i.len() && j != k implies keys_disjoint::<Issue>(
        #[trigger] i[j],
        #[trigger] i[k],
    ) by {
        assert(of_repository(staged[j], repos[j].0, repos[j].1));
        assert(of_repository(staged[k], repos[k].0, repos[k].1));
        assert(repos[j] != repos[k]);
    }
    assert forall|j: int, k: int| 0 <= j < p.len() && 0 <= k < p.len() && j != k implies keys_disjoint::<Issue>(
        #[trigger] p[j],
        #[trigger] p[k],
    ) by {
        assert(of_repository(staged[j], repos[j].0, repos[j].1));
        assert(of_repository(staged[k], repos[k].0, repos[k].1));
        assert(repos[j] != repos[k]);
    }
}

proof fn lemma_map_same_set<A, B>(a: Seq<A>, b: Seq<A>, f: spec_fn(A) -> B)
    requires
        a.to_set() == b.to_set(),
    ensures
        a.map_values(f).to_set() == b.map_values(f).to_set(),
{
    assert forall|x: B| a.map_values(f).to_set().contains(x) implies b.map_values(f).to_set().contains(x) by {
        let k = choose|k: int| 0 <= k < a.map_values(f).len() && a.map_values(f)[k] == x;
        assert(a.to_set().contains(a[k]));
        let j = choose|j: int| 0 <= j < b.len() && b[j] == a[k];
        assert(b.map_values(f)[j] == x);
    }
    assert forall|x: B| b.map_values(f).to_set().contains(x) implies a.map_values(f).to_set().contains(x) by {
        let k = choose|k: int| 0 <= k < b.map_values(f).len() && b.map_values(f)[k] == x;
        assert(b.to_set().contains(b[k]));
        let j = choose|j: int| 0 <= j < a.len() && a[j] == b[k];
        assert(a.map_values(f)[j] == x);
    }
    assert(a.map_values(f).to_set() =~= b.map_values(f).to_set());
}

/// Repository tasks that run concurrently merge one at a time, under the
/// merge lock, in whatever order they finish. Merging the staged stores of
/// distinct repositories in any two orders leaves the same rows in every
/// table of the cache.
pub proof fn lemma_merge_order_independent(
    cache: StoreView,
    order_a: Seq<StoreView>,
    repos_a: Seq<(Seq<char>, Seq<char>)>,
    order_b: Seq<StoreView>,
    repos_b: Seq<(Seq<char>, Seq<char>)>,
)
    requires
        from_distinct_repositories(order_a, repos_a),
        from_distinct_repositories(order_b, repos_b),
        order_a.to_set() == order_b.to_set(),
    ensures
        merged_all(cache, order_a).commits.to_set() == merged_all(cache, order_b).commits.to_set(),
        merged_all(cache, order_a).issues.to_set() == merged_all(cache, order_b).issues.to_set(),
        merged_all(cache, order_a).pull_requests.to_set() == merged_all(
            cache,
            order_b,
        ).pull_requests.to_set(),
{
    lemma_merged_all_tables(cache, order_a);
    lemma_merged_all_tables(cache, order_b);
    lemma_distinct_batches(order_a, repos_a);
    lemma_distinct_batches(order_b, repos_b);
    lemma_map_same_set(order_a, order_b, |s: StoreView| s.commits);
    lemma_map_same_set(order_a, order_b, |s: StoreView| s.issues);
    lemma_map_same_set(order_a, order_b, |s: StoreView| s.pull_requests);
    lemma_insert_batches_order::<Commit>(
        cache.commits,
        order_a.map_values(|s: StoreView| s.commits),
        order_b.map_values(|s: StoreView| s.commits),
    );
    lemma_insert_batches_order::<Issue>(
        cache.issues,
        order_a.map_values(|s: StoreView| s.issues),
        order_b.map_values(|s: StoreView| s.issues),
    );
    lemma_insert_batches_order::<Issue>(
        cache.pull_requests,
        order_a.map_values(|s: StoreView| s.pull_requests),
        order_b.map_values(|s: StoreView| s.pull_requests),
    );
}

/// When repository A's task succeeds and then repository B's fails, the
/// cache holds A's records and nothing that B staged: it is the cache merged
/// with A's records alone, every row of it is a row of the cache before or of
/// A's staged records, and every key A staged is present.
pub proof fn lemma_failed_task_isolated(
    cache: StoreView,
    a: StoreView,
    b_staged: StoreView,
    b_error: ApiError,
)
    requires
        store_wf(cache),
    ensures
        ({
            let after = published(published(cache, Ok(a)), Err(b_error));
            &&& after == merged(cache, a)
            &&& store_wf(after)
            &&& forall|i: int| 0 <= i < after.commits.len() ==> cache.commits.contains(
                #[trigger] after.commits[i],
            ) || a.commits.contains(after.commits[i])
            &&& forall|i: int| 0 <= i < after.issues.len() ==> cache.issues.contains(
                #[trigger] after.issues[i],
            ) || a.issues.contains(after.issues[i])
            &&& forall|i: int| 0 <= i < after.pull_requests.len() ==> cache.pull_requests.contains(
                #[trigger] after.pull_requests[i],
            ) || a.pull_requests.contains(after.pull_requests[i])
            &&& forall|i: int| 0 <= i < a.commits.len() ==> crate::table::has_key::<Commit>(
                after.commits,
                Commit::key(#[trigger] a.commits[i]),
            )
        }),
{
    let after = merged(cache, a);
    lemma_insert_all_unique::<Commit>(cache.commits, a.commits);
    lemma_insert_all_unique::<Issue>(cache.issues, a.issues);
    lemma_insert_all_unique::<Issue>(cache.pull_requests, a.pull_requests);
    assert forall|i: int| 0 <= i < after.commits.len() implies cache.commits.contains(
        #[trigger] after.commits[i],
    ) || a.commits.contains(after.commits[i]) by {
        crate::table::lemma_insert_all_contains::<Commit>(cache.commits, a.commits, after.commits[i]);
    }
    assert forall|i: int| 0 <= i < after.issues.len() implies cache.issues.contains(
        #[trigger] after.issues[i],
    ) || a.issues.contains(after.issues[i]) by {
        crate::table::lemma_insert_all_contains::<Issue>(cache.issues, a.issues, after.issues[i]);
    }
    assert forall|i: int| 0 <= i < after.pull_requests.len() implies cache.pull_requests.contains(
        #[trigger] after.pull_requests[i],
    ) || a.pull_requests.contains(after.pull_requests[i]) by {
        crate::table::lemma_insert_all_contains::<Issue>(
            cache.pull_requests,
            a.pull_requests,
            after.pull_requests[i],
        );
    }
    assert forall|i: int| 0 <= i < a.commits.len() implies crate::table::has_key::<Commit>(
        after.commits,
        Commit::key(#[trigger] a.commits[i]),
    ) by {
        lemma_insert_all_keys::<Commit>(cache.commits, a.commits, Commit::key(a.commits[i]));
        assert(crate::table::has_key::<Commit>(a.commits, Commit::key(a.commits[i])));
    }
}

} // verus!
