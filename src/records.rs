//! Records of the cache (commits, issues, pull requests), the page items they
//! are built from, and the rules that build them.

use vstd::prelude::*;
use crate::table::{Row, RowKey, RowId};
use crate::text::{same_text, chars_of, segment_ends_at, span_until, span_until_char, hash_text};

verus! {

/// A commit of a repository.
pub struct Commit {
    pub owner: String,
    pub repository: String,
    pub sha: String,
    pub author_id: i64,
    pub author_login: String,
    /// Commit date, in seconds since the epoch.
    pub ts: i64,
    /// First line of the commit message.
    pub title: String,
    /// Number of parent commits.
    pub parents: u32,
}

/// The value a [`Commit`] holds.
pub struct CommitView {
    pub owner: Seq<char>,
    pub repository: Seq<char>,
    pub sha: Seq<char>,
    pub author_id: i64,
    pub author_login: Seq<char>,
    pub ts: i64,
    pub title: Seq<char>,
    pub parents: u32,
}

impl View for Commit {
    type V = CommitView;

    open spec fn view(&self) -> CommitView {
        CommitView {
            owner: self.owner@,
            repository: self.repository@,
            sha: self.sha@,
            author_id: self.author_id,
            author_login: self.author_login@,
            ts: self.ts,
            title: self.title@,
            parents: self.parents,
        }
    }
}

impl Row for Commit {
    open spec fn key(v: CommitView) -> RowKey {
        RowKey { owner: v.owner, repository: v.repository, id: RowId::Sha(v.sha) }
    }

    fn key_matches(&self, other: &Self) -> (r: bool) {
        self.sha == other.sha && self.owner == other.owner && self.repository == other.repository
    }

    fn bucket(&self) -> (b: u64) {
        hash_text(self.repo_bucket(), self.sha.as_str())
    }

    fn repo_bucket(&self) -> (b: u64) {
        hash_text(hash_text(0, self.owner.as_str()), self.repository.as_str())
    }

    open spec fn timestamp(v: CommitView) -> i64 {
        v.ts
    }

    fn ts(&self) -> (r: i64) {
        self.ts
    }

    fn in_repository(&self, owner: &str, repo: &str) -> (r: bool) {
        same_text(&self.owner, owner) && same_text(&self.repository, repo)
    }

    fn duplicate(&self) -> (r: Self) {
        Commit {
            owner: self.owner.clone(),
            repository: self.repository.clone(),
            sha: self.sha.clone(),
            author_id: self.author_id,
            author_login: self.author_login.clone(),
            ts: self.ts,
            title: self.title.clone(),
            parents: self.parents,
        }
    }
}

/// An issue of a repository; a pull request has the same shape.
pub struct Issue {
    pub owner: String,
    pub repository: String,
    pub number: i64,
    pub author_id: i64,
    pub author_login: String,
    /// Creation date, in seconds since the epoch.
    pub ts: i64,
    pub title: String,
}

/// The value an [`Issue`] holds.
pub struct IssueView {
    pub owner: Seq<char>,
    pub repository: Seq<char>,
    pub number: i64,
    pub author_id: i64,
    pub author_login: Seq<char>,
    pub ts: i64,
    pub title: Seq<char>,
}

impl View for Issue {
    type V = IssueView;

    open spec fn view(&self) -> IssueView {
        IssueView {
            owner: self.owner@,
            repository: self.repository@,
            number: self.number,
            author_id: self.author_id,
            author_login: self.author_login@,
            ts: self.ts,
            title: self.title@,
        }
    }
}

impl Row for Issue {
    open spec fn key(v: IssueView) -> RowKey {
        RowKey { owner: v.owner, repository: v.repository, id: RowId::Number(v.number) }
    }

    fn key_matches(&self, other: &Self) -> (r: bool) {
        self.number == other.number && self.owner == other.owner && self.repository
            == other.repository
    }

    fn bucket(&self) -> (b: u64) {
        self.repo_bucket().wrapping_mul(31).wrapping_add(self.number as u64)
    }

    fn repo_bucket(&self) -> (b: u64) {
        hash_text(hash_text(0, self.owner.as_str()), self.repository.as_str())
    }

    open spec fn timestamp(v: IssueView) -> i64 {
        v.ts
    }

    fn ts(&self) -> (r: i64) {
        self.ts
    }

    fn in_repository(&self, owner: &str, repo: &str) -> (r: bool) {
        same_text(&self.owner, owner) && same_text(&self.repository, repo)
    }

    fn duplicate(&self) -> (r: Self) {
        Issue {
            owner: self.owner.clone(),
            repository: self.repository.clone(),
            number: self.number,
            author_id: self.author_id,
            author_login: self.author_login.clone(),
            ts: self.ts,
            title: self.title.clone(),
        }
    }
}

/// The author of a commit, or the user who opened an issue.
pub struct Author {
    pub id: i64,
    pub login: String,
}

/// A commit as a page of the commits listing describes it.
pub struct CommitItem {
    pub sha: String,
    /// The linked account of the author, when there is one.
    pub author: Option<Author>,
    /// The committer date, as RFC 3339 text.
    pub committed_at: String,
    pub message: String,
    pub parents: u32,
}

/// An entry of the issues listing, which holds issues and pull requests alike.
pub struct IssueItem {
    pub number: i64,
    pub user: Author,
    /// The creation date, as RFC 3339 text.
    pub created_at: String,
    /// The entry's page address, which tells an issue from a pull request.
    pub html_url: String,
    pub title: String,
}

/// What to do with merge commits (more than one parent).
#[derive(Clone, Copy, Debug, PartialEq, Eq, Structural)]
pub enum MergeCommitPolicy {
    /// Store them, with their parent count, and leave filtering to readers.
    Record,
    /// Leave them out of the cache.
    Exclude,
}

/// Whether a commit item becomes a row: it has a linked author, and it is not
/// a merge commit that the policy leaves out.
pub open spec fn keeps_commit(item: CommitItem, policy: MergeCommitPolicy) -> bool {
    item.author is Some && (policy == MergeCommitPolicy::Record || item.parents <= 1)
}

/// The first line of `s`: the characters before the first newline.
pub open spec fn first_line(s: Seq<char>) -> Seq<char> {
    s.take(span_until(s, '\n') as int)
}

/// The first line of `s`.
pub fn first_line_of(s: &str) -> (r: String)
    ensures
        r@ == first_line(s@),
{
    let n = span_until_char(s, '\n');
    String::from_str(s.substring_char(0, n))
}

/// The row a kept commit item becomes, given its commit date.
pub open spec fn commit_view_of(
    owner: Seq<char>,
    repo: Seq<char>,
    item: CommitItem,
    ts: i64,
) -> CommitView {
    CommitView {
        owner: owner,
        repository: repo,
        sha: item.sha@,
        author_id: item.author->Some_0.id,
        author_login: item.author->Some_0.login@,
        ts: ts,
        title: first_line(item.message@),
        parents: item.parents,
    }
}

/// The row of a commit item of repository `owner/repo` dated `ts`; `None`
/// when the commit has no linked author.
pub fn commit_record(owner: &str, repo: &str, item: &CommitItem, ts: i64) -> (r: Option<Commit>)
    ensures
        r is None <==> item.author is None,
        r matches Some(c) ==> c@ == commit_view_of(owner@, repo@, *item, ts),
{
    match &item.author {
        None => None,
        Some(author) => Some(
            Commit {
                owner: String::from_str(owner),
                repository: String::from_str(repo),
                sha: item.sha.clone(),
                author_id: author.id,
                author_login: author.login.clone(),
                ts: ts,
                title: first_line_of(item.message.as_str()),
                parents: item.parents,
            },
        ),
    }
}

/// The row an issue item becomes, given its creation date.
pub open spec fn issue_view_of(
    owner: Seq<char>,
    repo: Seq<char>,
    item: IssueItem,
    ts: i64,
) -> IssueView {
    IssueView {
        owner: owner,
        repository: repo,
        number: item.number,
        author_id: item.user.id,
        author_login: item.user.login@,
        ts: ts,
        title: item.title@,
    }
}

/// The row of an issue (or pull request) item of repository `owner/repo`
/// created at `ts`.
pub fn issue_record(owner: &str, repo: &str, item: &IssueItem, ts: i64) -> (r: Issue)
    ensures
        r@ == issue_view_of(owner@, repo@, *item, ts),
{
    Issue {
        owner: String::from_str(owner),
        repository: String::from_str(repo),
        number: item.number,
        author_id: item.user.id,
        author_login: item.user.login.clone(),
        ts: ts,
        title: item.title.clone(),
    }
}

/// Which table an entry of the issues listing belongs to.
#[derive(Clone, Copy, Debug, PartialEq, Eq, Structural)]
pub enum ItemKind {
    Issue,
    PullRequest,
    /// Neither: the entry is ignored.
    Other,
}

pub open spec fn is_ascii_digit(c: char) -> bool {
    '0' <= c <= '9'
}

/// Number of decimal digits that end `s`.
pub open spec fn trailing_digits(s: Seq<char>) -> nat
    decreases s.len(),
{
    if s.len() > 0 && is_ascii_digit(s.last()) {
        1 + trailing_digits(s.drop_last())
    } else {
        0
    }
}

/// Whether `url` ends with `seg` followed by one or more decimal digits.
pub open spec fn ends_with_number_under(url: Seq<char>, seg: Seq<char>) -> bool {
    let end = url.len() - trailing_digits(url);
    trailing_digits(url) > 0 && seg.len() <= end && url.subrange(end - seg.len(), end) == seg
}

/// An issue's page address: `.../issues/<number>`.
pub open spec fn is_issue_url(url: Seq<char>) -> bool {
    ends_with_number_under(url, "/issues/"@)
}

/// A pull request's page address: `.../pull/<number>`.
pub open spec fn is_pull_url(url: Seq<char>) -> bool {
    ends_with_number_under(url, "/pull/"@)
}

/// The kind of an entry, by the shape of its page address.
pub open spec fn kind_of(url: Seq<char>) -> ItemKind {
    if is_issue_url(url) {
        ItemKind::Issue
    } else if is_pull_url(url) {
        ItemKind::PullRequest
    } else {
        ItemKind::Other
    }
}

/// No address is both an issue's and a pull request's.
pub proof fn lemma_url_kinds_exclusive(url: Seq<char>)
    ensures
        !(is_issue_url(url) && is_pull_url(url)),
{
    reveal_strlit("/issues/");
    reveal_strlit("/pull/");
    if is_issue_url(url) && is_pull_url(url) {
        let end = url.len() - trailing_digits(url);
        assert(url.subrange(end - 8, end)[6] == url[end - 2]);
        assert(url.subrange(end - 6, end)[4] == url[end - 2]);
        assert("/issues/"@[6] == 's');
        assert("/pull/"@[4] == 'l');
    }
}

/// An address of a pull request is classified as a pull request and never as
/// an issue; an address of an issue as an issue and never as a pull request.
pub proof fn lemma_classification_correct(url: Seq<char>)
    ensures
        is_pull_url(url) ==> kind_of(url) == ItemKind::PullRequest,
        is_issue_url(url) ==> kind_of(url) == ItemKind::Issue,
{
    lemma_url_kinds_exclusive(url);
}

/// Classifies an entry of the issues listing by its page address.
pub fn classify(url: &str) -> (k: ItemKind)
    ensures
        k == kind_of(url@),
{
    let chars = chars_of(url);
    let n = chars.len();
    let mut end: usize = n;
    assert(url@.take(n as int) =~= url@);
    while end > 0 && '0' <= chars[end - 1] && chars[end - 1] <= '9'
        invariant
            n == url@.len(),
            chars@ == url@,
            end <= n,
            trailing_digits(url@) == trailing_digits(url@.take(end as int)) + (n - end),
        decreases end,
    {
        assert(url@.take(end as int).drop_last() =~= url@.take(end - 1));
        end = end - 1;
    }
    assert(trailing_digits(url@.take(end as int)) == 0);
    if end == n {
        return ItemKind::Other;
    }
    if segment_ends_at(&chars, end, &chars_of("/issues/")) {
        ItemKind::Issue
    } else if segment_ends_at(&chars, end, &chars_of("/pull/")) {
        ItemKind::PullRequest
    } else {
        ItemKind::Other
    }
}

} // verus!
