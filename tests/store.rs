use contribcard::error::ApiError;
use contribcard::records::{Author, CommitItem, IssueItem, MergeCommitPolicy};
use contribcard::store::Store;

fn commit_item(sha: &str, ts: &str, parents: u32) -> CommitItem {
    CommitItem {
        sha: sha.to_string(),
        author: Some(Author { id: 7, login: "alice".to_string() }),
        committed_at: ts.to_string(),
        message: format!("Change {sha}\n\nLonger description"),
        parents,
    }
}

fn issue_item(number: i64, url: &str, ts: &str) -> IssueItem {
    IssueItem {
        number,
        user: Author { id: 9, login: "bob".to_string() },
        created_at: ts.to_string(),
        html_url: url.to_string(),
        title: format!("Entry {number}"),
    }
}

fn staged_for(owner: &str, repo: &str, shas: &[&str]) -> Store {
    let mut s = Store::new();
    let items: Vec<CommitItem> = shas
        .iter()
        .enumerate()
        .map(|(i, sha)| commit_item(sha, &format!("2024-01-0{}T00:00:00Z", i + 1), 1))
        .collect();
    s.load_commits(owner, repo, &items, MergeCommitPolicy::Record).unwrap();
    s
}

fn commit_keys(s: &Store) -> Vec<(String, String, String)> {
    let t = s.commits();
    let mut keys: Vec<(String, String, String)> = (0..t.len())
        .map(|i| {
            let c = t.get(i);
            (c.owner.clone(), c.repository.clone(), c.sha.clone())
        })
        .collect();
    keys.sort();
    keys
}

#[test]
fn load_commits_builds_rows() {
    let mut s = Store::new();
    let items = vec![commit_item("c1", "2024-01-02T03:04:05Z", 1)];
    assert_eq!(s.load_commits("acme", "widgets", &items, MergeCommitPolicy::Record), Ok(()));
    let c = s.commits().get(0);
    assert_eq!(c.owner, "acme");
    assert_eq!(c.repository, "widgets");
    assert_eq!(c.sha, "c1");
    assert_eq!(c.author_id, 7);
    assert_eq!(c.author_login, "alice");
    assert_eq!(c.ts, 1704164645);
    assert_eq!(c.title, "Change c1");
    assert_eq!(c.parents, 1);
}

#[test]
fn commits_without_author_are_left_out() {
    let mut s = Store::new();
    let mut orphan = commit_item("c2", "2024-01-02T03:04:05Z", 1);
    orphan.author = None;
    let items = vec![commit_item("c1", "2024-01-02T03:04:05Z", 1), orphan];
    s.load_commits("acme", "widgets", &items, MergeCommitPolicy::Record).unwrap();
    assert_eq!(s.commits().len(), 1);
}

#[test]
fn merge_commit_policy_applies() {
    let items = vec![
        commit_item("c1", "2024-01-02T03:04:05Z", 1),
        commit_item("m1", "2024-01-03T03:04:05Z", 2),
    ];
    let mut kept = Store::new();
    kept.load_commits("acme", "widgets", &items, MergeCommitPolicy::Record).unwrap();
    assert_eq!(kept.commits().len(), 2);
    assert_eq!(kept.commits().get(1).parents, 2);
    let mut excluded = Store::new();
    excluded.load_commits("acme", "widgets", &items, MergeCommitPolicy::Exclude).unwrap();
    assert_eq!(excluded.commits().len(), 1);
    assert_eq!(excluded.commits().get(0).sha, "c1");
}

#[test]
fn malformed_date_loads_nothing() {
    let mut s = Store::new();
    let items = vec![
        commit_item("c1", "2024-01-02T03:04:05Z", 1),
        commit_item("c2", "yesterday", 1),
    ];
    assert_eq!(
        s.load_commits("acme", "widgets", &items, MergeCommitPolicy::Record),
        Err(ApiError::MalformedTimestamp)
    );
    assert_eq!(s.commits().len(), 0);
}

#[test]
fn staging_ignores_refetched_records() {
    let mut s = Store::new();
    let items = vec![
        commit_item("c1", "2024-01-02T03:04:05Z", 1),
        commit_item("c1", "2024-01-02T03:04:05Z", 1),
    ];
    s.load_commits("acme", "widgets", &items, MergeCommitPolicy::Record).unwrap();
    assert_eq!(s.commits().len(), 1);
}

#[test]
fn mixed_page_is_classified() {
    let mut s = Store::new();
    let items = vec![
        issue_item(1, "https://github.com/acme/widgets/issues/1", "2024-01-01T00:00:00Z"),
        issue_item(2, "https://github.com/acme/widgets/pull/2", "2024-01-02T00:00:00Z"),
        issue_item(3, "https://github.com/acme/widgets/issues/3", "2024-01-03T00:00:00Z"),
        issue_item(4, "https://github.com/acme/widgets/discussions/4", "not a date"),
    ];
    assert_eq!(s.load_issues("acme", "widgets", &items), Ok(()));
    assert_eq!(s.issues().len(), 2);
    assert_eq!(s.issues().get(0).number, 1);
    assert_eq!(s.issues().get(1).number, 3);
    assert_eq!(s.pull_requests().len(), 1);
    assert_eq!(s.pull_requests().get(0).number, 2);
    assert_eq!(s.pull_requests().get(0).ts, 1704153600);
    assert_eq!(s.pull_requests().get(0).author_login, "bob");
}

#[test]
fn merge_twice_is_merge_once() {
    let staged = staged_for("acme", "widgets", &["c1", "c2"]);
    let mut once = Store::new();
    let first = once.merge(&staged);
    assert_eq!(first.commits, 2);
    let mut twice = Store::new();
    twice.merge(&staged);
    let second = twice.merge(&staged);
    assert_eq!(second.commits, 0);
    assert_eq!(second.issues, 0);
    assert_eq!(second.pull_requests, 0);
    assert_eq!(commit_keys(&once), commit_keys(&twice));
}

#[test]
fn merge_order_does_not_matter() {
    let a = staged_for("acme", "widgets", &["a1", "a2"]);
    let b = staged_for("acme", "gadgets", &["b1", "a1"]);
    let mut ab = staged_for("acme", "widgets", &["old"]);
    let mut ba = staged_for("acme", "widgets", &["old"]);
    ab.merge(&a);
    ab.merge(&b);
    ba.merge(&b);
    ba.merge(&a);
    assert_eq!(ab.commits().len(), 5);
    assert_eq!(commit_keys(&ab), commit_keys(&ba));
}

#[test]
fn failed_task_leaves_no_rows() {
    let mut cache = Store::new();
    let a = staged_for("acme", "widgets", &["a1", "a2"]);
    let b = staged_for("acme", "gadgets", &["b1"]);
    assert!(cache.publish(Ok(a)).is_ok());
    drop(b);
    assert_eq!(cache.publish(Err(ApiError::UnexpectedStatus(502))), Err(ApiError::UnexpectedStatus(502)));
    let keys = commit_keys(&cache);
    assert_eq!(keys.len(), 2);
    assert!(keys.iter().all(|k| k.1 == "widgets"));
}

#[test]
fn commit_boundary_is_latest_commit() {
    let mut cache = Store::new();
    assert_eq!(cache.commits_since("acme", "widgets"), None);
    cache.merge(&staged_for("acme", "widgets", &["c1", "c2", "c3"]));
    cache.merge(&staged_for("acme", "other", &["x1", "x2", "x3", "x4"]));
    // 2024-01-03T00:00:00Z
    assert_eq!(cache.commits_since("acme", "widgets"), Some(1704240000));
    let t = cache.commits();
    for i in 0..t.len() {
        let c = t.get(i);
        if c.repository == "widgets" {
            assert!(cache.commits_since("acme", "widgets").unwrap() >= c.ts);
        }
    }
}

#[test]
fn issue_boundary_is_older_of_both() {
    let mut cache = Store::new();
    assert_eq!(cache.issues_since("acme", "widgets"), None);
    let mut staged = Store::new();
    let items = vec![
        issue_item(1, "https://github.com/acme/widgets/issues/1", "2024-01-05T00:00:00Z"),
        issue_item(2, "https://github.com/acme/widgets/pull/2", "2024-01-02T00:00:00Z"),
    ];
    staged.load_issues("acme", "widgets", &items).unwrap();
    cache.merge(&staged);
    assert_eq!(cache.issues_since("acme", "widgets"), Some(1704153600));

    let mut only_issues = Store::new();
    let mut staged = Store::new();
    staged
        .load_issues(
            "acme",
            "widgets",
            &vec![issue_item(1, "https://github.com/acme/widgets/issues/1", "2024-01-05T00:00:00Z")],
        )
        .unwrap();
    only_issues.merge(&staged);
    assert_eq!(only_issues.issues_since("acme", "widgets"), Some(1704412800));
}

#[test]
fn merges_of_three_repositories_in_every_order_agree() {
    let stores = || {
        vec![
            staged_for("acme", "widgets", &["w1", "w2"]),
            staged_for("acme", "gadgets", &["g1", "w1"]),
            staged_for("other", "widgets", &["o1"]),
        ]
    };
    let orders = [[0, 1, 2], [0, 2, 1], [1, 0, 2], [1, 2, 0], [2, 0, 1], [2, 1, 0]];
    let mut contents = vec![];
    for order in orders {
        let staged = stores();
        let mut cache = staged_for("acme", "widgets", &["w1"]);
        for k in order {
            cache.merge(&staged[k]);
        }
        contents.push(commit_keys(&cache));
    }
    assert_eq!(contents[0].len(), 5);
    assert!(contents.iter().all(|c| *c == contents[0]));
}

#[test]
fn many_repositories_with_equal_numbers_stay_distinct() {
    let mut cache = Store::new();
    for round in 0..2 {
        for r in 0..30 {
            let repo = format!("repo{r}");
            let items: Vec<IssueItem> = (1..=20)
                .map(|n| issue_item(n, &format!("https://github.com/acme/{repo}/issues/{n}"), "2024-01-01T00:00:00Z"))
                .collect();
            let mut staged = Store::new();
            staged.load_issues("acme", &repo, &items).unwrap();
            let counts = cache.merge(&staged);
            assert_eq!(counts.issues, if round == 0 { 20 } else { 0 });
        }
    }
    assert_eq!(cache.issues().len(), 600);
}
