use contribcard::records::{Author, CommitItem, IssueItem, MergeCommitPolicy};
use contribcard::site::{contributions, file_name, image_path, ContributionKind};
use contribcard::store::Store;

#[test]
fn file_names_of_urls() {
    assert_eq!(file_name("https://example.com/images/logo.png"), Some("logo.png".to_string()));
    assert_eq!(file_name("not a url"), None);
    assert_eq!(file_name("data:text/plain,hello"), None);
    assert_eq!(image_path("https://example.com/a/favicon.ico"), Some("images/favicon.ico".to_string()));
}

#[test]
fn contributions_union_all_tables() {
    let mut s = Store::new();
    let commits = vec![CommitItem {
        sha: "c1".to_string(),
        author: Some(Author { id: 1, login: "alice".to_string() }),
        committed_at: "2024-01-01T00:00:00Z".to_string(),
        message: "Add".to_string(),
        parents: 1,
    }];
    s.load_commits("o", "r", &commits, MergeCommitPolicy::Record).unwrap();
    let issues = vec![
        IssueItem {
            number: 2,
            user: Author { id: 2, login: "bob".to_string() },
            created_at: "2024-01-02T00:00:00Z".to_string(),
            html_url: "https://github.com/o/r/issues/2".to_string(),
            title: "Bug".to_string(),
        },
        IssueItem {
            number: 3,
            user: Author { id: 1, login: "alice".to_string() },
            created_at: "2024-01-03T00:00:00Z".to_string(),
            html_url: "https://github.com/o/r/pull/3".to_string(),
            title: "Fix".to_string(),
        },
    ];
    s.load_issues("o", "r", &issues).unwrap();
    let all = contributions(&s);
    assert_eq!(all.len(), 3);
    assert_eq!(all[0].kind, ContributionKind::Commit);
    assert_eq!(all[0].sha, Some("c1".to_string()));
    assert_eq!(all[0].number, None);
    assert_eq!(all[1].kind, ContributionKind::Issue);
    assert_eq!(all[1].number, Some(2));
    assert_eq!(all[2].kind, ContributionKind::PullRequest);
    assert_eq!(all[2].author_login, "alice");
}
