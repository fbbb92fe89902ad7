use contribcard::records::{classify, commit_record, first_line_of, issue_record, Author, CommitItem, IssueItem, ItemKind};

#[test]
fn title_is_first_line() {
    assert_eq!(first_line_of("Fix the build\n\nIt was broken."), "Fix the build");
    assert_eq!(first_line_of("One line"), "One line");
    assert_eq!(first_line_of(""), "");
    assert_eq!(first_line_of("\nstarts empty"), "");
}

#[test]
fn urls_are_classified_by_shape() {
    assert_eq!(classify("https://github.com/acme/widgets/issues/12"), ItemKind::Issue);
    assert_eq!(classify("https://github.com/acme/widgets/pull/7"), ItemKind::PullRequest);
    assert_eq!(classify("https://github.com/acme/widgets/issues/"), ItemKind::Other);
    assert_eq!(classify("https://github.com/acme/widgets/issues/12/x"), ItemKind::Other);
    assert_eq!(classify("https://github.com/acme/widgets/pulls/7"), ItemKind::Other);
    assert_eq!(classify("/pull/1"), ItemKind::PullRequest);
    assert_eq!(classify(""), ItemKind::Other);
}

#[test]
fn records_carry_item_fields() {
    let item = CommitItem {
        sha: "abc".to_string(),
        author: None,
        committed_at: "2024-01-01T00:00:00Z".to_string(),
        message: "m".to_string(),
        parents: 1,
    };
    assert!(commit_record("o", "r", &item, 5).is_none());
    let item = CommitItem { author: Some(Author { id: 3, login: "carol".to_string() }), ..item };
    let c = commit_record("o", "r", &item, 5).unwrap();
    assert_eq!((c.sha.as_str(), c.author_login.as_str(), c.ts, c.title.as_str()), ("abc", "carol", 5, "m"));
    let issue = IssueItem {
        number: 4,
        user: Author { id: 8, login: "dave".to_string() },
        created_at: "x".to_string(),
        html_url: "https://github.com/o/r/issues/4".to_string(),
        title: "t".to_string(),
    };
    let i = issue_record("o", "r", &issue, 11);
    assert_eq!((i.owner.as_str(), i.repository.as_str(), i.number, i.author_id, i.ts), ("o", "r", 4, 8, 11));
}
