use contribcard::collector::{Phase, RepoTask, Step};
use contribcard::error::ApiError;
use contribcard::records::{Author, CommitItem, IssueItem, MergeCommitPolicy};
use contribcard::store::Store;

fn commits() -> Vec<CommitItem> {
    ["c1", "c2", "c3"]
        .iter()
        .enumerate()
        .map(|(i, sha)| CommitItem {
            sha: sha.to_string(),
            author: Some(Author { id: 1, login: "alice".to_string() }),
            committed_at: format!("2024-02-0{}T10:00:00Z", i + 1),
            message: format!("Commit {sha}"),
            parents: 1,
        })
        .collect()
}

fn issues() -> Vec<IssueItem> {
    (1..=2)
        .map(|n| IssueItem {
            number: n,
            user: Author { id: 2, login: "bob".to_string() },
            created_at: format!("2024-02-0{n}T12:00:00Z"),
            html_url: format!("https://github.com/acme/widgets/issues/{n}"),
            title: format!("Issue {n}"),
        })
        .collect()
}

/// Runs one collection of acme/widgets against `cache`, answering every page
/// request with the whole upstream listing on a single page.
fn run_once(cache: &mut Store) -> (Vec<String>, usize) {
    let mut task = RepoTask::start("acme", "widgets", MergeCommitPolicy::Record, cache).unwrap();
    let mut urls = vec![];
    let mut added = 0;
    loop {
        match task.next_step() {
            Step::Fetch(url) => {
                urls.push(url);
                assert_eq!(task.on_page(200, "[{}]", None), Ok(true));
                if task.phase() == Phase::Commits {
                    task.load_commits(&commits()).unwrap();
                } else {
                    task.load_issues(&issues()).unwrap();
                }
            }
            Step::Merge => {
                let counts = task.merge_into(cache).unwrap();
                added += counts.commits + counts.issues + counts.pull_requests;
            }
            Step::Finished => break,
        }
    }
    (urls, added)
}

#[test]
fn first_and_second_run_of_one_repository() {
    let mut cache = Store::new();
    let (urls, added) = run_once(&mut cache);
    assert_eq!(
        urls,
        vec![
            "https://api.github.com/repos/acme/widgets/commits?per_page=100".to_string(),
            "https://api.github.com/repos/acme/widgets/issues?state=all&per_page=100".to_string(),
        ]
    );
    assert_eq!(added, 5);
    assert_eq!(cache.commits().len(), 3);
    assert_eq!(cache.issues().len(), 2);
    assert_eq!(cache.pull_requests().len(), 0);

    let (urls, added) = run_once(&mut cache);
    assert_eq!(
        urls,
        vec![
            "https://api.github.com/repos/acme/widgets/commits?per_page=100&since=2024-02-03T10:00:00+00:00"
                .to_string(),
            "https://api.github.com/repos/acme/widgets/issues?state=all&per_page=100&since=2024-02-02T12:00:00+00:00"
                .to_string(),
        ]
    );
    assert_eq!(added, 0);
    assert_eq!(cache.commits().len(), 3);
    assert_eq!(cache.issues().len(), 2);
}

#[test]
fn failed_page_ends_the_task() {
    let cache = Store::new();
    let mut task = RepoTask::start("acme", "widgets", MergeCommitPolicy::Record, &cache).unwrap();
    assert_eq!(task.on_page(500, "oops", None), Err(ApiError::UnexpectedStatus(500)));
    assert_eq!(task.next_step(), Step::Merge);
}

#[test]
fn task_follows_next_links() {
    let cache = Store::new();
    let mut task = RepoTask::start("acme", "widgets", MergeCommitPolicy::Record, &cache).unwrap();
    let link = "<https://api.github.com/repositories/1/commits?per_page=100&page=2>; rel=\"next\", <https://api.github.com/repositories/1/commits?per_page=100&page=5>; rel=\"last\"";
    assert_eq!(task.on_page(200, "[{}]", Some(link)), Ok(true));
    assert_eq!(
        task.next_step(),
        Step::Fetch("https://api.github.com/repositories/1/commits?per_page=100&page=2".to_string())
    );
    assert_eq!(task.on_page(200, "[]", None), Ok(false));
    assert_eq!(task.next_step(), Step::Merge);
}

#[test]
fn resumed_run_starts_from_cached_dates() {
    let mut cache = Store::new();
    run_once(&mut cache);
    let mut task = RepoTask::start("acme", "widgets", MergeCommitPolicy::Record, &cache).unwrap();
    assert_eq!(
        task.next_step(),
        Step::Fetch(
            "https://api.github.com/repos/acme/widgets/commits?per_page=100&since=2024-02-03T10:00:00+00:00"
                .to_string()
        )
    );
    assert_eq!(task.on_page(200, "[]", None), Ok(false));
    let counts = task.merge_into(&mut cache).unwrap();
    assert_eq!((counts.commits, counts.issues, counts.pull_requests), (0, 0, 0));
    assert_eq!(task.phase(), Phase::Issues);
    assert_eq!(
        task.next_step(),
        Step::Fetch(
            "https://api.github.com/repos/acme/widgets/issues?state=all&per_page=100&since=2024-02-02T12:00:00+00:00"
                .to_string()
        )
    );
}
