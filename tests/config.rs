use contribcard::config::{credentials_from, parse_repositories, parse_repository, run_outcome, BaseCacheDB, RunError};
use contribcard::error::{ApiError, ConfigError};

#[test]
fn credentials_are_comma_separated() {
    assert_eq!(
        credentials_from("tok1,tok2,,tok3"),
        Ok(vec!["tok1".to_string(), "tok2".to_string(), "tok3".to_string()])
    );
    assert_eq!(credentials_from("single"), Ok(vec!["single".to_string()]));
    assert_eq!(credentials_from(""), Err(ConfigError::NoCredentials));
    assert_eq!(credentials_from(",,"), Err(ConfigError::NoCredentials));
}

#[test]
fn repository_entries_have_one_slash() {
    assert_eq!(parse_repository("acme/widgets"), Ok(("acme".to_string(), "widgets".to_string())));
    assert_eq!(parse_repository("/widgets"), Ok(("".to_string(), "widgets".to_string())));
    assert_eq!(parse_repository("acme"), Err(ConfigError::MalformedRepository("acme".to_string())));
    assert_eq!(
        parse_repository("acme/widgets/extra"),
        Err(ConfigError::MalformedRepository("acme/widgets/extra".to_string()))
    );
}

#[test]
fn first_malformed_entry_is_reported() {
    let entries = vec!["a/b".to_string(), "bad".to_string(), "c/d/e".to_string()];
    assert_eq!(parse_repositories(&entries), Err(ConfigError::MalformedRepository("bad".to_string())));
    let good = vec!["a/b".to_string(), "c/d".to_string()];
    assert_eq!(
        parse_repositories(&good),
        Ok(vec![("a".to_string(), "b".to_string()), ("c".to_string(), "d".to_string())])
    );
}

#[test]
fn run_fails_when_any_task_failed() {
    assert_eq!(run_outcome(&vec![]), Ok(()));
    assert_eq!(run_outcome(&vec![Ok(()), Ok(())]), Ok(()));
    assert_eq!(
        run_outcome(&vec![Ok(()), Err(ApiError::UnexpectedStatus(404)), Err(ApiError::QuotaExhausted)]),
        Err(RunError { failed_tasks: 2 })
    );
}

#[test]
fn base_cache_needs_a_url() {
    assert!(BaseCacheDB::new(None, Some("user".to_string()), None).is_none());
    let b = BaseCacheDB::new(Some("https://example.com/c.db".to_string()), Some("user".to_string()), None).unwrap();
    assert_eq!(b.url, "https://example.com/c.db");
    assert_eq!(b.username, Some("user".to_string()));
    assert_eq!(b.password, None);
}
