use contribcard::api::{commits_url, issues_url, org_repos_url, quota_nearly_spent, since_text, Paginator};
use contribcard::error::ApiError;

#[test]
fn addresses_of_listings() {
    assert_eq!(
        org_repos_url("cncf"),
        "https://api.github.com/orgs/cncf/repos?type=public&per_page=100"
    );
    assert_eq!(
        commits_url("acme", "widgets", Some("2024-01-02T03:04:05+00:00")),
        "https://api.github.com/repos/acme/widgets/commits?per_page=100&since=2024-01-02T03:04:05+00:00"
    );
    assert_eq!(
        issues_url("acme", "widgets", None),
        "https://api.github.com/repos/acme/widgets/issues?state=all&per_page=100"
    );
}

#[test]
fn boundary_written_as_date() {
    assert_eq!(since_text(None), Ok(None));
    assert_eq!(since_text(Some(1704164645)), Ok(Some("2024-01-02T03:04:05+00:00".to_string())));
    assert_eq!(since_text(Some(i64::MAX)), Err(ApiError::TimestampOutOfRange));
}

#[test]
fn quota_header_decides_retirement() {
    assert_eq!(quota_nearly_spent(None), Err(ApiError::MissingRateLimitHeader));
    assert_eq!(quota_nearly_spent(Some("many")), Err(ApiError::MalformedRateLimitHeader));
    assert_eq!(quota_nearly_spent(Some("")), Err(ApiError::MalformedRateLimitHeader));
    assert_eq!(quota_nearly_spent(Some("100050")), Ok(false));
    assert_eq!(quota_nearly_spent(Some("101")), Ok(false));
    assert_eq!(quota_nearly_spent(Some("100")), Ok(true));
    assert_eq!(quota_nearly_spent(Some("99")), Ok(true));
    assert_eq!(quota_nearly_spent(Some("-1")), Ok(true));
}

#[test]
fn paginator_stops_on_error_status() {
    let mut p = Paginator::new("https://api.github.com/x".to_string());
    assert_eq!(p.next_url(), Some("https://api.github.com/x".to_string()));
    assert_eq!(p.on_page(404, "[{}]", None), Err(ApiError::UnexpectedStatus(404)));
    assert_eq!(p.next_url(), None);
}

#[test]
fn paginator_stops_on_empty_page() {
    let link = "<https://api.github.com/x?page=2>; rel=\"next\"";
    let mut p = Paginator::new("https://api.github.com/x".to_string());
    assert_eq!(p.on_page(200, "[]", Some(link)), Ok(false));
    assert_eq!(p.next_url(), None);
}

#[test]
fn paginator_follows_next_relation() {
    let link = "<https://api.github.com/x?page=2>; rel=\"next\", <https://api.github.com/x?page=9>; rel=\"last\"";
    let mut p = Paginator::new("https://api.github.com/x".to_string());
    assert_eq!(p.on_page(200, "[1]", Some(link)), Ok(true));
    assert_eq!(p.next_url(), Some("https://api.github.com/x?page=2".to_string()));
    let last_only = "<https://api.github.com/x?page=9>; rel=\"last\"";
    assert_eq!(p.on_page(200, "[1]", Some(last_only)), Ok(true));
    assert_eq!(p.next_url(), None);
}

#[test]
fn paginator_rejects_malformed_link() {
    let mut p = Paginator::new("https://api.github.com/x".to_string());
    assert_eq!(p.on_page(200, "[1]", Some("<https://api.github.com/x?page=2>; next")), Err(ApiError::MalformedLinkHeader));
    assert_eq!(p.next_url(), None);
    let mut q = Paginator::new("https://api.github.com/x".to_string());
    assert_eq!(q.on_page(200, "[1]", None), Ok(true));
    assert_eq!(q.next_url(), None);
}
