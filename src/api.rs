//! The upstream REST API as the collector sees it: the addresses it asks
//! for, the response headers it reads, and the paginator that walks a paged
//! listing.

use vstd::prelude::*;
use crate::clock::{FIRST_SECOND_OF_YEAR_1, LAST_SECOND_OF_YEAR_9999, format_rfc3339, rfc3339_text};
use crate::error::ApiError;
use crate::records::is_ascii_digit;

verus! {

/// Remaining-quota value at or below which a credential is retired.
pub const MIN_RATELIMIT_REMAINING: i64 = 100;

/// Address of the first page of the public repositories of organization `org`.
pub open spec fn org_repos_url_spec(org: Seq<char>) -> Seq<char> {
    "https://api.github.com/orgs/"@ + org + "/repos?type=public&per_page=100"@
}

/// Address of the first page of the public repositories of organization `org`.
pub fn org_repos_url(org: &str) -> (r: String)
    ensures
        r@ == org_repos_url_spec(org@),
{
    let mut u = String::from_str("https://api.github.com/orgs/");
    u.append(org);
    u.append("/repos?type=public&per_page=100");
    u
}

/// The `&since=` parameter for a resume boundary written as a date; nothing
/// without a boundary.
pub open spec fn since_suffix(since: Option<Seq<char>>) -> Seq<char> {
    match since {
        Some(t) => "&since="@ + t,
        None => Seq::empty(),
    }
}

fn append_since(u: &mut String, since: Option<&str>)
    ensures
        final(u)@ == old(u)@ + since_suffix(
            match since {
                Some(t) => Some(t@),
                None => None,
            },
        ),
{
    match since {
        Some(t) => {
            u.append("&since=");
            u.append(t);
        },
        None => {
            assert(old(u)@ + Seq::<char>::empty() =~= old(u)@);
        },
    }
}

/// Address of the first page of the commits of `owner/repo`.
pub open spec fn commits_url_spec(owner: Seq<char>, repo: Seq<char>, since: Option<Seq<char>>) -> Seq<
    char,
> {
    "https://api.github.com/repos/"@ + owner + "/"@ + repo + "/commits?per_page=100"@
        + since_suffix(since)
}

/// Address of the first page of the commits of `owner/repo`, from date
/// `since` on when one is given.
pub fn commits_url(owner: &str, repo: &str, since: Option<&str>) -> (r: String)
    ensures
        r@ == commits_url_spec(
            owner@,
            repo@,
            match since {
                Some(t) => Some(t@),
                None => None,
            },
        ),
{
    let mut u = String::from_str("https://api.github.com/repos/");
    u.append(owner);
    u.append("/");
    u.append(repo);
    u.append("/commits?per_page=100");
    append_since(&mut u, since);
    u
}

/// Address of the first page of the issues and pull requests of `owner/repo`.
pub open spec fn issues_url_spec(owner: Seq<char>, repo: Seq<char>, since: Option<Seq<char>>) -> Seq<
    char,
> {
    "https://api.github.com/repos/"@ + owner + "/"@ + repo + "/issues?state=all&per_page=100"@
        + since_suffix(since)
}

/// Address of the first page of the issues and pull requests of
/// `owner/repo`, from date `since` on when one is given.
pub fn issues_url(owner: &str, repo: &str, since: Option<&str>) -> (r: String)
    ensures
        r@ == issues_url_spec(
            owner@,
            repo@,
            match since {
                Some(t) => Some(t@),
                None => None,
            },
        ),
{
    let mut u = String::from_str("https://api.github.com/repos/");
    u.append(owner);
    u.append("/");
    u.append(repo);
    u.append("/issues?state=all&per_page=100");
    append_since(&mut u, since);
    u
}

/// The `since` text of a resume boundary: `Some(None)` without a boundary,
/// `Some(Some(date))` with one, `None` when the boundary cannot be written as
/// a date.
pub open spec fn boundary_text(boundary: Option<i64>) -> Option<Option<Seq<char>>> {
    match boundary {
        None => Some(None),
        Some(t) => match rfc3339_text(t) {
            Some(s) => Some(Some(s)),
            None => None,
        },
    }
}

/// A resume boundary written as a date: nothing without a boundary, an error
/// exactly when the boundary cannot be written as a date.
pub fn since_text(boundary: Option<i64>) -> (r: Result<Option<String>, ApiError>)
    ensures
        match boundary_text(boundary) {
            Some(None) => r matches Ok(None),
            Some(Some(d)) => r matches Ok(Some(s)) && s@ == d,
            None => r == Err::<Option<String>, ApiError>(ApiError::TimestampOutOfRange),
        },
        boundary matches Some(t) && FIRST_SECOND_OF_YEAR_1 <= t <= LAST_SECOND_OF_YEAR_9999 ==> r is Ok,
{
    match boundary {
        None => Ok(None),
        Some(t) => match format_rfc3339(t) {
            Some(s) => Ok(Some(s)),
            None => Err(ApiError::TimestampOutOfRange),
        },
    }
}

/// What a link header says of the `next` relation: `None` when the header
/// does not parse, else the raw address of that relation, if there is one.
pub uninterp spec fn next_link_of(header: Seq<char>) -> Option<Option<Seq<char>>>;

/// Relies on `parse_link_header::parse_with_rel` to parse a link header, and
/// takes the raw address of its `next` relation; the result depends on the
/// header alone.
#[verifier::external_body]
fn next_link(header: &str) -> (r: Option<Option<String>>)
    ensures
        match r {
            None => next_link_of(header@) is None,
            Some(None) => next_link_of(header@) == Some(None::<Seq<char>>),
            Some(Some(u)) => next_link_of(header@) == Some(Some(u@)),
        },
{
    parse_link_header::parse_with_rel(header).ok().map(|rels| rels.get("next").map(|l| l.raw_uri.clone()))
}

/// Value of a run of decimal digits.
pub open spec fn digits_value(s: Seq<char>) -> int
    decreases s.len(),
{
    if s.len() == 0 {
        0
    } else {
        digits_value(s.drop_last()) * 10 + ((s.last() as u32) - ('0' as u32))
    }
}

/// The integer that `s` writes: an optional sign, then one or more decimal
/// digits.
pub open spec fn decimal_value(s: Seq<char>) -> Option<int> {
    if s.len() > 0 && (s[0] == '-' || s[0] == '+') {
        let d = s.drop_first();
        if d.len() > 0 && forall|i: int| 0 <= i < d.len() ==> is_ascii_digit(#[trigger] d[i]) {
            Some(
                if s[0] == '-' {
                    -digits_value(d)
                } else {
                    digits_value(d)
                },
            )
        } else {
            None
        }
    } else if s.len() > 0 && forall|i: int| 0 <= i < s.len() ==> is_ascii_digit(#[trigger] s[i]) {
        Some(digits_value(s))
    } else {
        None
    }
}

/// The `i64` that `s` writes, if it writes one in range.
pub open spec fn i64_value(s: Seq<char>) -> Option<i64> {
    match decimal_value(s) {
        Some(v) => if i64::MIN <= v <= i64::MAX {
            Some(v as i64)
        } else {
            None
        },
        None => None,
    }
}

/// Relies on `str::parse::<i64>`, documented to accept an optional `+` or
/// `-` followed by decimal digits and nothing else, and to fail on overflow.
#[verifier::external_body]
fn parse_i64(s: &str) -> (r: Option<i64>)
    ensures
        r == i64_value(s@),
{
    s.parse::<i64>().ok()
}

/// Whether the remaining-quota header says the credential is nearly spent
/// (at or below the retirement threshold).
pub fn quota_nearly_spent(remaining: Option<&str>) -> (r: Result<bool, ApiError>)
    ensures
        match remaining {
            None => r == Err::<bool, ApiError>(ApiError::MissingRateLimitHeader),
            Some(h) => match i64_value(h@) {
                None => r == Err::<bool, ApiError>(ApiError::MalformedRateLimitHeader),
                Some(v) => r == Ok::<bool, ApiError>(v <= MIN_RATELIMIT_REMAINING),
            },
        },
{
    match remaining {
        None => Err(ApiError::MissingRateLimitHeader),
        Some(h) => match parse_i64(h) {
            None => Err(ApiError::MalformedRateLimitHeader),
            Some(v) => Ok(v <= MIN_RATELIMIT_REMAINING),
        },
    }
}

/// Whether a page body is the empty listing.
pub open spec fn is_empty_listing(body: Seq<char>) -> bool {
    body == "[]"@
}

/// What one page response does to a paginator: whether the page holds items
/// to load (or the error that ends the listing), and the address of the next
/// page, if any.
pub open spec fn page_step(status: u16, body: Seq<char>, link: Option<Seq<char>>) -> (
    Result<bool, ApiError>,
    Option<Seq<char>>,
) {
    if status != 200 {
        (Err(ApiError::UnexpectedStatus(status)), None)
    } else if is_empty_listing(body) {
        (Ok(false), None)
    } else {
        match link {
            None => (Ok(true), None),
            Some(h) => match next_link_of(h) {
                None => (Err(ApiError::MalformedLinkHeader), None),
                Some(next) => (Ok(true), next),
            },
        }
    }
}

/// Walks a paged listing: holds the address of the next page to fetch until
/// the listing ends.
pub struct Paginator {
    next: Option<String>,
}

impl View for Paginator {
    type V = Option<Seq<char>>;

    closed spec fn view(&self) -> Option<Seq<char>> {
        match self.next {
            Some(u) => Some(u@),
            None => None,
        }
    }
}

impl Paginator {
    /// A paginator whose first page is at `url`.
    pub fn new(url: String) -> (p: Paginator)
        ensures
            p@ == Some(url@),
    {
        Paginator { next: Some(url) }
    }

    /// The address of the next page to fetch; `None` once the listing ended.
    pub fn next_url(&self) -> (r: Option<String>)
        ensures
            match r {
                Some(u) => self@ == Some(u@),
                None => self@ is None,
            },
    {
        match &self.next {
            Some(u) => Some(u.clone()),
            None => None,
        }
    }

    /// Takes the response to the page last asked for: its status, its body
    /// and its link header. Returns whether the page holds items to load; the
    /// listing ends on an error, an empty page, or a page without a `next`
    /// link.
    pub fn on_page(&mut self, status: u16, body: &str, link: Option<&str>) -> (r: Result<
        bool,
        ApiError,
    >)
        ensures
            (r, final(self)@) == page_step(
                status,
                body@,
                match link {
                    Some(h) => Some(h@),
                    None => None,
                },
            ),
    {
        self.next = None;
        if status != 200 {
            return Err(ApiError::UnexpectedStatus(status));
        }
        proof {
            reveal_strlit("[]");
        }
        if body.unicode_len() == 2 && body.get_char(0) == '[' && body.get_char(1) == ']' {
            assert(body@ =~= "[]"@);
            return Ok(false);
        }
        match link {
            None => Ok(true),
            Some(h) => match next_link(h) {
                None => Err(ApiError::MalformedLinkHeader),
                Some(next) => {
                    self.next = next;
                    Ok(true)
                },
            },
        }
    }
}

} // verus!
