//! The configuration of a collection run: credentials, the repositories to
//! collect, the optional base cache, and how a run's outcome is reported.

use vstd::prelude::*;
use crate::error::{ApiError, ConfigError};
use crate::text::{chars_of, span_until, span_until_char, lemma_span_until_shape};

verus! {

/// The pieces of `s` between commas, as `str::split(',')` yields them.
pub open spec fn comma_pieces(s: Seq<char>) -> Seq<Seq<char>>
    decreases s.len(),
{
    if s.len() == 0 {
        seq![Seq::empty()]
    } else {
        let p = comma_pieces(s.drop_last());
        if s.last() == ',' {
            p.push(Seq::empty())
        } else {
            p.update(p.len() - 1, p.last().push(s.last()))
        }
    }
}

/// The non-empty pieces of `ps`, in order.
pub open spec fn nonempty_pieces(ps: Seq<Seq<char>>) -> Seq<Seq<char>>
    decreases ps.len(),
{
    if ps.len() == 0 {
        Seq::empty()
    } else {
        let r = nonempty_pieces(ps.drop_last());
        if ps.last().len() > 0 {
            r.push(ps.last())
        } else {
            r
        }
    }
}

/// The credentials of a comma-separated list, empty entries left out; a list
/// without any is a configuration error.
pub fn credentials_from(list: &str) -> (r: Result<Vec<String>, ConfigError>)
    ensures
        nonempty_pieces(comma_pieces(list@)).len() == 0 ==> r == Err::<Vec<String>, ConfigError>(
            ConfigError::NoCredentials,
        ),
        nonempty_pieces(comma_pieces(list@)).len() > 0 ==> (r matches Ok(v) && v@.map_values(
            |t: String| t@,
        ) == nonempty_pieces(comma_pieces(list@))),
{
    let chars = chars_of(list);
    let n = chars.len();
    let mut out: Vec<String> = Vec::new();
    let ghost mut done: Seq<Seq<char>> = Seq::empty();
    let mut start: usize = 0;
    let mut i: usize = 0;
    assert(list@.take(0) =~= Seq::<char>::empty());
    assert(list@.subrange(0, 0) =~= Seq::<char>::empty());
    while i < n
        invariant
            chars@ == list@,
            n == list@.len(),
            start <= i <= n,
            comma_pieces(list@.take(i as int)) == done.push(list@.subrange(start as int, i as int)),
            out@.map_values(|t: String| t@) == nonempty_pieces(done),
        decreases n - i,
    {
        assert(list@.take(i + 1).drop_last() =~= list@.take(i as int));
        assert(list@.take(i + 1).last() == list@[i as int]);
        if chars[i] == ',' {
            let piece = list.substring_char(start, i);
            let ghost old_done = done;
            proof {
                done = done.push(list@.subrange(start as int, i as int));
            }
            assert(done.drop_last() =~= old_done);
            if i > start {
                let ghost before = out@.map_values(|t: String| t@);
                out.push(String::from_str(piece));
                assert(out@.map_values(|t: String| t@) =~= before.push(piece@));
            }
            start = i + 1;
            assert(list@.subrange(start as int, start as int) =~= Seq::<char>::empty());
        } else {
            assert(list@.subrange(start as int, i + 1) =~= list@.subrange(start as int, i as int).push(
                list@[i as int],
            ));
            assert(done.push(list@.subrange(start as int, i as int)).update(
                done.len() as int,
                list@.subrange(start as int, i + 1),
            ) =~= done.push(list@.subrange(start as int, i + 1)));
        }
        i = i + 1;
    }
    assert(list@.take(n as int) =~= list@);
    let last = list.substring_char(start, n);
    let ghost all = done.push(list@.subrange(start as int, n as int));
    assert(all.drop_last() =~= done);
    if n > start {
        let ghost before = out@.map_values(|t: String| t@);
        out.push(String::from_str(last));
        assert(out@.map_values(|t: String| t@) =~= before.push(last@));
    }
    if out.len() == 0 {
        Err(ConfigError::NoCredentials)
    } else {
        Ok(out)
    }
}

/// The owner and the name of a repository entry `owner/repo`: `None` unless
/// the entry holds exactly one slash.
pub open spec fn repository_parts(entry: Seq<char>) -> Option<(Seq<char>, Seq<char>)> {
    let i: int = span_until(entry, '/') as int;
    let rest = entry.subrange(i + 1, entry.len() as int);
    if i < entry.len() && span_until(rest, '/') == rest.len() {
        Some((entry.take(i), rest))
    } else {
        None
    }
}

/// Splits a repository entry `owner/repo` into owner and name; an entry
/// without a slash, or with more than one, is a configuration error.
pub fn parse_repository(entry: &str) -> (r: Result<(String, String), ConfigError>)
    ensures
        match repository_parts(entry@) {
            Some((owner, repo)) => r matches Ok((o, n)) && o@ == owner && n@ == repo,
            None => r matches Err(ConfigError::MalformedRepository(e)) && e@ == entry@,
        },
{
    let len = entry.unicode_len();
    let i = span_until_char(entry, '/');
    proof {
        lemma_span_until_shape(entry@, '/');
    }
    if i == len {
        return Err(ConfigError::MalformedRepository(String::from_str(entry)));
    }
    let rest = entry.substring_char(i + 1, len);
    let j = span_until_char(rest, '/');
    if j < rest.unicode_len() {
        return Err(ConfigError::MalformedRepository(String::from_str(entry)));
    }
    Ok((String::from_str(entry.substring_char(0, i)), String::from_str(rest)))
}

/// The repositories of a list of `owner/repo` entries, in order; the first
/// malformed entry is a configuration error.
pub fn parse_repositories(entries: &Vec<String>) -> (r: Result<Vec<(String, String)>, ConfigError>)
    ensures
        match r {
            Ok(v) => v@.len() == entries@.len() && forall|k: int|
                0 <= k < v@.len() ==> repository_parts(entries@[k]@) == Some(
                    ((#[trigger] v@[k]).0@, v@[k].1@),
                ),
            Err(ConfigError::MalformedRepository(e)) => exists|k: int|
                0 <= k < entries@.len() && e@ == entries@[k]@ && repository_parts(
                    #[trigger] entries@[k]@,
                ) is None && forall|m: int|
                    0 <= m < k ==> repository_parts(#[trigger] entries@[m]@) is Some,
            Err(ConfigError::NoCredentials) => false,
        },
{
    let mut out: Vec<(String, String)> = Vec::new();
    let mut k: usize = 0;
    while k < entries.len()
        invariant
            k <= entries@.len(),
            out@.len() == k,
            forall|m: int|
                0 <= m < k ==> repository_parts(entries@[m]@) == Some(
                    ((#[trigger] out@[m]).0@, out@[m].1@),
                ),
        decreases entries@.len() - k,
    {
        match parse_repository(entries[k].as_str()) {
            Ok(pair) => {
                out.push(pair);
            },
            Err(e) => {
                assert(forall|m: int|
                    0 <= m < k ==> repository_parts(#[trigger] entries@[m]@) == Some(
                        (out@[m].0@, out@[m].1@),
                    ));
                return Err(e);
            },
        }
        k = k + 1;
    }
    Ok(out)
}

/// The failure of a run: how many repository tasks failed.
#[derive(Clone, Copy, Debug, PartialEq, Eq, Structural)]
pub struct RunError {
    pub failed_tasks: usize,
}

/// Number of failed outcomes among `results`.
pub open spec fn failures(results: Seq<Result<(), ApiError>>) -> nat
    decreases results.len(),
{
    if results.len() == 0 {
        0
    } else {
        failures(results.drop_last()) + if results.last() is Err {
            1nat
        } else {
            0nat
        }
    }
}

/// The outcome of a run, once every repository task has finished: success
/// when all succeeded, else one error that counts the failed tasks.
pub fn run_outcome(results: &Vec<Result<(), ApiError>>) -> (r: Result<(), RunError>)
    ensures
        failures(results@) == 0 ==> r is Ok,
        failures(results@) > 0 ==> r == Err::<(), RunError>(
            RunError { failed_tasks: failures(results@) as usize },
        ),
{
    let mut failed: usize = 0;
    let mut i: usize = 0;
    while i < results.len()
        invariant
            i <= results@.len(),
            failed == failures(results@.take(i as int)),
            failed <= i,
        decreases results@.len() - i,
    {
        assert(results@.take(i + 1).drop_last() =~= results@.take(i as int));
        if results[i].is_err() {
            failed = failed + 1;
        }
        i = i + 1;
    }
    assert(results@.take(i as int) =~= results@);
    if failed == 0 {
        Ok(())
    } else {
        Err(RunError { failed_tasks: failed })
    }
}

/// Where to fetch a base cache from, when none is present yet.
pub struct BaseCacheDB {
    pub url: String,
    pub username: Option<String>,
    pub password: Option<String>,
}

impl BaseCacheDB {
    /// The base cache settings: present when a URL is given, with the
    /// optional basic-auth credentials.
    pub fn new(url: Option<String>, username: Option<String>, password: Option<String>) -> (r:
        Option<BaseCacheDB>)
        ensures
            url is None ==> r is None,
            url matches Some(u) ==> (r matches Some(b) && b.url == u && b.username == username
                && b.password == password),
    {
        match url {
            None => None,
            Some(u) => Some(BaseCacheDB { url: u, username, password }),
        }
    }
}

} // verus!
