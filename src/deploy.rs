//! Deciding which files of a built site to upload to an object store: the
//! object key of each file, which files are left out or deferred, and which
//! have changed since the last deployment.

use vstd::prelude::*;
use crate::text::{chars_of, str_eq};

verus! {

/// Key of the site's index document, uploaded after every other object.
pub open spec fn index_document() -> Seq<char> {
    "index.html"@
}

/// `s` without every leading repetition of `p` (nothing is removed when `p`
/// is empty), as `str::trim_start_matches` does.
pub open spec fn trim_start_all(s: Seq<char>, p: Seq<char>) -> Seq<char>
    decreases s.len(),
{
    if p.len() > 0 && p.len() <= s.len() && s.take(p.len() as int) == p {
        trim_start_all(s.skip(p.len() as int), p)
    } else {
        s
    }
}

/// `s` without its leading and trailing double quotes.
pub open spec fn trim_quotes(s: Seq<char>) -> Seq<char>
    decreases s.len(),
{
    if s.len() > 0 && s[0] == '"' {
        trim_quotes(s.drop_first())
    } else if s.len() > 0 && s.last() == '"' {
        trim_quotes(s.drop_last())
    } else {
        s
    }
}

fn starts_with_at(s: &Vec<char>, at: usize, p: &Vec<char>) -> (r: bool)
    requires
        at <= s@.len(),
    ensures
        r == (p@.len() <= s@.len() - at && s@.subrange(at as int, at + p@.len()) == p@),
{
    let sl = s.len();
    if p.len() > sl - at {
        return false;
    }
    let mut i: usize = 0;
    while i < p.len()
        invariant
            sl == s@.len(),
            at + p@.len() <= s@.len(),
            i <= p@.len(),
            forall|j: int| 0 <= j < i ==> s@[at + j] == p@[j],
        decreases p@.len() - i,
    {
        if s[at + i] != p[i] {
            assert(s@.subrange(at as int, at + p@.len())[i as int] != p@[i as int]);
            return false;
        }
        i = i + 1;
    }
    assert(s@.subrange(at as int, at + p@.len()) =~= p@);
    true
}

/// `s` without every leading repetition of `p`.
pub fn trim_start_matches(s: &str, p: &str) -> (r: String)
    ensures
        r@ == trim_start_all(s@, p@),
{
    let cs = chars_of(s);
    let ps = chars_of(p);
    let n = cs.len();
    let mut at: usize = 0;
    assert(s@.skip(0) =~= s@);
    if ps.len() > 0 {
        while starts_with_at(&cs, at, &ps)
            invariant
                cs@ == s@,
                ps@ == p@,
                n == s@.len(),
                ps@.len() > 0,
                at <= n,
                trim_start_all(s@, p@) == trim_start_all(s@.skip(at as int), p@),
            decreases n - at,
        {
            assert(s@.skip(at as int).take(p@.len() as int) =~= s@.subrange(at as int, at + p@.len()));
            assert(s@.skip(at as int).skip(p@.len() as int) =~= s@.skip(at + p@.len()));
            at = at + ps.len();
        }
        assert(s@.skip(at as int).take(p@.len() as int) =~= s@.subrange(at as int, at + p@.len())
            || p@.len() > s@.len() - at);
    }
    assert(s@.skip(at as int) =~= s@.subrange(at as int, n as int));
    String::from_str(s.substring_char(at, n))
}

/// The object key of the file at `path` under directory `content_dir`: the
/// path without the directory prefix and without leading slashes.
pub open spec fn object_key_spec(path: Seq<char>, content_dir: Seq<char>) -> Seq<char> {
    trim_start_all(trim_start_all(path, content_dir), "/"@)
}

/// The object key of the file at `path` under directory `content_dir`.
pub fn object_key(path: &str, content_dir: &str) -> (r: String)
    ensures
        r@ == object_key_spec(path@, content_dir@),
{
    let rel = trim_start_matches(path, content_dir);
    trim_start_matches(rel.as_str(), "/")
}

/// Whether an object is uploaded with the others: not the index document,
/// which goes last, and not a hidden file.
pub open spec fn is_regular_object(key: Seq<char>) -> bool {
    key != index_document() && !(key.len() > 0 && key[0] == '.')
}

/// Whether an object is uploaded with the others.
pub fn regular_object(key: &str) -> (r: bool)
    ensures
        r == is_regular_object(key@),
{
    if str_eq(key, "index.html") {
        return false;
    }
    !(key.unicode_len() > 0 && key.get_char(0) == '.')
}

/// The checksum an entity tag carries: the tag without its quotes.
pub fn etag_checksum(etag: &str) -> (r: String)
    ensures
        r@ == trim_quotes(etag@),
{
    let n = etag.unicode_len();
    let mut lo: usize = 0;
    let mut hi: usize = n;
    assert(etag@.subrange(0, n as int) =~= etag@);
    while lo < hi && (etag.get_char(lo) == '"' || etag.get_char(hi - 1) == '"')
        invariant
            n == etag@.len(),
            lo <= hi <= n,
            trim_quotes(etag@) == trim_quotes(etag@.subrange(lo as int, hi as int)),
        decreases hi - lo,
    {
        let ghost cur = etag@.subrange(lo as int, hi as int);
        if etag.get_char(lo) == '"' {
            assert(cur.drop_first() =~= etag@.subrange(lo + 1, hi as int));
            lo = lo + 1;
        } else {
            assert(cur.drop_last() =~= etag@.subrange(lo as int, hi - 1));
            hi = hi - 1;
        }
    }
    assert(etag@.subrange(0, n as int) =~= etag@);
    String::from_str(etag.substring_char(lo, hi))
}

/// Whether an object must be uploaded: the deployed copy is missing, has no
/// checksum, or has another checksum than the local file.
pub fn is_stale(local_checksum: &str, remote_checksum: Option<&str>) -> (r: bool)
    ensures
        r == !(remote_checksum matches Some(c) && c@ == local_checksum@),
{
    match remote_checksum {
        None => true,
        Some(c) => !str_eq(c, local_checksum),
    }
}

/// The lower-case hexadecimal MD5 digest of `bytes`.
pub uninterp spec fn md5_hex_of(bytes: Seq<u8>) -> Seq<char>;

/// Relies on `md5::Md5` (RustCrypto's `md-5`) and its lower-hex formatting:
/// the digest of the bytes, 16 bytes written as 32 hexadecimal digits.
#[verifier::external_body]
fn md5_hex(bytes: &[u8]) -> (r: String)
    ensures
        r@ == md5_hex_of(bytes@),
        r@.len() == 32,
{
    format!("{:x}", <md5::Md5 as md5::Digest>::digest(bytes))
}

/// The checksum of a file's content: its MD5 digest in lower-case hex.
pub fn checksum(content: &Vec<u8>) -> (r: String)
    ensures
        r@ == md5_hex_of(content@),
{
    md5_hex(content.as_slice())
}

/// The media type guessed from the extension of an object key, if known.
pub uninterp spec fn media_type_of(key: Seq<char>) -> Option<Seq<char>>;

/// Relies on `mime_guess::from_path` (then `first` and `essence_str`): the
/// media type registered for the key's extension.
#[verifier::external_body]
fn guess_media_type(key: &str) -> (r: Option<String>)
    ensures
        match r {
            Some(t) => media_type_of(key@) == Some(t@),
            None => media_type_of(key@) is None,
        },
{
    mime_guess::from_path(key).first().map(|m| m.essence_str().to_string())
}

/// What to do with a file of the site.
#[derive(Clone, Debug, PartialEq, Eq)]
pub enum UploadPlan {
    /// Leave it: deferred, hidden, or unchanged.
    Skip,
    /// Upload it with this media type.
    Upload(String),
    /// It needs uploading, but its media type is unknown.
    UnknownMediaType,
}

/// The plan for the file with object key `key` and checksum
/// `local_checksum`, given the checksum of the deployed copy, if any.
pub fn plan_upload(key: &str, local_checksum: &str, remote_checksum: Option<&str>) -> (r: UploadPlan)
    ensures
        !is_regular_object(key@) ==> r == UploadPlan::Skip,
        is_regular_object(key@) && (remote_checksum matches Some(c) && c@ == local_checksum@)
            ==> r == UploadPlan::Skip,
        is_regular_object(key@) && !(remote_checksum matches Some(c) && c@ == local_checksum@)
            ==> match media_type_of(key@) {
            Some(t) => r matches UploadPlan::Upload(u) && u@ == t,
            None => r == UploadPlan::UnknownMediaType,
        },
{
    if !regular_object(key) || !is_stale(local_checksum, remote_checksum) {
        return UploadPlan::Skip;
    }
    match guess_media_type(key) {
        Some(t) => UploadPlan::Upload(t),
        None => UploadPlan::UnknownMediaType,
    }
}

/// The plan for the index document, uploaded after every other object:
/// upload it as HTML unless the deployed copy has the same checksum.
pub fn index_needs_upload(local_checksum: &str, remote_checksum: Option<&str>) -> (r: bool)
    ensures
        r == !(remote_checksum matches Some(c) && c@ == local_checksum@),
{
    is_stale(local_checksum, remote_checksum)
}

} // verus!
