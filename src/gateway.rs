use vstd::prelude::*;
use crate::text::{append_str, chars_from, chars_of, starts_with, string_of};

verus! {

/// What percent-decoding a repository name gives, invalid UTF-8 replaced.
pub uninterp spec fn percent_decoded(s: Seq<char>) -> Seq<char>;

/// Relies on `percent_encoding::percent_decode_str` followed by `decode_utf8_lossy`:
/// the result depends on the input alone, and a name without `%` is left as it is.
#[verifier::external_body]
fn percent_decode(s: &str) -> (r: String)
    ensures
        r@ == percent_decoded(s@),
        !s@.contains('%') ==> r@ == s@,
{
    percent_encoding::percent_decode_str(s).decode_utf8_lossy().into_owned()
}

/// The repository name as it is looked up under the root directory: the request's
/// name, percent-decoded.
pub fn decode_repo_name(name: &str) -> (r: String)
    ensures
        r@ == percent_decoded(name@),
        !name@.contains('%') ==> r@ == name@,
{
    percent_decode(name)
}

/// Why a repository is not served. Absent, unreadable, outside the root and not
/// exported all give the one variant, so that callers cannot tell them apart.
#[derive(PartialEq, Eq, Structural, Clone, Copy, Debug)]
pub enum GatewayError {
    NotFound,
}

/// Why a file inside a repository's storage directory is not served.
#[derive(PartialEq, Eq, Structural, Clone, Copy, Debug)]
pub enum RawFileError {
    /// The path resolves outside the repository's directory.
    Forbidden,
    /// The path does not exist or is not a regular file.
    NotFound,
}

impl GatewayError {
    /// The HTTP status of the failure.
    pub fn status(&self) -> (r: u16)
        ensures
            r == 404,
    {
        404
    }

    /// The text shown for the failure.
    pub fn message(&self) -> (r: String)
        ensures
            r@ == "This repository does not exist."@,
    {
        String::from_str("This repository does not exist.")
    }
}

impl RawFileError {
    /// The HTTP status of the failure.
    pub fn status(&self) -> (r: u16)
        ensures
            *self == RawFileError::Forbidden ==> r == 403,
            *self == RawFileError::NotFound ==> r == 404,
    {
        match self {
            RawFileError::Forbidden => 403,
            RawFileError::NotFound => 404,
        }
    }

    /// The text shown for the failure.
    pub fn message(&self) -> (r: String)
        ensures
            *self == RawFileError::Forbidden ==> r@ == "You do not have access to this file."@,
            *self == RawFileError::NotFound ==> r@ == "This page does not exist."@,
    {
        match self {
            RawFileError::Forbidden => String::from_str("You do not have access to this file."),
            RawFileError::NotFound => String::from_str("This page does not exist."),
        }
    }
}

/// Whether the canonical path `p` is the directory `root` or lies beneath it,
/// comparing whole path components.
pub open spec fn path_within(root: Seq<char>, p: Seq<char>) -> bool {
    p == root || (root.len() < p.len() && p.take(root.len() as int) == root && (
    (root.len() > 0 && root.last() == '/') || p[root.len() as int] == '/'))
}

/// Whether the canonical path `p` is `root` or lies beneath it.
pub fn is_within(root: &str, p: &str) -> (r: bool)
    ensures
        r == path_within(root@, p@),
{
    let rc = chars_of(root);
    let pc = chars_of(p);
    if !starts_with(&pc, &rc) {
        assert(pc@ == rc@ ==> pc@.take(rc@.len() as int) =~= rc@);
        return false;
    }
    if pc.len() == rc.len() {
        assert(pc@ =~= rc@);
        return true;
    }
    (rc.len() > 0 && rc[rc.len() - 1] == '/') || pc[rc.len()] == '/'
}

/// Whether a repository is served, see [`admit_repository`].
pub open spec fn admission(root: Seq<char>, canonical: Option<Seq<char>>, opened: bool, exported: bool) -> Result<(), GatewayError> {
    match canonical {
        Some(c) => if root.len() > 0 && path_within(root, c) && opened && exported {
            Ok(())
        } else {
            Err(GatewayError::NotFound)
        },
        None => Err(GatewayError::NotFound),
    }
}

/// Whether a file of a repository's storage directory is served, see [`admit_raw_file`].
pub open spec fn raw_admission(repo_dir: Seq<char>, canonical: Option<Seq<char>>, is_file: bool) -> Result<(), RawFileError> {
    match canonical {
        None => Err(RawFileError::NotFound),
        Some(c) => if repo_dir.len() == 0 || !path_within(repo_dir, c) {
            Err(RawFileError::Forbidden)
        } else if !is_file {
            Err(RawFileError::NotFound)
        } else {
            Ok(())
        },
    }
}

pub open spec fn opt_view(o: Option<&str>) -> Option<Seq<char>> {
    match o {
        Some(c) => Some(c@),
        None => None,
    }
}

/// Decides whether a repository is served; an empty root (one that could not be
/// resolved) serves nothing. `canonical` is the canonical path the
/// decoded name resolved to under the root (`None` when it does not exist),
/// `opened` whether a repository opens there, and `exported` whether the export
/// marker exists in it.
pub fn admit_repository(root: &str, canonical: Option<&str>, opened: bool, exported: bool) -> (r:
    Result<(), GatewayError>)
    ensures
        r == admission(root@, opt_view(canonical), opened, exported),
{
    match canonical {
        None => Err(GatewayError::NotFound),
        Some(c) => {
            if !root.is_empty() && is_within(root, c) && opened && exported {
                Ok(())
            } else {
                Err(GatewayError::NotFound)
            }
        },
    }
}

/// Decides whether a file of a repository's storage directory is served; with an
/// empty directory (one that could not be resolved) every path is forbidden.
/// `canonical` is the requested path after canonicalization (`None` when it does
/// not exist) and `is_file` whether it is a regular file.
pub fn admit_raw_file(repo_dir: &str, canonical: Option<&str>, is_file: bool) -> (r: Result<
    (),
    RawFileError,
>)
    ensures
        r == raw_admission(repo_dir@, opt_view(canonical), is_file),
{
    match canonical {
        None => Err(RawFileError::NotFound),
        Some(c) => {
            if repo_dir.is_empty() || !is_within(repo_dir, c) {
                Err(RawFileError::Forbidden)
            } else if !is_file {
                Err(RawFileError::NotFound)
            } else {
                Ok(())
            }
        },
    }
}

/// The part of a request path after `/<repo_name>/`, or the empty path when the
/// request path does not begin that way.
pub fn raw_request_path(url_path: &str, repo_name: &str) -> (r: String)
    ensures
        ({
            let prefix = seq!['/'] + repo_name@ + seq!['/'];
            if prefix.len() <= url_path@.len() && url_path@.take(prefix.len() as int) == prefix {
                r@ == url_path@.skip(prefix.len() as int)
            } else {
                r@ == Seq::<char>::empty()
            }
        }),
{
    let path = chars_of(url_path);
    let mut prefix: Vec<char> = Vec::new();
    prefix.push('/');
    append_str(&mut prefix, repo_name);
    prefix.push('/');
    assert(prefix@ =~= seq!['/'] + repo_name@ + seq!['/']);
    if starts_with(&path, &prefix) {
        string_of(&chars_from(&path, prefix.len()))
    } else {
        String::new()
    }
}

/// A repository that is absent and one that exists under the root without the
/// export marker give the same outcome: the one not-found failure.
pub proof fn lemma_unexported_is_missing(root: Seq<char>, c: Seq<char>)
    requires
        path_within(root, c),
    ensures
        admission(root, Some(c), true, false) == admission(root, None, false, false),
        admission(root, Some(c), false, false) == admission(root, None, false, false),
        admission(root, None, false, false) == Err::<(), GatewayError>(GatewayError::NotFound),
{
}

/// A raw-file request whose canonical path lies outside the repository's directory
/// is refused as forbidden, whether or not the file exists; it is never served.
pub proof fn lemma_escape_forbidden(repo_dir: Seq<char>, c: Seq<char>, is_file: bool)
    requires
        !path_within(repo_dir, c),
    ensures
        raw_admission(repo_dir, Some(c), is_file) == Err::<(), RawFileError>(RawFileError::Forbidden),
{
}

} // verus!
