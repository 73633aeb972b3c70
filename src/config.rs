use vstd::prelude::*;

verus! {

/// The TCP port the server listens on unless configured otherwise.
pub fn port() -> (r: u16)
    ensures
        r == 80,
{
    80
}

/// The directory holding the served repositories unless configured otherwise.
pub fn repo_directory() -> (r: String)
    ensures
        r@ == "repos"@,
{
    String::from_str("repos")
}

/// The name the site shows unless configured otherwise.
pub fn site_name() -> (r: String)
    ensures
        r@ == "agit"@,
{
    String::from_str("agit")
}

/// The file whose presence in a repository makes it visible, unless configured
/// otherwise.
pub fn export_ok() -> (r: String)
    ensures
        r@ == "git-daemon-export-ok"@,
{
    String::from_str("git-daemon-export-ok")
}

/// How many commits one page of a log view shows unless configured otherwise.
pub fn log_per_page() -> (r: usize)
    ensures
        r == 100,
{
    100
}

/// How many commits one walk over history visits at most unless configured
/// otherwise, so that a path filter that rarely matches cannot walk without bound.
pub fn walk_limit() -> (r: usize)
    ensures
        r == 100000,
{
    100000
}

} // verus!
