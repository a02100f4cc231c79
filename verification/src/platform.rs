//! What the library asks of the machine it runs on: directories, the clock,
//! fresh identifiers. None of these is a function of its arguments, so the
//! trusted items here promise nothing of the values they hand back.
use vstd::prelude::*;

verus! {

/// The user's downloads directory, as the platform names it. A type of its
/// own, so that it cannot be taken for the home directory.
pub struct DownloadDir {
    pub path: String,
}

/// The user's home directory, as the platform names it.
pub struct HomeDir {
    pub path: String,
}

/// The user's downloads directory, if the platform has one.
/// Trusted: calls `dirs::download_dir` and converts the path to text. Which
/// directory it is depends on the platform and the environment, and is not
/// stated; what is stated is that it is never empty: `dirs` builds it under
/// the (non-empty) home directory or takes an absolute path, and on Windows
/// asks for a known folder's full path.
#[verifier::external_body]
pub(crate) fn download_dir_text() -> (r: Option<DownloadDir>)
    ensures
        r matches Some(d) ==> d.path@.len() > 0,
{
    match dirs::download_dir() {
        Some(p) => Some(DownloadDir { path: p.to_string_lossy().to_string() }),
        None => None,
    }
}

/// The user's home directory, if the platform has one.
/// Trusted: calls `dirs::home_dir`. Which directory it is is not stated;
/// it is never empty: `dirs` skips an empty `$HOME` and an empty entry in
/// the user database, and on Windows asks for the profile folder's path.
#[verifier::external_body]
pub(crate) fn home_dir_text() -> (r: Option<HomeDir>)
    ensures
        r matches Some(h) ==> h.path@.len() > 0,
{
    match dirs::home_dir() {
        Some(p) => Some(HomeDir { path: p.to_string_lossy().to_string() }),
        None => None,
    }
}

/// The platform's per-user application data directory, if it has one.
/// Trusted: calls `dirs::data_dir`; nothing is stated of the result.
#[verifier::external_body]
pub(crate) fn app_data_dir_text() -> (r: Option<String>) {
    dirs::data_dir().map(|p| p.to_string_lossy().to_string())
}

/// `path` is `base` joined with `name`: with a separator between them, or
/// without one where `base` needs none.
#[verifier::opaque]
pub open spec fn is_joined(path: Seq<char>, base: Seq<char>, name: Seq<char>) -> bool {
    ||| path == base + name
    ||| path == base.push('/') + name
    ||| path == base.push('\\') + name
}

/// `path` starts with what Windows reads as a verbatim prefix (`\\?\`),
/// taken loosely: two separators, of either kind, then `?`.
pub open spec fn has_verbatim_prefix(path: Seq<char>) -> bool {
    &&& path.len() >= 3
    &&& (path[0] == '/' || path[0] == '\\')
    &&& (path[1] == '/' || path[1] == '\\')
    &&& path[2] == '?'
}

/// `base` joined with the relative name `name`.
/// Trusted: calls `Path::join`, which appends a relative `name` to `base`
/// with the platform's separator (`/`, or `\\` on Windows) between them when
/// one is needed; which separator, and whether one is added, is left open.
/// For a `base` with a verbatim prefix, std documents that the joined path
/// is normalized; nothing is stated of the result then.
#[verifier::external_body]
pub(crate) fn join_path(base: &str, name: &str) -> (r: String)
    requires
        name@.len() > 0,
        forall|i: int| 0 <= i < name@.len() ==> ('a' <= #[trigger] name@[i] <= 'z'),
    ensures
        !has_verbatim_prefix(base@) ==> is_joined(r@, base@, name@),
{
    std::path::Path::new(base).join(name).to_string_lossy().to_string()
}

/// A fresh random identifier.
/// Trusted: calls `uuid::Uuid::new_v4` and writes it out; it is random, so
/// nothing is stated.
#[verifier::external_body]
pub(crate) fn new_id() -> (r: String) {
    uuid::Uuid::new_v4().to_string()
}

/// The current time in RFC 3339 form.
/// Trusted: calls `chrono::Utc::now` and `to_rfc3339`; it is the clock, so
/// nothing is stated.
#[verifier::external_body]
pub(crate) fn now_rfc3339() -> (r: String) {
    chrono::Utc::now().to_rfc3339()
}

} // verus!
