use crate::platform::Platform;
use vstd::prelude::*;
use vstd::string::*;

verus! {

/// What is known of the user's cache directory.
#[derive(Debug, Clone, PartialEq, Eq)]
pub enum CacheDir {
    /// The system names none.
    Missing,
    /// The system names one, and the name is not Unicode text.
    NotText,
    /// The directory of this name.
    At(String),
}

/// Why there is no path for the store.
#[derive(Clone, Copy, Debug, PartialEq, Eq, Structural)]
pub enum PathError {
    /// There is no cache directory.
    NoCacheDir,
    /// The cache directory's name is not Unicode text.
    InvalidName,
}

/// The user's cache directory, as `dirs::cache_dir` reports it. The answer
/// depends on the operating system, the user and the environment, so nothing
/// is claimed of it.
#[verifier::external_body]
fn cache_dir() -> (found: CacheDir) {
    match dirs::cache_dir() {
        Some(path) => match path.into_os_string().into_string() {
            Ok(text) => CacheDir::At(text),
            Err(_) => CacheDir::NotText,
        },
        None => CacheDir::Missing,
    }
}

/// What follows the cache directory in the path of the store's file.
pub open spec fn todo_suffix(platform: Platform) -> Seq<char> {
    match platform {
        Platform::Windows => "\\todo"@,
        Platform::Other => "/todo"@,
    }
}

/// What follows the cache directory in the path of the saved lists.
pub open spec fn save_suffix() -> Seq<char> {
    "/todo_list/save.json"@
}

/// The path below the cache directory that ends in `suffix`, or why there is
/// none.
pub open spec fn path_in(found: CacheDir, suffix: Seq<char>) -> Result<Seq<char>, PathError> {
    match found {
        CacheDir::Missing => Err(PathError::NoCacheDir),
        CacheDir::NotText => Err(PathError::InvalidName),
        CacheDir::At(dir) => Ok(dir@ + suffix),
    }
}

/// Whether `out` is the path `expected`, or the same fault.
pub open spec fn is_path(out: Result<String, PathError>, expected: Result<Seq<char>, PathError>)
    -> bool {
    match expected {
        Ok(path) => out is Ok && out.unwrap()@ == path,
        Err(e) => out == Err::<String, PathError>(e),
    }
}

/// The path of the store's file, given the cache directory.
pub fn todo_path(found: CacheDir, platform: Platform) -> (out: Result<String, PathError>)
    ensures
        is_path(out, path_in(found, todo_suffix(platform))),
{
    match found {
        CacheDir::Missing => Err(PathError::NoCacheDir),
        CacheDir::NotText => Err(PathError::InvalidName),
        CacheDir::At(dir) => {
            let mut cache_dir = dir;
            cache_dir.append(
                match platform {
                    Platform::Windows => "\\todo",
                    Platform::Other => "/todo",
                },
            );
            Ok(cache_dir)
        },
    }
}

/// The path of the saved lists, given the cache directory.
pub fn save_path(found: CacheDir) -> (out: Result<String, PathError>)
    ensures
        is_path(out, path_in(found, save_suffix())),
{
    match found {
        CacheDir::Missing => Err(PathError::NoCacheDir),
        CacheDir::NotText => Err(PathError::InvalidName),
        CacheDir::At(dir) => {
            let mut path = dir;
            path.append("/todo_list/save.json");
            Ok(path)
        },
    }
}

/// The path of the store's file in the user's cache directory.
pub fn get_todo(platform: Platform) -> (out: Result<String, PathError>)
    ensures
        exists|found: CacheDir| is_path(out, #[trigger] path_in(found, todo_suffix(platform))),
{
    let found = cache_dir();
    let ghost seen = found;
    let out = todo_path(found, platform);
    assert(is_path(out, path_in(seen, todo_suffix(platform))));
    out
}

/// The path of the saved lists in the user's cache directory.
pub fn get_save_dir() -> (out: Result<String, PathError>)
    ensures
        exists|found: CacheDir| is_path(out, #[trigger] path_in(found, save_suffix())),
{
    let found = cache_dir();
    let ghost seen = found;
    let out = save_path(found);
    assert(is_path(out, path_in(seen, save_suffix())));
    out
}

} // verus!
