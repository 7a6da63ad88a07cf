//! The fixed on-disk layout of a repository, relative to the working directory.

use vstd::prelude::*;
use vstd::string::*;

verus! {

/// Resolves the locations that the object store, the index and the head
/// pointer are kept at.
pub struct Repo;

impl Repo {
    /// The location of `name` inside the repository directory.
    pub open spec fn subpath(name: Seq<char>) -> Seq<char> {
        ".minigit"@ + "/"@ + name
    }

    /// The repository directory.
    pub fn minigit_dir() -> (dir: String)
        ensures
            dir@ == ".minigit"@,
    {
        String::from_str(".minigit")
    }

    /// A file or directory directly inside the repository directory.
    pub fn minigit_subpath(subpath: &str) -> (path: String)
        ensures
            path@ == Self::subpath(subpath@),
    {
        let mut path = Self::minigit_dir();
        path.append("/");
        path.append(subpath);
        path
    }

    /// The directory that holds one file per stored object.
    pub fn objects_dir() -> (path: String)
        ensures
            path@ == Self::subpath("objects"@),
    {
        Self::minigit_subpath("objects")
    }

    /// The file that holds the head pointer.
    pub fn head_path() -> (path: String)
        ensures
            path@ == Self::subpath("HEAD"@),
    {
        Self::minigit_subpath("HEAD")
    }

    /// The file that holds the staging index.
    pub fn index_path() -> (path: String)
        ensures
            path@ == Self::subpath("index"@),
    {
        Self::minigit_subpath("index")
    }

    /// The file of ignore patterns, beside the repository directory.
    pub fn minigit_ignore_path() -> (path: String)
        ensures
            path@ == ".minigitignore"@,
    {
        String::from_str(".minigitignore")
    }
}

} // verus!
