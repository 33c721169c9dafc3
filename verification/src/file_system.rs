//! A file system view scoped to the children of one root directory: every
//! requested path is normalized and resolved under the root.
use vstd::prelude::*;

use crate::path::{
    components, normalized, normalized_names, path_components, push_all, pushed_all, texts,
};
use crate::text::{chars_of, string_of};

verus! {

/// A directory entry found under the root, by its path.
pub struct Directory {
    pub(crate) path: String,
}

impl View for Directory {
    type V = Seq<char>;

    /// The path of the directory.
    closed spec fn view(&self) -> Seq<char> {
        self.path@
    }
}

impl Directory {
    /// A directory at `path`.
    pub fn new(path: String) -> (res: Directory)
        ensures
            res@ == path@,
    {
        Directory { path }
    }

    /// The path of this directory.
    pub fn path(&self) -> (res: String)
        ensures
            res@ == self@,
    {
        let res = self.path.clone();
        proof {
            assert(res@ == self@);
        }
        res
    }
}

/// Resolves and serves paths relative to a root directory.
pub struct ScopedFileSystem {
    pub root: String,
}

/// The path that a request path resolves to under `root`.
pub open spec fn resolved_under(root: Seq<char>, path: Seq<char>) -> Seq<char> {
    pushed_all(root, normalized(components(path)))
}

impl ScopedFileSystem {
    /// A scoped file system rooted at `root`; it never fails.
    pub fn new(root: String) -> (res: Result<ScopedFileSystem, ()>)
        ensures
            res matches Ok(fs) && fs.root@ == root@,
    {
        Ok(ScopedFileSystem { root })
    }

    /// Builds the path of `path` under the root: `path` is normalized (see
    /// [`ScopedFileSystem::normalize_path`]) and its names are pushed onto
    /// the root.
    pub fn build_relative_path(&self, path: &str) -> (res: String)
        ensures
            res@ == resolved_under(self.root@, path@),
    {
        let chars = chars_of(path);
        let cs = path_components(&chars);
        let names = normalized_names(&cs);
        let mut buf = chars_of(self.root.as_str());
        push_all(&mut buf, &names);
        string_of(&buf)
    }

    /// Normalizes a path so that it cannot leave the directory it is
    /// resolved under: `..` drops the name before it (or nothing), `.`, the
    /// root and empty pieces are dropped, and the remaining names are joined
    /// with `/`.
    pub fn normalize_path(path: &str) -> (res: String)
        ensures
            res@ == pushed_all(seq![], normalized(components(path@))),
    {
        let chars = chars_of(path);
        let cs = path_components(&chars);
        let names = normalized_names(&cs);
        let mut buf: Vec<char> = Vec::new();
        push_all(&mut buf, &names);
        string_of(&buf)
    }
}

} // verus!
