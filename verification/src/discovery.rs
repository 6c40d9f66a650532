//! Settings for file discovery, and the extension screen for binary files.
//! Walking the tree and reading file metadata are a caller's concern.

use vstd::prelude::*;
use crate::scanner::regex::ext_of_path;
use crate::strutil::{lower_chars, ascii_lower, str_eq};
use crate::scanner::regex::path_extension;

verus! {

/// How a file tree is walked: the root, a size cap, and whether ignore
/// files are honoured.
#[derive(Debug)]
pub struct FileDiscovery {
    pub root: String,
    pub max_file_size: u64,
    pub respect_gitignore: bool,
}

impl FileDiscovery {
    /// Discovery rooted at a path, capped at one megabyte per file, with
    /// ignore files honoured.
    pub fn new(root: &str) -> (r: FileDiscovery)
        ensures
            r.root@ == root@,
            r.max_file_size == 1048576u64,
            r.respect_gitignore,
    {
        FileDiscovery {
            root: String::from_str(root),
            max_file_size: 1048576,
            respect_gitignore: true,
        }
    }

    /// The same discovery with another size cap.
    pub fn with_max_file_size(self, size: u64) -> (r: FileDiscovery)
        ensures
            r.root@ == self.root@,
            r.max_file_size == size,
            r.respect_gitignore == self.respect_gitignore,
    {
        FileDiscovery { max_file_size: size, ..self }
    }

    /// The same discovery with ignore files honoured or not.
    pub fn with_gitignore(self, respect: bool) -> (r: FileDiscovery)
        ensures
            r.root@ == self.root@,
            r.max_file_size == self.max_file_size,
            r.respect_gitignore == respect,
    {
        FileDiscovery { respect_gitignore: respect, ..self }
    }

    /// The root the walk starts from.
    pub fn root(&self) -> (r: &str)
        ensures
            r@ == self.root@,
    {
        self.root.as_str()
    }
}

/// The lower-cased extensions always treated as binary.
pub open spec fn is_binary_ext(e: Seq<char>) -> bool {
    ||| e == "exe"@ ||| e == "dll"@ ||| e == "so"@ ||| e == "dylib"@ ||| e == "o"@
    ||| e == "obj"@ ||| e == "bin"@ ||| e == "a"@ ||| e == "lib"@ ||| e == "png"@
    ||| e == "jpg"@ ||| e == "jpeg"@ ||| e == "gif"@ ||| e == "bmp"@ ||| e == "ico"@
    ||| e == "tiff"@ ||| e == "webp"@ ||| e == "pdf"@ ||| e == "zip"@ ||| e == "tar"@
    ||| e == "gz"@ ||| e == "bz2"@ ||| e == "xz"@ ||| e == "7z"@ ||| e == "rar"@
    ||| e == "wasm"@ ||| e == "class"@ ||| e == "pyc"@ ||| e == "pdb"@
}

/// Whether a path's extension, lower-cased, names a known binary format.
pub fn is_binary_extension(path: &str) -> (r: bool)
    ensures
        r == is_binary_ext(lower_chars(ext_of_path(path@))),
{
    let ext = path_extension(path);
    let e = ascii_lower(ext.as_str());
    let s = e.as_str();
    str_eq(s, "exe") || str_eq(s, "dll") || str_eq(s, "so") || str_eq(s, "dylib") || str_eq(
        s,
        "o",
    ) || str_eq(s, "obj") || str_eq(s, "bin") || str_eq(s, "a") || str_eq(s, "lib") || str_eq(
        s,
        "png",
    ) || str_eq(s, "jpg") || str_eq(s, "jpeg") || str_eq(s, "gif") || str_eq(s, "bmp") || str_eq(
        s,
        "ico",
    ) || str_eq(s, "tiff") || str_eq(s, "webp") || str_eq(s, "pdf") || str_eq(s, "zip") || str_eq(
        s,
        "tar",
    ) || str_eq(s, "gz") || str_eq(s, "bz2") || str_eq(s, "xz") || str_eq(s, "7z") || str_eq(
        s,
        "rar",
    ) || str_eq(s, "wasm") || str_eq(s, "class") || str_eq(s, "pyc") || str_eq(s, "pdb")
}

} // verus!
