//! The decisions of the source-file scan: which directories to enter and
//! which files to keep. The walk itself is the caller's.
use vstd::prelude::*;

use crate::text::{contains_run, str_contains, str_eq};

verus! {

/// Configuration for scanning the filesystem for source files.
pub struct ScanConfig {
    /// Root directory to scan.
    pub root: String,
    /// Patterns to exclude, matched as substrings of the path.
    pub exclude_patterns: Vec<String>,
    /// File extensions to include, without the leading dot.
    pub extensions: Vec<String>,
}

impl ScanConfig {
    /// A configuration for the given root that keeps `.rs` files and
    /// excludes nothing.
    pub fn new(root: String) -> (r: ScanConfig)
        ensures
            r.root@ == root@,
            r.exclude_patterns@.len() == 0,
            r.extensions@.len() == 1,
            r.extensions@[0]@ == "rs"@,
    {
        let mut extensions: Vec<String> = Vec::new();
        extensions.push("rs".to_owned());
        ScanConfig { root, exclude_patterns: Vec::new(), extensions }
    }

    /// The same configuration with the given exclusion patterns.
    pub fn with_excludes(self, patterns: Vec<String>) -> (r: ScanConfig)
        ensures
            r.root == self.root,
            r.exclude_patterns == patterns,
            r.extensions == self.extensions,
    {
        ScanConfig { exclude_patterns: patterns, ..self }
    }

    /// The same configuration with the given extensions.
    pub fn with_extensions(self, extensions: Vec<String>) -> (r: ScanConfig)
        ensures
            r.root == self.root,
            r.exclude_patterns == self.exclude_patterns,
            r.extensions == extensions,
    {
        ScanConfig { extensions, ..self }
    }
}

/// Whether any pattern occurs in the path.
pub open spec fn excluded_by(path: Seq<char>, patterns: Seq<String>) -> bool {
    exists|i: int| 0 <= i < patterns.len() && contains_run(path, #[trigger] patterns[i]@)
}

/// Whether a path should be excluded: some pattern occurs in it as a substring.
pub fn is_excluded(path: &str, patterns: &[String]) -> (r: bool)
    ensures
        r == excluded_by(path@, patterns@),
{
    let n = patterns.len();
    for i in 0..n
        invariant
            n == patterns@.len(),
            forall|k: int| 0 <= k < i ==> !contains_run(path@, #[trigger] patterns@[k]@),
    {
        if str_contains(path, patterns[i].as_str()) {
            return true;
        }
    }
    false
}

/// An ASCII letter in lower case; other characters as they are.
pub open spec fn ascii_lower(c: char) -> char {
    if 'A' as nat <= c as nat <= 'Z' as nat {
        ((c as nat) + 32) as char
    } else {
        c
    }
}

/// Equality up to ASCII case.
pub open spec fn eq_ignore_ascii_case(a: Seq<char>, b: Seq<char>) -> bool {
    a.len() == b.len() && forall|i: int| 0 <= i < a.len() ==> ascii_lower(#[trigger] a[i])
        == ascii_lower(b[i])
}

fn lower(c: char) -> (r: u32)
    ensures
        r == ascii_lower(c) as u32,
{
    let x = c as u32;
    if 65 <= x && x <= 90 {
        x + 32
    } else {
        x
    }
}

/// Decides [`eq_ignore_ascii_case`].
pub fn str_eq_ignore_ascii_case(a: &str, b: &str) -> (r: bool)
    ensures
        r == eq_ignore_ascii_case(a@, b@),
{
    let n = a.unicode_len();
    if n != b.unicode_len() {
        return false;
    }
    let mut i: usize = 0;
    while i < n
        invariant
            n == a@.len(),
            n == b@.len(),
            i <= n,
            forall|k: int| 0 <= k < i ==> ascii_lower(#[trigger] a@[k]) == ascii_lower(b@[k]),
        decreases n - i,
    {
        let ca = lower(a.get_char(i));
        let cb = lower(b.get_char(i));
        if ca != cb {
            proof {
                assert(ascii_lower(a@[i as int]) as u32 != ascii_lower(b@[i as int]) as u32);
            }
            return false;
        }
        i = i + 1;
    }
    true
}

/// Whether the extension is one of those wanted, compared up to ASCII case.
pub fn has_wanted_extension(ext: &str, extensions: &[String]) -> (r: bool)
    ensures
        r == exists|i: int|
            0 <= i < extensions@.len() && eq_ignore_ascii_case(#[trigger] extensions@[i]@, ext@),
{
    let n = extensions.len();
    for i in 0..n
        invariant
            n == extensions@.len(),
            forall|k: int| 0 <= k < i ==> !eq_ignore_ascii_case(#[trigger] extensions@[k]@, ext@),
    {
        if str_eq_ignore_ascii_case(extensions[i].as_str(), ext) {
            return true;
        }
    }
    false
}

/// Whether the scan enters a directory with the given name: never one named
/// `target`, and no hidden one (its name starting with `.`) but the root.
pub fn enters_directory(name: &str, is_root: bool) -> (r: bool)
    ensures
        r == !(name@ == "target"@ || (name@.len() > 0 && name@[0] == '.' && !is_root)),
{
    if str_eq(name, "target") {
        return false;
    }
    let hidden = name.unicode_len() > 0 && name.get_char(0) == '.';
    !(hidden && !is_root)
}

/// Whether the scan keeps a file: it has an extension that is wanted, and
/// its path is not excluded.
pub fn keeps_file(path: &str, extension: Option<&str>, config: &ScanConfig) -> (r: bool)
    ensures
        r == match extension {
            Some(ext) => (exists|i: int|
                0 <= i < config.extensions@.len() && eq_ignore_ascii_case(
                    #[trigger] config.extensions@[i]@,
                    ext@,
                )) && !excluded_by(path@, config.exclude_patterns@),
            None => false,
        },
{
    match extension {
        Some(ext) => has_wanted_extension(ext, config.extensions.as_slice()) && !is_excluded(
            path,
            config.exclude_patterns.as_slice(),
        ),
        None => false,
    }
}

} // verus!
