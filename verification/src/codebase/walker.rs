//! File filters of the code search walk.

use vstd::prelude::*;
use crate::text::{chars_of, eq_chars, lemma_split_on_nonempty, split_chars, split_on, views};

verus! {

/// Extensions (without the dot) of the files that are searched.
pub open spec fn code_exts() -> Seq<&'static str> {
    seq![
        "rs", "py", "js", "ts", "tsx", "jsx", "go", "java", "c", "cpp", "h", "hpp", "rb", "php",
        "swift", "kt", "vue", "svelte", "md", "toml", "yaml", "yml", "json",
    ]
}

/// Generated and dependency directories that the walk skips.
pub open spec fn skip_dirs() -> Seq<&'static str> {
    seq![
        ".git", "node_modules", "target", "dist", "__pycache__", ".venv", "venv", ".pytest_cache",
        ".mypy_cache", ".next", ".turbo", ".nuxt", ".svelte-kit", ".output", "coverage",
    ]
}

/// `w` is one of the words of `list`.
pub open spec fn listed(list: Seq<&'static str>, w: Seq<char>) -> bool {
    exists|i: int| 0 <= i < list.len() && #[trigger] list[i]@ == w
}

fn in_list(list: &Vec<&'static str>, w: &[char]) -> (b: bool)
    ensures
        b == listed(list@, w@),
{
    let mut i: usize = 0;
    while i < list.len()
        invariant
            i <= list.len(),
            forall|j: int| 0 <= j < i ==> list@[j]@ != w@,
        decreases list.len() - i,
    {
        let cs = chars_of(list[i]);
        if eq_chars(&cs, w) {
            return true;
        }
        i = i + 1;
    }
    false
}

/// The part of a file name after its last `.` (the whole name without one).
pub open spec fn extension(name: Seq<char>) -> Seq<char> {
    split_on(name, '.').last()
}

/// Whether a file name has one of the searched code extensions.
pub fn is_code_file(name: &str) -> (b: bool)
    ensures
        b == listed(code_exts(), extension(name@)),
{
    let cs = chars_of(name);
    let pieces = split_chars(&cs, '.');
    proof {
        lemma_split_on_nonempty(cs@, '.');
    }
    let exts = vec![
        "rs", "py", "js", "ts", "tsx", "jsx", "go", "java", "c", "cpp", "h", "hpp", "rb", "php",
        "swift", "kt", "vue", "svelte", "md", "toml", "yaml", "yml", "json",
    ];
    assert(exts@ =~= code_exts());
    assert(views(pieces@).last() == pieces@[pieces@.len() - 1]@);
    in_list(&exts, &pieces[pieces.len() - 1])
}

/// Whether a directory is a generated or dependency directory that the walk skips.
pub fn is_skipped_dir(name: &str) -> (b: bool)
    ensures
        b == listed(skip_dirs(), name@),
{
    let cs = chars_of(name);
    let dirs = vec![
        ".git", "node_modules", "target", "dist", "__pycache__", ".venv", "venv", ".pytest_cache",
        ".mypy_cache", ".next", ".turbo", ".nuxt", ".svelte-kit", ".output", "coverage",
    ];
    assert(dirs@ =~= skip_dirs());
    in_list(&dirs, &cs)
}

/// How many leading bytes are probed for a NUL byte.
pub const BINARY_PROBE_BYTES: usize = 8192;

/// Whether file content looks binary: a NUL byte within its first 8 KiB.
pub fn is_binary(bytes: &[u8]) -> (b: bool)
    ensures
        b == exists|i: int| 0 <= i < bytes.len() && i < BINARY_PROBE_BYTES && bytes@[i] == 0,
{
    let end = if bytes.len() < BINARY_PROBE_BYTES { bytes.len() } else { BINARY_PROBE_BYTES };
    let mut i: usize = 0;
    while i < end
        invariant
            i <= end,
            end <= bytes.len(),
            end <= BINARY_PROBE_BYTES,
            end == bytes.len() || end == BINARY_PROBE_BYTES,
            forall|j: int| 0 <= j < i ==> bytes@[j] != 0,
        decreases end - i,
    {
        if bytes[i] == 0 {
            return true;
        }
        i = i + 1;
    }
    false
}

} // verus!
