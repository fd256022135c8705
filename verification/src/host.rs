//! Rules on the host's directories: where a built program is never run from,
//! and where a linker has to live to be trusted.  The paths are the caller's,
//! already made absolute; the rules only compare them with fixed directories.

use vstd::prelude::*;

verus! {

/// What `std::path::Path::starts_with` says of `path` and `base`: whether
/// `base` is a prefix of `path` in whole path components.
pub uninterp spec fn path_prefix(path: Seq<char>, base: Seq<char>) -> bool;

/// `std::path::Path::starts_with`, with both paths given as text.  Its result
/// depends on the two paths alone, so it is named here rather than restated.
#[verifier::external_body]
fn path_starts_with(path: &str, base: &str) -> (r: bool)
    ensures
        r == path_prefix(path@, base@),
{
    std::path::Path::new(path).starts_with(base)
}

/// The directories that hold the system's own programs.
pub open spec fn system_dirs() -> Seq<Seq<char>> {
    seq!["/usr/bin"@, "/bin"@, "/sbin"@, "/usr/sbin"@, "/usr/local/bin"@, "/opt/homebrew/bin"@]
}

/// The directories a linker may be taken from.
pub open spec fn trusted_linker_dirs() -> Seq<Seq<char>> {
    seq!["/usr/bin"@, "/usr/local/bin"@, "/opt/homebrew/bin"@]
}

/// Whether `path` lies in one of `dirs`.
pub open spec fn under_any(path: Seq<char>, dirs: Seq<Seq<char>>) -> bool {
    exists|i: int| 0 <= i < dirs.len() && #[trigger] path_prefix(path, dirs[i])
}

/// Whether `dir` lies in one of the system's program directories, where a
/// program that was just built is refused to run.
pub fn is_system_dir(dir: &str) -> (r: bool)
    ensures
        r == under_any(dir@, system_dirs()),
{
    let a = path_starts_with(dir, "/usr/bin");
    let b = path_starts_with(dir, "/bin");
    let c = path_starts_with(dir, "/sbin");
    let d = path_starts_with(dir, "/usr/sbin");
    let e = path_starts_with(dir, "/usr/local/bin");
    let f = path_starts_with(dir, "/opt/homebrew/bin");
    let r = a || b || c || d || e || f;
    proof {
        let s = system_dirs();
        assert(s[0] == "/usr/bin"@ && s[1] == "/bin"@ && s[2] == "/sbin"@);
        assert(s[3] == "/usr/sbin"@ && s[4] == "/usr/local/bin"@ && s[5] == "/opt/homebrew/bin"@);
        if under_any(dir@, s) {
            let i = choose|i: int| 0 <= i < s.len() && #[trigger] path_prefix(dir@, s[i]);
            assert(0 <= i < 6);
        }
    }
    r
}

/// Whether a linker found in `dir` is trusted.
pub fn is_trusted_linker_dir(dir: &str) -> (r: bool)
    ensures
        r == under_any(dir@, trusted_linker_dirs()),
{
    let a = path_starts_with(dir, "/usr/bin");
    let b = path_starts_with(dir, "/usr/local/bin");
    let c = path_starts_with(dir, "/opt/homebrew/bin");
    let r = a || b || c;
    proof {
        let s = trusted_linker_dirs();
        assert(s[0] == "/usr/bin"@ && s[1] == "/usr/local/bin"@ && s[2] == "/opt/homebrew/bin"@);
        if under_any(dir@, s) {
            let i = choose|i: int| 0 <= i < s.len() && #[trigger] path_prefix(dir@, s[i]);
            assert(0 <= i < 3);
        }
    }
    r
}

/// Every directory a linker may come from is a system program directory, so
/// a program built next to a trusted linker is never run.
pub proof fn law_trusted_linker_dirs_are_system_dirs(dir: Seq<char>)
    ensures
        under_any(dir, trusted_linker_dirs()) ==> under_any(dir, system_dirs()),
{
    if under_any(dir, trusted_linker_dirs()) {
        let t = trusted_linker_dirs();
        let s = system_dirs();
        let i = choose|i: int| 0 <= i < t.len() && #[trigger] path_prefix(dir, t[i]);
        if i == 0 {
            assert(path_prefix(dir, s[0]));
        } else if i == 1 {
            assert(path_prefix(dir, s[4]));
        } else {
            assert(path_prefix(dir, s[5]));
        }
    }
}

} // verus!
