//! The rules on host directories: where built programs are not run, where
//! linkers are trusted.

use kangc::host::{is_system_dir, is_trusted_linker_dir};

#[test]
fn system_dirs_are_refused() {
    assert!(is_system_dir("/usr/bin"));
    assert!(is_system_dir("/bin"));
    assert!(is_system_dir("/sbin"));
    assert!(is_system_dir("/usr/sbin"));
    assert!(is_system_dir("/usr/local/bin"));
    assert!(is_system_dir("/opt/homebrew/bin"));
    assert!(is_system_dir("/usr/bin/nested"));
}

#[test]
fn system_dir_match_is_by_whole_components() {
    assert!(!is_system_dir("/usr/binx"));
    assert!(!is_system_dir("/home/user/bin"));
    assert!(!is_system_dir("/tmp"));
    assert!(!is_system_dir("/usr"));
}

#[test]
fn trusted_linker_dirs() {
    assert!(is_trusted_linker_dir("/usr/bin"));
    assert!(is_trusted_linker_dir("/usr/local/bin"));
    assert!(is_trusted_linker_dir("/opt/homebrew/bin"));
    assert!(!is_trusted_linker_dir("/bin"));
    assert!(!is_trusted_linker_dir("/tmp/evil"));
    assert!(!is_trusted_linker_dir("/usr/bin2"));
}
