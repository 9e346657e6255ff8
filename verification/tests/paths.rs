use std::path::PathBuf;

use yank::paths::{hist_dir, join, paste_flag};

const HOMES: [&str; 7] = ["/home/u", "/home/u/", "/", "", ".", "relative", "/a b//"];

#[test]
fn the_history_stands_below_home() {
    assert_eq!(hist_dir(Some("/home/u")), "/home/u/.yank/hist");
    assert_eq!(hist_dir(Some("/home/u/")), "/home/u/.yank/hist");
    assert_eq!(hist_dir(Some("")), ".yank/hist");
}

#[test]
fn without_a_home_it_stands_below_the_root() {
    assert_eq!(hist_dir(None), "/.yank/hist");
    assert_eq!(paste_flag(None), "/.yank/paste");
}

#[test]
fn the_flag_stands_beside_the_history() {
    assert_eq!(paste_flag(Some("/home/u")), "/home/u/.yank/paste");
    assert_eq!(paste_flag(Some("")), ".yank/paste");
    assert!(!paste_flag(Some("/home/u")).starts_with(&hist_dir(Some("/home/u"))));
}

#[test]
fn paths_are_those_of_the_standard_library() {
    for h in HOMES {
        let dir = PathBuf::from(h).join(".yank/hist");
        let flag = dir
            .parent()
            .map(|p| p.join("paste"))
            .unwrap_or_else(|| "/tmp/yank-paste".into());
        assert_eq!(PathBuf::from(hist_dir(Some(h))).as_os_str(), dir.as_os_str());
        assert_eq!(PathBuf::from(paste_flag(Some(h))).as_os_str(), flag.as_os_str());
    }
}

#[test]
fn one_separator_is_put_between() {
    assert_eq!(join("a", "b"), "a/b");
    assert_eq!(join("a/", "b"), "a/b");
    assert_eq!(join("", "b"), "b");
}
