use bundle_search::checker::{Checker, Outcome};
use bundle_search::checkers::{
    BundleChecker, Checker as Check, Entry, HiddenChecker, IgnoreChecker, SymlinkChecker,
};

const SYMLINK_PATH: &str = "/System/Library/PreferencePanes/PrintAndFax.prefPane";
const APP_PATH: &str = "/System/Applications/Books.app";

fn plain(path: &str) -> Entry {
    Entry::new(path, false)
}

#[test]
fn bundle_checker_test_is_bundle_app() {
    assert!(BundleChecker::new().is_legit(&plain("/System/Applications/Books.app")));
}

#[test]
fn bundle_checker_test_is_bundle_pref() {
    assert!(BundleChecker::new().is_legit(&plain("/System/Library/PreferencePanes/Network.prefPane")));
}

#[test]
fn bundle_checker_test_is_bundle_folder() {
    assert_eq!(BundleChecker::new().is_legit(&plain("/Applications")), false);
}

#[test]
fn bundle_checker_test_is_bundle_file() {
    assert_eq!(BundleChecker::new().is_legit(&plain("/dev/null")), false);
}

#[test]
fn hidden_checker_test_is_hidden() {
    assert!(HiddenChecker {}.is_legit(&plain(".test")));
}

#[test]
fn hidden_checker_test_is_not_hidden() {
    assert_eq!(HiddenChecker {}.is_legit(&plain("test/test")), false);
}

#[test]
fn ignore_checker_test_is_legit() {
    let ignored_paths: Vec<String> =
        vec!["/Users/cheng", "/usr/bin"].into_iter().map(String::from).collect();
    let checker = IgnoreChecker::new(ignored_paths);
    assert!(checker.is_legit(&plain("/Users/cheng")))
}

#[test]
fn ignore_checker_test_is_not_legit() {
    let ignored_paths: Vec<String> =
        vec!["/Users/cheng", "/usr/bin"].into_iter().map(String::from).collect();
    let checker = IgnoreChecker::new(ignored_paths);
    assert_eq!(checker.is_legit(&plain("/Users/cheng/Applications")), false)
}

#[test]
fn symlink_checker_test_is_legit() {
    let checker = SymlinkChecker {};
    assert!(checker.is_legit(&Entry::new(SYMLINK_PATH, true)))
}

#[test]
fn symlink_checker_test_is_not_legit() {
    let checker = SymlinkChecker {};
    assert_eq!(checker.is_legit(&Entry::new(APP_PATH, false)), false);
}

#[test]
fn checker_test_is_bundle_app() {
    let checker = Checker::new(Vec::new());
    assert!(checker.is_bundle("/System/Applications/Books.app"));
}

#[test]
fn checker_test_is_bundle_pref() {
    let checker = Checker::new(Vec::new());
    assert!(checker.is_bundle("/System/Library/PreferencePanes/Network.prefPane"));
}

#[test]
fn checker_test_is_bundle_folder() {
    let checker = Checker::new(Vec::new());
    assert_eq!(checker.is_bundle("/Applications"), false);
}

#[test]
fn checker_test_is_bundle_file() {
    let checker = Checker::new(Vec::new());
    assert_eq!(checker.is_bundle("/dev/null"), false);
}

#[test]
fn checker_test_is_hidden() {
    let checker = Checker::new(Vec::new());
    assert!(checker.is_hidden(".test"));
}

#[test]
fn checker_test_is_not_hidden() {
    let checker = Checker::new(Vec::new());
    assert_eq!(checker.is_hidden("test/test"), false);
}

#[test]
fn checker_test_is_legit() {
    let ignored_paths: Vec<String> =
        vec!["/Users/cheng", "/usr/bin"].into_iter().map(String::from).collect();
    let checker = Checker::new(ignored_paths);
    assert!(checker.is_ignored_path("/Users/cheng"))
}

#[test]
fn checker_test_is_not_legit() {
    let ignored_paths: Vec<String> =
        vec!["/Users/cheng", "/usr/bin"].into_iter().map(String::from).collect();
    let checker = Checker::new(ignored_paths);
    assert_eq!(checker.is_ignored_path("/Users/cheng/Applications"), false)
}

#[test]
fn checker_is_symlink_follows_the_entry() {
    let checker = Checker::new(Vec::new());
    assert!(checker.is_symlink(&Entry::new(SYMLINK_PATH, true)));
    assert_eq!(checker.is_symlink(&Entry::new(APP_PATH, false)), false);
}

#[test]
fn dot_name_is_unwanted_even_for_a_bundle() {
    let checker = Checker::new(Vec::new());
    assert_eq!(checker.check(&plain("/Applications/.Hidden.app")), Outcome::UnwantedPath);
    assert_eq!(checker.check(&plain("/Users/x/.config")), Outcome::UnwantedPath);
    assert_eq!(checker.check(&plain(".test")), Outcome::UnwantedPath);
}

#[test]
fn short_paths_are_hidden() {
    let checker = Checker::new(Vec::new());
    assert!(checker.is_hidden(""));
    assert!(checker.is_hidden("/"));
    assert!(checker.is_hidden("a"));
    assert_eq!(checker.is_hidden("ab"), false);
    // one character of two bytes is longer than one byte
    assert_eq!(checker.is_hidden("é"), false);
    assert_eq!(checker.check(&plain("/")), Outcome::UnwantedPath);
}

#[test]
fn plain_bundle_is_a_bundle() {
    let checker = Checker::new(Vec::new());
    assert_eq!(checker.check(&plain("/System/Applications/Books.app")), Outcome::BundlePath);
    assert_eq!(
        checker.check(&plain("/System/Library/PreferencePanes/Network.prefPane")),
        Outcome::BundlePath
    );
}

#[test]
fn other_extensions_are_normal() {
    let checker = Checker::new(Vec::new());
    assert_eq!(checker.check(&plain("/Applications")), Outcome::NormalPath);
    assert_eq!(checker.check(&plain("/tmp/readme.txt")), Outcome::NormalPath);
    assert_eq!(checker.check(&plain("/tmp/Thing.APP")), Outcome::NormalPath);
    assert_eq!(checker.check(&plain("/tmp/app")), Outcome::NormalPath);
}

#[test]
fn symlinked_bundle_is_unwanted() {
    let checker = Checker::new(Vec::new());
    assert_eq!(checker.check(&Entry::new(SYMLINK_PATH, true)), Outcome::UnwantedPath);
    assert_eq!(checker.check(&Entry::new(SYMLINK_PATH, false)), Outcome::BundlePath);
}

#[test]
fn ignore_match_is_exact() {
    let checker = Checker::new(vec!["/Users/x".to_string()]);
    assert_eq!(checker.check(&plain("/Users/x")), Outcome::UnwantedPath);
    assert_eq!(checker.check(&plain("/Users/x/Applications")), Outcome::NormalPath);
    assert_eq!(checker.check(&plain("/Users/xy")), Outcome::NormalPath);
}

#[test]
fn ignored_bundle_is_unwanted() {
    let checker = Checker::new(vec!["/Applications/Safari.app".to_string()]);
    assert_eq!(checker.check(&plain("/Applications/Safari.app")), Outcome::UnwantedPath);
    assert_eq!(checker.check(&plain("/Applications/Books.app")), Outcome::BundlePath);
}

#[test]
fn empty_ignore_set_changes_nothing() {
    let without = Checker::new(Vec::new());
    let ignore = IgnoreChecker::new(Vec::new());
    assert!(ignore.is_empty());
    assert_eq!(ignore.contains("/Users/x"), false);
    assert_eq!(without.is_ignored_path("/Users/x"), false);
    assert_eq!(without.check(&plain("/Users/x")), Outcome::NormalPath);
}

#[test]
fn bundle_extension_is_that_of_the_last_component() {
    assert_eq!(BundleChecker::new().is_legit(&plain("/Applications/Old.app/Contents")), false);
    assert!(BundleChecker::new().is_legit(&plain("/Applications/Old.app/")));
    assert!(BundleChecker::marks_bundle("app"));
    assert!(BundleChecker::marks_bundle("prefPane"));
    assert_eq!(BundleChecker::marks_bundle("prefpane"), false);
    assert_eq!(BundleChecker::marks_bundle(""), false);
}

#[test]
fn stem_decides_hidden() {
    assert!(HiddenChecker::starts_with_dot(".git"));
    assert_eq!(HiddenChecker::starts_with_dot("git."), false);
    assert_eq!(HiddenChecker::starts_with_dot(""), false);
    assert!(HiddenChecker {}.is_legit(&plain("/a/b/.hidden.txt")));
    assert_eq!(HiddenChecker {}.is_legit(&plain("/a/.b/c")), false);
}
