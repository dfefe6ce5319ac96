use bundle_search::matcher::{initial_match, match_components_prefix, match_query, prefix_match};
use bundle_search::text::{eq_ignore_ascii_case, starts_with, str_eq};

#[test]
fn test_prefix_match() {
    let res = prefix_match("saf", "Safari.app");
    assert!(res)
}

#[test]
fn test_initial_match_simple() {
    let res = initial_match("am", "Activity Monitor.app");
    assert!(res)
}

#[test]
fn test_initial_match_complex() {
    let res = initial_match("actmo", "Activity Monitor.app");
    assert!(res)
}

#[test]
fn test_initial_match_incomplete_query() {
    let res = initial_match("am", "Activity Monitor Super.app");
    assert!(res)
}

#[test]
fn test_initial_match_overcomplete_query() {
    let res = initial_match("ams", "Activity Monitor.app");
    assert_eq!(res, false);
}

#[test]
fn test_initial_match_unmatched() {
    let res = initial_match("acx", "Activity Monitor.app");
    assert_eq!(res, false);
}

#[test]
fn match_query_is_either_way() {
    assert!(match_query("saf", "Safari.app"));
    assert!(match_query("am", "Activity Monitor.app"));
    assert!(match_query("actmo", "Activity Monitor.app"));
    assert!(match_query("am", "Activity Monitor Super.app"));
    assert_eq!(match_query("ams", "Activity Monitor.app"), false);
    assert_eq!(match_query("acx", "Activity Monitor.app"), false);
    // a prefix of the whole name that no word prefixes spell
    assert!(match_query("activity m", "Activity Monitor"));
    assert_eq!(initial_match("activity m", "Activity Monitor"), false);
}

#[test]
fn prefix_match_lowers_the_target_only() {
    assert!(prefix_match("saf", "SAFARI"));
    assert!(prefix_match("", "Safari"));
    assert!(prefix_match("safari", "Safari"));
    assert_eq!(prefix_match("Saf", "Safari"), false);
    assert_eq!(prefix_match("safaris", "Safari"), false);
    assert_eq!(prefix_match("afari", "Safari"), false);
    assert!(prefix_match("élan", "ÉLAN"));
}

#[test]
fn initial_match_skips_stop_words() {
    assert!(initial_match("ug", "Users & Groups"));
    assert!(initial_match("dt", "DateAndTime"));
    assert!(initial_match("dat", "DateAndTime"));
    assert!(initial_match("dati", "DateAndTime"));
    assert_eq!(initial_match("dan", "DateAndTime"), false);
    assert_eq!(initial_match("ua", "Users & Groups"), false);
}

#[test]
fn empty_query_matches_anything() {
    assert!(match_components_prefix("", &[]));
    assert!(match_components_prefix("", &["Activity"]));
    assert!(initial_match("", ""));
    assert!(match_query("", "Safari"));
}

#[test]
fn query_needs_components() {
    assert_eq!(match_components_prefix("a", &[]), false);
    assert_eq!(initial_match("a", ""), false);
}

#[test]
fn every_component_gives_at_least_one_character() {
    // no component may be skipped
    assert_eq!(match_components_prefix("m", &["Activity", "Monitor"]), false);
    assert_eq!(match_components_prefix("as", &["Activity", "Monitor", "Super"]), false);
    assert!(match_components_prefix("ams", &["Activity", "Monitor", "Super"]));
}

#[test]
fn shorter_prefix_is_given_up_for_a_longer_one() {
    // "a" + "a.." fails at the second component; "aa" + "b" works
    assert!(match_components_prefix("aab", &["aaX", "bY"]));
    assert!(match_components_prefix("aab", &["aX", "abY"]));
    assert_eq!(match_components_prefix("aab", &["aX", "bY"]), false);
}

#[test]
fn rest_of_a_component_is_not_tried_again() {
    // once "Ac" is taken from the first word, its "t" is gone
    assert_eq!(match_components_prefix("act", &["Ac", "Monitor"]), false);
    assert!(match_components_prefix("acm", &["Activity", "Monitor"]));
}

#[test]
fn components_match_whatever_their_ascii_case() {
    assert!(match_components_prefix("AM", &["activity", "monitor"]));
    assert!(match_components_prefix("am", &["ACTIVITY", "MONITOR"]));
    // outside ASCII only the same character matches
    assert_eq!(match_components_prefix("é", &["École"]), false);
    assert!(match_components_prefix("É", &["École"]));
}

#[test]
fn ascii_case_folding() {
    assert!(eq_ignore_ascii_case('a', 'A'));
    assert!(eq_ignore_ascii_case('Z', 'z'));
    assert!(eq_ignore_ascii_case('1', '1'));
    assert_eq!(eq_ignore_ascii_case('a', 'b'), false);
    assert_eq!(eq_ignore_ascii_case('@', '`'), false);
    assert_eq!(eq_ignore_ascii_case('[', '{'), false);
    assert_eq!(eq_ignore_ascii_case('é', 'É'), false);
}

#[test]
fn string_helpers() {
    assert!(str_eq("app", "app"));
    assert!(str_eq("", ""));
    assert_eq!(str_eq("app", "apP"), false);
    assert_eq!(str_eq("app", "apps"), false);
    assert!(str_eq("京都", "京都"));
    let text: Vec<char> = "Safari".chars().collect();
    assert!(starts_with(&text, &"Saf".chars().collect()));
    assert!(starts_with(&text, &Vec::new()));
    assert_eq!(starts_with(&text, &"Safaris".chars().collect()), false);
    assert_eq!(starts_with(&text, &"af".chars().collect()), false);
}
