//! Typo suggestions: trigram similarity ranking and threshold.

use keymap_compiler::similar::suggestions;

fn names(v: Vec<&str>) -> Vec<String> {
    v.into_iter().map(|s| s.to_string()).collect()
}

#[test]
fn close_name_is_suggested() {
    let r = suggestions(&"spac".to_string(), &names(vec!["space"]));
    assert_eq!(r, vec!["space".to_string()]);
}

#[test]
fn suggestions_are_ranked_most_similar_first() {
    // "space" shares more trigrams with "spac" than "bspace" does
    let r = suggestions(&"spac".to_string(), &names(vec!["bspace", "space"]));
    assert_eq!(r, vec!["space".to_string(), "bspace".to_string()]);
}

#[test]
fn unrelated_names_fall_below_the_threshold() {
    let r = suggestions(&"zzz".to_string(), &names(vec!["space", "enter", "tab"]));
    assert!(r.is_empty(), "got {:?}", r);
}

#[test]
fn matching_is_case_insensitive() {
    let r = suggestions(&"SPACE".to_string(), &names(vec!["space"]));
    assert_eq!(r, vec!["space".to_string()]);
}

#[test]
fn exact_match_ranks_before_partial_match() {
    let r = suggestions(&"left".to_string(), &names(vec!["lshift", "left"]));
    assert_eq!(r[0], "left");
}

#[test]
fn ties_keep_table_order() {
    // two identical candidates tie; table order decides
    let r = suggestions(&"space".to_string(), &names(vec!["space", "space"]));
    assert_eq!(r.len(), 2);
    assert_eq!(r[0], "space");
    assert_eq!(r[1], "space");
}
