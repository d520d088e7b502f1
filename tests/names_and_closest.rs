use concordium_build::closest::find_closest;
use concordium_build::names::{parse_contract_name, parse_receive_name};
use concordium_build::summary::get_colon_position;

fn strings(v: &[&str]) -> Vec<String> {
    v.iter().map(|s| s.to_string()).collect()
}

#[test]
fn closest_of_no_candidates_is_empty() {
    assert_eq!(find_closest(&Vec::new(), "x"), Some(Vec::new()));
}

#[test]
fn closest_exact_match_gives_none() {
    assert_eq!(find_closest(&strings(&["a"]), "a"), None);
}

#[test]
fn closest_picks_the_nearer_candidate() {
    assert_eq!(find_closest(&strings(&["ab", "xy"]), "a"), Some(strings(&["ab"])));
}

#[test]
fn closest_reports_only_the_least_distance() {
    // "ab" is one substitution from "ac"; "ba" is two edits away.
    assert_eq!(find_closest(&strings(&["ab", "ba"]), "ac"), Some(strings(&["ab"])));
}

#[test]
fn closest_reports_all_tied_candidates_in_order() {
    assert_eq!(find_closest(&strings(&["cb", "ab", "zzzz"]), "xb"), Some(strings(&["cb", "ab"])));
}

#[test]
fn closest_counts_adjacent_swaps_as_one_edit() {
    assert_eq!(find_closest(&strings(&["abdc", "abxy"]), "abcd"), Some(strings(&["abdc"])));
}

#[test]
fn contract_name_strips_init_prefix() {
    assert_eq!(parse_contract_name("init_counter"), Some("counter".to_string()));
    assert_eq!(parse_contract_name("init_"), Some(String::new()));
}

#[test]
fn contract_name_refusals() {
    assert_eq!(parse_contract_name("counter"), None);
    assert_eq!(parse_contract_name("init_a.b"), None);
    assert_eq!(parse_contract_name("init_a b"), None);
    let long = format!("init_{}", "c".repeat(96));
    assert_eq!(parse_contract_name(&long), None);
    let longest = format!("init_{}", "c".repeat(95));
    assert_eq!(parse_contract_name(&longest), Some("c".repeat(95)));
}

#[test]
fn receive_name_splits_at_first_dot() {
    assert_eq!(
        parse_receive_name("counter.increment"),
        Some(("counter".to_string(), "increment".to_string()))
    );
    assert_eq!(parse_receive_name("a.b.c"), Some(("a".to_string(), "b.c".to_string())));
    assert_eq!(parse_receive_name("counter."), Some(("counter".to_string(), String::new())));
}

#[test]
fn receive_name_refusals() {
    assert_eq!(parse_receive_name("counter"), None);
    assert_eq!(parse_receive_name("a b.c"), None);
    assert_eq!(parse_receive_name(&format!("a.{}", "c".repeat(99))), None);
}

#[test]
fn names_are_never_both_kinds() {
    for s in ["init_a", "init_a.b", "a.b", "foo"] {
        assert!(!(parse_contract_name(s).is_some() && parse_receive_name(s).is_some()));
    }
}

#[test]
fn colon_position_is_at_least_five() {
    assert_eq!(get_colon_position(&Vec::new()), 5);
    assert_eq!(get_colon_position(&strings(&["ab", "cde"])), 5);
    assert_eq!(get_colon_position(&strings(&["ab", "increment", "dé"])), 9);
}
