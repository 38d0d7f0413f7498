use cheatsheet::config::{config_candidates, select_config, ConfigError};
use cheatsheet::text::{pad_to_width, substitute_placeholder};

#[test]
fn placeholder_replaced_at_each_occurrence() {
    assert_eq!(substitute_placeholder("**x**", "pre"), "prexpre");
    assert_eq!(substitute_placeholder("***", "P"), "P*");
    assert_eq!(substitute_placeholder("no token *", "P"), "no token *");
    assert_eq!(substitute_placeholder("**", ""), "");
    assert_eq!(substitute_placeholder("", "P"), "");
}

#[test]
fn labels_are_padded_never_cut() {
    assert_eq!(pad_to_width("ab", 5), "ab   ");
    assert_eq!(pad_to_width("abcdef", 3), "abcdef");
    assert_eq!(pad_to_width("", 2), "  ");
    assert_eq!(pad_to_width("é", 3), "é  ");
}

#[test]
fn candidates_follow_priority_order() {
    let c = config_candidates(Some("/home/u"));
    assert_eq!(
        c,
        vec![
            "./cheatsheet.json".to_string(),
            "/home/u/.local/share/cheatsheet-rs/cheatsheet.json".to_string(),
            "/home/u/cheatsheet.json".to_string(),
        ]
    );
    let none = config_candidates(None);
    assert_eq!(none, vec!["./cheatsheet.json".to_string(), String::new(), String::new()]);
}

#[test]
fn first_existing_candidate_wins() {
    let c = vec![("a".to_string(), false), ("b".to_string(), true), ("c".to_string(), true)];
    assert_eq!(select_config(&c).unwrap(), 1);
    let empty_exists = vec![(String::new(), true), ("z".to_string(), true)];
    assert_eq!(select_config(&empty_exists).unwrap(), 1);
}

#[test]
fn missing_config_is_reported() {
    let c = vec![("a".to_string(), false), (String::new(), false), ("c".to_string(), false)];
    assert!(matches!(select_config(&c), Err(ConfigError::ConfigNotFound)));
    assert!(matches!(select_config(&Vec::new()), Err(ConfigError::ConfigNotFound)));
}
