use dotlink::config::{Config, Mapping};
use dotlink::matcher::Match;
use dotlink::matcher::PatternError;
use dotlink::resolver::{
    check_patterns, get_found_mappings, resolve_checked, resolve_rule, substitute_group_value,
    substitute_group_values, token_chars,
};

fn rule(source: &str, destination: &str) -> Mapping {
    Mapping { source: String::from(source), destination: String::from(destination) }
}

fn file(path: &str, captures: &[&str]) -> Match {
    Match {
        matched_path: String::from(path),
        captures: captures.iter().map(|c| c.to_string()).collect(),
        is_directory: false,
    }
}

fn directory(path: &str, captures: &[&str]) -> Match {
    Match {
        matched_path: String::from(path),
        captures: captures.iter().map(|c| c.to_string()).collect(),
        is_directory: true,
    }
}

fn substitute(template: &str, captures: &[&str]) -> String {
    substitute_group_values(&rule("", template), &file("", captures))
}

#[test]
fn the_token_of_a_group_is_its_number_in_parentheses() {
    assert_eq!(token_chars(1), vec!['(', '1', ')']);
    assert_eq!(token_chars(12), vec!['(', '1', '2', ')']);
    assert_eq!(token_chars(0), vec!['(', '0', ')']);
}

#[test]
fn two_groups_are_put_in_place() {
    assert_eq!(substitute("(1)/pngs/(2)", &["neofetch", "arch"]), "neofetch/pngs/arch");
}

#[test]
fn a_template_that_skips_the_first_group_stays_as_it_is() {
    assert_eq!(substitute("(2)-x", &["a", "b"]), "(2)-x");
}

#[test]
fn substitution_stops_at_the_first_missing_token() {
    assert_eq!(substitute("(1)/(3)", &["a", "b", "c"]), "a/(3)");
}

#[test]
fn substitution_stops_at_the_first_missing_group() {
    assert_eq!(substitute("(1)/(2)/(3)", &["a", "b"]), "a/b/(3)");
    assert_eq!(substitute("(1)", &[]), "(1)");
}

#[test]
fn every_occurrence_of_a_token_is_replaced() {
    assert_eq!(substitute("(1)/(1).bak", &["f"]), "f/f.bak");
}

#[test]
fn a_capture_may_bring_the_next_token_with_it() {
    assert_eq!(substitute("x(1)", &["(2)", "y"]), "xy");
}

#[test]
fn a_template_without_tokens_stays_as_it_is() {
    assert_eq!(substitute("plain/name", &["a"]), "plain/name");
    assert_eq!(substitute("", &["a"]), "");
}

#[test]
fn the_tenth_group_has_a_token_of_two_digits() {
    let captures = ["a", "b", "c", "d", "e", "f", "g", "h", "i", "j"];
    assert_eq!(
        substitute("(1)(2)(3)(4)(5)(6)(7)(8)(9)(10)", &captures),
        "abcdefghij"
    );
}

#[test]
fn one_group_is_put_in_place_where_it_applies() {
    let captures = vec![String::from("a"), String::from("b")];
    assert_eq!(substitute_group_value("(2)/(1)/(2)", &captures, 2), Some(String::from("b/(1)/b")));
    assert_eq!(substitute_group_value("(2)/(1)", &captures, 1), Some(String::from("(2)/a")));
}

#[test]
fn one_group_does_not_apply_without_group_or_token() {
    let captures = vec![String::from("a"), String::from("b")];
    assert_eq!(substitute_group_value("(1)", &captures, 0), None);
    assert_eq!(substitute_group_value("(1)(3)", &captures, 3), None);
    assert_eq!(substitute_group_value("(1)", &captures, 2), None);
    assert_eq!(substitute_group_value("(0)", &captures, 0), None);
}

#[test]
fn the_matches_of_a_rule_resolve_in_order_without_directories() {
    let pairs = resolve_rule(
        &rule("/src/(*)/(*.sh)", "sh/(1)/(2)"),
        &vec![
            file("/src/polybar/launch.sh", &["polybar", "launch.sh"]),
            directory("/src/odd/dir.sh", &["odd", "dir.sh"]),
            file("/src/bspwm/run.sh", &["bspwm", "run.sh"]),
        ],
    );
    assert_eq!(pairs.len(), 2);
    assert_eq!(pairs[0].source, "/src/polybar/launch.sh");
    assert_eq!(pairs[0].destination, "sh/polybar/launch.sh");
    assert_eq!(pairs[1].source, "/src/bspwm/run.sh");
    assert_eq!(pairs[1].destination, "sh/bspwm/run.sh");
}

#[test]
fn a_rule_without_matches_resolves_to_nothing() {
    assert_eq!(resolve_rule(&rule("/src/(*)", "x/(1)"), &Vec::new()).len(), 0);
    let config = Config { mappings: vec![rule("/nothing/(*)", "x/(1)"), rule("/a/(*)", "a/(1)")] };
    let found = vec![Vec::new(), vec![file("/a/f", &["f"])]];
    let resolution = get_found_mappings(&config, &found);
    assert_eq!(resolution.errors.len(), 0);
    assert_eq!(resolution.mappings.len(), 1);
    assert_eq!(resolution.mappings[0].source, "/a/f");
    assert_eq!(resolution.mappings[0].destination, "a/f");
}

#[test]
fn the_rules_resolve_rule_by_rule() {
    let config = Config { mappings: vec![rule("/b/(*)", "b/(1)"), rule("/a/(*)", "a/(1)")] };
    let found = vec![
        vec![file("/b/2", &["2"]), file("/b/1", &["1"])],
        vec![file("/a/9", &["9"])],
    ];
    let resolution = get_found_mappings(&config, &found);
    let pairs: Vec<(String, String)> = resolution
        .mappings
        .iter()
        .map(|m| (m.source.clone(), m.destination.clone()))
        .collect();
    assert_eq!(
        pairs,
        vec![
            (String::from("/b/2"), String::from("b/2")),
            (String::from("/b/1"), String::from("b/1")),
            (String::from("/a/9"), String::from("a/9")),
        ]
    );
}

#[test]
fn a_malformed_pattern_fails_its_own_rule_only() {
    let config = Config {
        mappings: vec![rule("/a/(*)", "a/(1)"), rule("/b/***", "b/(1)"), rule("/c/(*)", "c/(1)")],
    };
    let found = vec![
        vec![file("/a/f", &["f"])],
        vec![file("/b/ignored", &["ignored"])],
        vec![file("/c/g", &["g"])],
    ];
    let resolution = get_found_mappings(&config, &found);
    assert_eq!(resolution.mappings.len(), 2);
    assert_eq!(resolution.mappings[0].destination, "a/f");
    assert_eq!(resolution.mappings[1].destination, "c/g");
    assert_eq!(resolution.errors.len(), 1);
    assert_eq!(resolution.errors[0].pattern, "/b/***");
}

#[test]
fn no_rules_resolve_to_nothing() {
    let resolution = get_found_mappings(&Config { mappings: Vec::new() }, &Vec::new());
    assert_eq!(resolution.mappings.len(), 0);
    assert_eq!(resolution.errors.len(), 0);
}

#[test]
fn every_pattern_is_checked_in_its_place() {
    let config = Config {
        mappings: vec![rule("/a/(*)", "a/(1)"), rule("x/[", "b"), rule("**", "c"), rule(")", "d")],
    };
    let faults = check_patterns(&config);
    assert_eq!(faults.len(), 4);
    assert!(faults[0].is_none());
    assert!(faults[2].is_none());
    let second = faults[1].as_ref().unwrap();
    assert_eq!(second.pattern, "x/[");
    assert_eq!(second.position, 2);
    assert_eq!(second.reason, "invalid range pattern");
    let fourth = faults[3].as_ref().unwrap();
    assert_eq!(fourth.pattern, ")");
    assert_eq!(fourth.position, 0);
    assert_eq!(fourth.reason, "Unmatched closing paren");
}

fn fault(pattern: &str) -> Option<PatternError> {
    Some(PatternError {
        pattern: String::from(pattern),
        position: 7,
        reason: String::from("given"),
    })
}

#[test]
fn a_rule_with_a_fault_adds_its_error_and_no_pair() {
    let config = Config {
        mappings: vec![rule("one/(*)", "1/(1)"), rule("two/(*)", "2/(1)"), rule("three", "3")],
    };
    let found = vec![
        vec![file("one/a", &["a"])],
        vec![file("two/b", &["b"])],
        vec![file("three", &[])],
    ];
    let faults = vec![fault("one/(*)"), None, fault("three")];
    let resolution = resolve_checked(&config, &faults, &found);
    assert_eq!(resolution.mappings.len(), 1);
    assert_eq!(resolution.mappings[0].source, "two/b");
    assert_eq!(resolution.mappings[0].destination, "2/b");
    assert_eq!(resolution.errors.len(), 2);
    assert_eq!(resolution.errors[0].pattern, "one/(*)");
    assert_eq!(resolution.errors[0].position, 7);
    assert_eq!(resolution.errors[0].reason, "given");
    assert_eq!(resolution.errors[1].pattern, "three");
}

#[test]
fn what_was_not_handed_in_counts_as_nothing() {
    let config = Config { mappings: vec![rule("one/(*)", "1/(1)"), rule("two/(*)", "2/(1)")] };
    let found = vec![vec![file("one/a", &["a"])]];
    let resolution = resolve_checked(&config, &Vec::new(), &found);
    assert_eq!(resolution.errors.len(), 0);
    assert_eq!(resolution.mappings.len(), 1);
    assert_eq!(resolution.mappings[0].destination, "1/a");
    let resolution = get_found_mappings(&config, &Vec::new());
    assert_eq!(resolution.mappings.len(), 0);
    assert_eq!(resolution.errors.len(), 0);
}
