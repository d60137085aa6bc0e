use dotlink::config::{
    considered_mapping, convert_line_to_mapping, load_config, ConfigParseError, Mapping,
    SAMPLE_CONFIG_CONTENT,
};

#[test]
fn blank_lines_and_comments_are_not_considered() {
    assert!(!considered_mapping(&String::from("")));
    assert!(!considered_mapping(&String::from("   \t")));
    assert!(!considered_mapping(&String::from("# comment")));
    assert!(!considered_mapping(&String::from("   # a : b")));
    assert!(considered_mapping(&String::from("a : b")));
    assert!(considered_mapping(&String::from("  x#y")));
}

#[test]
fn a_line_with_one_colon_is_a_rule() {
    let mapping = convert_line_to_mapping(String::from("  ~/.config/(**) :  config/(1) ")).unwrap();
    assert_eq!(mapping.source, "~/.config/(**)");
    assert_eq!(mapping.destination, "config/(1)");
}

#[test]
fn a_rule_may_have_empty_fields() {
    let mapping = convert_line_to_mapping(String::from(":")).unwrap();
    assert_eq!(mapping.source, "");
    assert_eq!(mapping.destination, "");
}

#[test]
fn a_line_without_colon_is_rejected() {
    let error = convert_line_to_mapping(String::from("no separator here")).unwrap_err();
    assert_eq!(error.line, "no separator here");
}

#[test]
fn a_line_with_two_colons_is_rejected() {
    let error = convert_line_to_mapping(String::from("a : b : c")).unwrap_err();
    assert_eq!(error.line, "a : b : c");
}

#[test]
fn the_parse_error_names_the_line_and_the_expected_shape() {
    let error = ConfigParseError { line: String::from("oops") };
    assert_eq!(
        error.message(),
        "Failed to parse line 'oops'.\nExpected format <source> : <destination>"
    );
}

#[test]
fn a_mapping_is_shown_with_an_arrow() {
    let mapping = Mapping { source: String::from("a/(*)"), destination: String::from("b/(1)") };
    assert_eq!(mapping.description(), "a/(*) -> b/(1)");
}

#[test]
fn load_config_keeps_the_rules_in_order() {
    let config = load_config("# first\n\na/(*) : x/(1)\r\n  \n b : y \n").unwrap();
    assert_eq!(config.mappings.len(), 2);
    assert_eq!(config.mappings[0].source, "a/(*)");
    assert_eq!(config.mappings[0].destination, "x/(1)");
    assert_eq!(config.mappings[1].source, "b");
    assert_eq!(config.mappings[1].destination, "y");
}

#[test]
fn load_config_of_nothing_has_no_rules() {
    assert_eq!(load_config("").unwrap().mappings.len(), 0);
    assert_eq!(load_config("\n# only a comment\n").unwrap().mappings.len(), 0);
}

#[test]
fn load_config_reports_the_first_malformed_line() {
    let error = load_config("a : b\nbroken\nalso : broken : too\n").unwrap_err();
    assert_eq!(error.line, "broken");
}

#[test]
fn the_sample_configuration_holds_four_rules() {
    let config = load_config(SAMPLE_CONFIG_CONTENT).unwrap();
    assert_eq!(config.mappings.len(), 4);
    assert_eq!(config.mappings[0].source, "/home/nomen/.mplayer/(*)");
    assert_eq!(config.mappings[0].destination, "mplayer/(1)");
    assert_eq!(config.mappings[2].source, "~/.config/(*)/(*.sh)");
    assert_eq!(config.mappings[2].destination, "sh/(1)/(2)");
    assert_eq!(config.mappings[3].destination, "(1)/pngs/(2) -> neofetch/pngs/arch.png");
}
