use bevy_granite::component_data::{
    extract_component_data, extract_component_data_checked, is_whitespace, should_skip_component,
};

#[test]
fn extracts_component_value() {
    let data = r#"{"my_game::Health":(value:10)}"#;
    assert_eq!(extract_component_data("my_game::Health", data), Some("(value:10)".to_string()));
}

#[test]
fn extraction_trims_whitespace() {
    let data = "{\"a::B\": ( x: 1 ) }";
    assert_eq!(extract_component_data("a::B", data), Some("( x: 1 )".to_string()));
}

#[test]
fn missing_component_gives_none() {
    let data = r#"{"a::B":(x:1)}"#;
    assert_eq!(extract_component_data("a::C", data), None);
}

#[test]
fn text_that_is_not_a_map_gives_none() {
    assert_eq!(extract_component_data("a::B", "not ron ["), None);
    assert_eq!(extract_component_data("a::B", ""), None);
}

#[test]
fn key_spelled_differently_gives_none() {
    // The map has the entry but not written as `"a::B":`.
    let data = "{\"a::B\" : 1}";
    assert_eq!(extract_component_data("a::B", data), None);
}

#[test]
fn checked_matches_unchecked_on_ordinary_text() {
    let data = r#"{"a::B":(x:1)}"#;
    assert_eq!(extract_component_data_checked("a::B", data), Some(Some("(x:1)".to_string())));
    assert_eq!(extract_component_data_checked("a::C", data), Some(None));
}

#[test]
fn checked_reports_key_at_end_of_text() {
    // The first `"a":` is the last thing in the text: slicing would fail.
    let data = "{\"a\" :1}//\"a\":";
    assert_eq!(extract_component_data_checked("a", data), None);
}

#[test]
fn whitespace_property() {
    assert!(is_whitespace(' '));
    assert!(is_whitespace('\n'));
    assert!(is_whitespace('\u{3000}'));
    assert!(!is_whitespace('x'));
    assert!(!is_whitespace('\u{200B}'));
}

#[test]
fn skip_rule() {
    assert!(should_skip_component(false, false));
    assert!(!should_skip_component(true, false));
    assert!(!should_skip_component(false, true));
}
