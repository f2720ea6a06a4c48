use tailor::directive_rule_name;
use tailor::format_expression_error;
use tailor::format_failure;
use tailor::trim_payload;

#[test]
fn directive_basic() {
    assert_eq!(directive_rule_name("tailor disable ci"), Some("ci".to_string()));
}

#[test]
fn directive_marker_only_is_malformed() {
    assert_eq!(directive_rule_name("tailor disable"), None);
}

#[test]
fn directive_whitespace_payload_is_malformed() {
    assert_eq!(directive_rule_name("tailor disable   \t \n"), None);
}

#[test]
fn directive_absent_marker() {
    assert_eq!(directive_rule_name("looks good to me"), None);
}

#[test]
fn directive_marker_mid_body_takes_everything_after() {
    assert_eq!(
        directive_rule_name("please tailor disable ci now"),
        Some("ci now".to_string())
    );
}

#[test]
fn directive_splits_on_first_occurrence() {
    assert_eq!(
        directive_rule_name("tailor disable tailor disable x"),
        Some("tailor disable x".to_string())
    );
}

#[test]
fn directive_payload_needs_no_separator() {
    assert_eq!(directive_rule_name("tailor disableci"), Some("ci".to_string()));
}

#[test]
fn directive_trims_payload() {
    assert_eq!(directive_rule_name("tailor disable \t ci \n"), Some("ci".to_string()));
}

#[test]
fn directive_keeps_non_ascii_payload() {
    assert_eq!(directive_rule_name("tailor disable caf\u{e9}"), Some("caf\u{e9}".to_string()));
}

#[test]
fn trim_payload_strips_both_ends() {
    assert_eq!(trim_payload("  a b  "), "a b".to_string());
}

#[test]
fn trim_payload_all_whitespace_is_empty() {
    assert_eq!(trim_payload(" \t\r\n "), "".to_string());
}

#[test]
fn trim_payload_keeps_inner_whitespace_only() {
    assert_eq!(trim_payload("ci"), "ci".to_string());
}

#[test]
fn failure_message_format() {
    assert_eq!(
        format_failure("ci", "needs commits"),
        "Failed ci (needs commits)".to_string()
    );
}

#[test]
fn expression_error_context_format() {
    assert_eq!(
        format_expression_error("ci", "coreos", "tailor"),
        "Failed to run \"ci\" from \"coreos/tailor\"".to_string()
    );
}
