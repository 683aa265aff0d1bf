use pren_core::parser::{
    parse_argument, parse_element, parse_escaped_literal, parse_literal_text,
    parse_prompt_reference, parse_template, parse_variable_prompt_reference,
};
use pren_core::prompt::PromptTemplatePart;

fn pair(rest: &str, value: &str) -> (String, String) {
    (rest.to_string(), value.to_string())
}

#[test]
fn test_parse_empty() {
    let result = parse_literal_text("");
    assert!(result.is_err());
}

#[test]
fn test_parse_literal_text() {
    let result = parse_literal_text("Hello!");
    assert_eq!(result, Ok(pair("", "Hello!")));
}

#[test]
fn test_parse_argument() {
    let result = parse_argument("{{topic}} is the subject");
    assert_eq!(result, Ok(pair(" is the subject", "topic")));
}

#[test]
fn test_parse_consecutive_variables() {
    let result = parse_template("{{a}}{{b}}{{prompt:c}}");
    assert!(result.is_ok());
    let parts = result.unwrap();
    assert_eq!(parts.len(), 3);
}

#[test]
fn test_parse_variables_at_boundaries() {
    let result = parse_template("{{start}}middle{{end}}");
    assert!(result.is_ok());
    let parts = result.unwrap();
    assert_eq!(parts.len(), 3);
}

#[test]
fn test_parse_incomplete_templates() {
    let result = parse_template("Hello {{name");
    assert!(result.is_err());

    let result = parse_template("{{prompt:test");
    assert!(result.is_err());

    let result = parse_template("{{{{hello");
    assert!(result.is_err());
}

#[test]
fn test_parse_with_whitespace() {
    let result = parse_argument("{{ name }}");
    assert!(result.is_err(), "Whitespace should not be allowed");

    let result = parse_prompt_reference("{{prompt: test }}");
    assert!(result.is_err(), "Whitespace should not be allowed");
}

#[test]
fn test_parse_special_characters_in_literals() {
    let result = parse_template("Hello {name} with braces but not template syntax");
    assert!(result.is_ok());
}

#[test]
fn test_parse_invalid_argument() {
    let result = parse_argument("{{to/pic}} is the subject");
    assert!(result.is_err(), "Expected parse to fail due to non-alphanumeric character");
}

#[test]
fn test_parse_empty_identifier() {
    let result = parse_argument("{{}}");
    assert!(result.is_err(), "Empty identifier should fail");

    let result = parse_prompt_reference("{{prompt:}}");
    assert!(result.is_err(), "Empty prompt reference should fail");
}

#[test]
fn test_parse_only_escaped_literals() {
    let result = parse_template("{{{{he{ll}o}}}}");
    assert!(result.is_ok());
    let parts = result.unwrap();
    assert_eq!(parts.len(), 1);
    assert!(matches!(parts[0], PromptTemplatePart::Literal(_)));
}

#[test]
fn test_parse_prompt_reference() {
    let result = parse_prompt_reference("{{prompt:basic_prompt}} is the prompt");
    assert_eq!(result, Ok(pair(" is the prompt", "basic_prompt")));
}

#[test]
fn test_parse_invalid_prompt_reference() {
    let result = parse_prompt_reference("{{prompt:basic:prompt}} is the prompt");
    assert!(result.is_err(), "Expected parse to fail due to non-alphanumeric character");
}

#[test]
fn test_parse_escaped_literal() {
    let result = parse_escaped_literal("{{{{he{llo wo}rld}}}} more text");
    assert_eq!(result, Ok(pair(" more text", "he{llo wo}rld")));
}

#[test]
fn test_parse_element_argument() {
    let result = parse_element("{{username}}");
    assert_eq!(
        result,
        Ok((String::new(), PromptTemplatePart::Argument(String::from("username"))))
    );
}

#[test]
fn test_parse_element_invalid_argument() {
    let result = parse_element("{{user&name}}");
    assert!(result.is_err(), "Expected parse to fail due to non-alphanumeric character");
}

#[test]
fn test_parse_element_prompt_reference() {
    let result = parse_element("{{prompt:username}}");
    assert_eq!(
        result,
        Ok((String::new(), PromptTemplatePart::PromptReference(String::from("username"))))
    );
}

#[test]
fn test_parse_element_invalid_prompt_reference() {
    let result = parse_element("{{prompt:u$ername}}");
    assert!(result.is_err(), "Expected parse to fail due to non-alphanumeric character");
}

#[test]
fn test_parse_element_literal() {
    let result = parse_element("username");
    assert_eq!(
        result,
        Ok((String::new(), PromptTemplatePart::Literal(String::from("username"))))
    );
}

#[test]
fn test_parse_element_escaped_literal() {
    let result = parse_element("{{{{hello{{username}}bye}}}}");
    assert_eq!(
        result,
        Ok((String::new(), PromptTemplatePart::Literal(String::from("hello{{username}}bye"))))
    );
}

#[test]
fn test_parse_template() {
    let result = parse_template("Hello {{name}}, welcome to {{prompt:greeting}}!");
    assert!(result.is_ok());
    let parts = result.unwrap();
    assert_eq!(parts.len(), 5);
}

#[test]
fn test_parse_invalid_template() {
    let result = parse_template("Hello {{n@me}}, welcome to {{prompt:greeting}}!");
    assert!(result.is_err());
}

#[test]
fn test_parse_template_with_escaped_literals() {
    let result = parse_template("Hello {{{{name}}}} is not a variable, but {{real_name}} is");
    assert!(result.is_ok());
    let parts = result.unwrap();
    assert_eq!(parts.len(), 5);
}

#[test]
fn test_parse_identifier_max_length() {
    let max_length_id = "a".repeat(64);
    let input = format!("{{{{{}}}}}", max_length_id);
    let result = parse_argument(&input);
    assert!(result.is_ok(), "64-character identifier should work");
    assert_eq!(result.unwrap().1, max_length_id);
}

#[test]
fn test_parse_identifier_too_long() {
    let too_long_id = "a".repeat(65);
    let input = format!("{{{{{}}}}}", too_long_id);
    let result = parse_argument(&input);
    assert!(result.is_err(), "65-character identifier should fail");
}

#[test]
fn test_parse_prompt_reference_max_length() {
    let max_length_id = "a".repeat(64);
    let input = format!("{{{{prompt:{}}}}}", max_length_id);
    let result = parse_prompt_reference(&input);
    assert!(result.is_ok(), "64-character prompt reference should work");
    assert_eq!(result.unwrap().1, max_length_id);
}

#[test]
fn test_parse_prompt_reference_too_long() {
    let too_long_id = "a".repeat(65);
    let input = format!("{{{{prompt:{}}}}}", too_long_id);
    let result = parse_prompt_reference(&input);
    assert!(result.is_err(), "65-character prompt reference should fail");
}

#[test]
fn test_parse_minimum_length() {
    let result = parse_argument("{{a}}");
    assert!(result.is_ok(), "1-character identifier should work");
    assert_eq!(result.unwrap().1, "a");
}

#[test]
fn test_parse_edge_case_lengths() {
    for length in [1, 2, 63, 64] {
        let id = "a".repeat(length);
        let input = format!("{{{{{}}}}}", id);
        let result = parse_argument(&input);
        assert!(
            result.is_ok(),
            "{} character identifier should work. Error: {:?}",
            length,
            result.err()
        );
    }

    for length in [65, 100, 1000] {
        let id = "a".repeat(length);
        let input = format!("{{{{{}}}}}", id);
        let result = parse_argument(&input);
        assert!(result.is_err(), "{} character identifier should fail", length);
    }
}

#[test]
fn parse_variable_prompt_reference_reads_the_argument_name() {
    let result = parse_variable_prompt_reference("{{prompt_var:target}} rest");
    assert_eq!(result, Ok(pair(" rest", "target")));
    assert!(parse_variable_prompt_reference("{{prompt:target}}").is_err());
}

#[test]
fn variable_reference_parses_into_its_own_part() {
    let parts = parse_template("a{{prompt_var:x}}b").unwrap();
    assert_eq!(
        parts,
        vec![
            PromptTemplatePart::Literal("a".to_string()),
            PromptTemplatePart::VariablePromptReference("x".to_string()),
            PromptTemplatePart::Literal("b".to_string()),
        ]
    );
}

#[test]
fn empty_source_has_no_parts() {
    assert_eq!(parse_template("").unwrap().len(), 0);
}

#[test]
fn empty_escaped_literal_is_an_empty_literal() {
    let parts = parse_template("{{{{}}}}").unwrap();
    assert_eq!(parts, vec![PromptTemplatePart::Literal(String::new())]);
}

#[test]
fn escaped_literal_ends_at_first_closing_tag() {
    let parts = parse_template("{{{{a}}}}}}").unwrap();
    assert_eq!(
        parts,
        vec![
            PromptTemplatePart::Literal("a".to_string()),
            PromptTemplatePart::Literal("}}".to_string()),
        ]
    );
}

#[test]
fn identifiers_are_ascii_only() {
    assert!(parse_argument("{{caf\u{e9}}}").is_err());
    assert!(parse_argument("{{a-b_C9}}").is_ok());
}

#[test]
fn parse_error_names_the_input_left_over() {
    let err = parse_template("ok {{bad name}}").unwrap_err();
    assert_eq!(
        err.message,
        "Failed to parse template: unexpected input `{{bad name}}`"
    );
}

#[test]
fn unterminated_escape_with_plain_closing_fails() {
    assert!(parse_template("x {{{{y}} z").is_err());
}
