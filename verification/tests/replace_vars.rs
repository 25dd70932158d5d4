use war_machine::bitwarden::{get_env_variables, list_arguments};
use war_machine::env_vars::{replace_env_vars, replace_found_vars, verify_name, ReplaceError};
use war_machine::text::lines;

fn pair(a: &str, b: &str) -> (String, String) {
    (a.to_string(), b.to_string())
}

fn test_env() -> Vec<(String, String)> {
    vec![pair("TEST_ENV_VAR", "beautiful"), pair("TEST_ENV_VAR_2", "world")]
}

#[test]
fn test_replace_env_vars() {
    let test_string = "Hi there $TEST_ENV_VAR $TEST_ENV_VAR_2";

    let test_string_with_values = replace_env_vars(&test_env(), test_string);

    assert_eq!(test_string_with_values, Ok("Hi there beautiful world".to_string()));
}

#[test]
fn test_replace_env_vars_brackets() {
    let test_string = "Hi there ${TEST_ENV_VAR} ${TEST_ENV_VAR_2}";

    let test_string_with_values = replace_env_vars(&test_env(), test_string);

    assert_eq!(test_string_with_values, Ok("Hi there beautiful world".to_string()));
}

#[test]
fn the_first_variable_without_a_value_is_reported() {
    assert_eq!(
        replace_env_vars(&test_env(), "a $TEST_ENV_VAR b $NOPE c $ALSO_NOT"),
        Err(ReplaceError::Missing("NOPE".to_string()))
    );
    assert_eq!(replace_env_vars(&vec![], "no variable, 100 $ or ${}"), Ok("no variable, 100 $ or ${}".to_string()));
    assert_eq!(replace_env_vars(&test_env(), ""), Ok(String::new()));
    assert_eq!(
        replace_env_vars(&test_env(), "$TEST_ENV_VAR${TEST_ENV_VAR_2}!"),
        Ok("beautifulworld!".to_string())
    );
}

#[test]
fn pieces_and_names_must_fit_together() {
    let env = test_env();
    let pieces = Some(vec!["a ".to_string(), " b".to_string()]);
    assert_eq!(
        replace_found_vars(&env, pieces.clone(), Some(vec![Some("TEST_ENV_VAR".to_string())])),
        Ok("a beautiful b".to_string())
    );
    assert_eq!(replace_found_vars(&env, pieces.clone(), Some(vec![])), Err(ReplaceError::Search));
    assert_eq!(replace_found_vars(&env, pieces.clone(), Some(vec![None])), Err(ReplaceError::Search));
    assert_eq!(replace_found_vars(&env, pieces.clone(), None), Err(ReplaceError::Search));
    assert_eq!(replace_found_vars(&env, None, Some(vec![])), Err(ReplaceError::Search));
    assert_eq!(replace_found_vars(&env, Some(vec![]), Some(vec![])), Err(ReplaceError::Search));
}

#[test]
fn variable_names_are_letters_digits_and_underscores() {
    let pattern = regex::Regex::new(r"^[a-zA-Z0-9_]+$").unwrap();
    let cases = ["A", "a_1", "", "A-B", "A B", "_", "9", "\u{e9}", "A\n", "azAZ09_", "a.b", "{", "`", "@", "[", "/", ":"];
    for name in cases {
        assert_eq!(verify_name(name), pattern.is_match(name), "{:?}", name);
    }
}

#[test]
fn lines_match_the_standard_library() {
    let cases = ["", "a", "a\n", "a\nb", "a\r\nb\r\n", "a\r", "\n", "\n\n", "\r\n", "a\n\r\nb\r", "a\r\r\nb", "x\ny\n\n"];
    for text in cases {
        let expected: Vec<String> = text.lines().map(|l| l.to_string()).collect();
        assert_eq!(lines(text), expected, "{:?}", text);
    }
}

#[test]
fn secrets_are_read_like_the_pattern() {
    let pattern = regex::Regex::new(r#"^([A-Z0-9_]+)="(.+)""#).unwrap();
    let cases = [
        "KEY=\"value\"",
        "KEY_2=\"a \"quoted\" value\" trailing",
        "KEY=\"\"",
        "KEY=\"x",
        "KEY=x\"",
        "key=\"lower\"",
        "=\"nokey\"",
        "K=\"v\"\"",
        "K=\"\"\"",
        "K =\"v\"",
        "K=\"v\"\r",
        "9=\"\u{e9}\"",
        "KEY",
        "",
        "A=\"1\"=\"2\"",
        "AB\"=\"c\"",
    ];
    for line in cases {
        let expected: Vec<(String, String)> = match pattern.captures(line) {
            Some(c) => vec![(c[1].to_string(), c[2].to_string())],
            None => vec![],
        };
        assert_eq!(get_env_variables(line), expected, "{:?}", line);
    }
    assert_eq!(
        get_env_variables("A=\"1\"\r\nnot a secret\nB_2=\"two\"\n"),
        vec![pair("A", "1"), pair("B_2", "two")]
    );
    assert_eq!(
        list_arguments("tok"),
        vec!["secret", "list", "--output", "env", "--access-token", "tok"]
    );
}
