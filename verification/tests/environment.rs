use war_machine::env_vars::{
    displayed_rows, get, get_from_all, make_sure_exists, merge_and_emit, variables_box,
};

fn pair(a: &str, b: &str) -> (String, String) {
    (a.to_string(), b.to_string())
}

fn var(k: &str, v: &str, s: &str) -> (String, String, String) {
    (k.to_string(), v.to_string(), s.to_string())
}

#[test]
fn a_local_value_wins_and_is_shown_as_local() {
    let mut env = vec![pair("FOO", "local")];
    let rows = merge_and_emit(&mut env, &vec![var("FOO", "computed", "feature")]);
    assert_eq!(rows, vec![pair("FOO", "local")]);
    assert_eq!(env, vec![pair("FOO", "local")]);
    assert_eq!(get(&env, "FOO"), Some("local".to_string()));
}

#[test]
fn the_first_computed_value_of_a_key_is_set() {
    let mut env = vec![pair("HOME", "/root")];
    let vars = vec![
        var("B", "1", "literal-secret"),
        var("A", "2", "war-machine"),
        var("B", "3", "feature"),
        var("HOME", "/tmp", "feature"),
    ];
    war_machine::env_vars::set(&mut env, &vars);
    assert_eq!(env, vec![pair("HOME", "/root"), pair("B", "1"), pair("A", "2")]);
    let once = env.clone();
    war_machine::env_vars::set(&mut env, &vars);
    assert_eq!(env, once);
}

#[test]
fn rows_are_sorted_by_key_and_keep_the_order_of_equal_keys() {
    let env = vec![pair("HOME", "/root")];
    let vars = vec![
        var("B", "1", "literal-secret"),
        var("HOME", "/tmp", "feature"),
        var("A", "2", "war-machine"),
        var("B", "3", "feature"),
    ];
    assert_eq!(
        displayed_rows(&env, &vars),
        vec![pair("A", "war-machine"), pair("B", "literal-secret"), pair("B", "feature"), pair("HOME", "local")]
    );
}

#[test]
fn the_table_of_variables_is_framed() {
    let env = vec![pair("HOME", "/root")];
    let vars = vec![var("B", "2", "feature"), var("A", "1", "war-machine"), var("HOME", "x", "a")];
    let k = 4;
    let s = 11;
    let expected = vec![
        format!("\u{250c}\u{2500}{}\u{2500}\u{252c}\u{2500}{}\u{2500}\u{2510}", "\u{2500}".repeat(k), "\u{2500}".repeat(s)),
        format!("\u{2502} {:<k$} \u{2502} {:<s$} \u{2502}", "Key", "Source", k = k, s = s),
        format!("\u{251c}\u{2500}{}\u{2500}\u{253c}\u{2500}{}\u{2500}\u{2524}", "\u{2500}".repeat(k), "\u{2500}".repeat(s)),
        format!("\u{2502} {:<k$} \u{2502} {:<s$} \u{2502}", "A", "war-machine", k = k, s = s),
        format!("\u{2502} {:<k$} \u{2502} {:<s$} \u{2502}", "B", "feature", k = k, s = s),
        format!("\u{2502} {:<k$} \u{2502} {:<s$} \u{2502}", "HOME", "local", k = k, s = s),
        format!("\u{2514}\u{2500}{}\u{2500}\u{2534}\u{2500}{}\u{2500}\u{2518}", "\u{2500}".repeat(k), "\u{2500}".repeat(s)),
    ];
    assert_eq!(variables_box(&env, &vars), expected);
    assert_eq!(variables_box(&env, &vec![]), Vec::<String>::new());
}

#[test]
fn a_narrow_column_does_not_cut_its_cells() {
    let env = vec![pair("K", "v")];
    let lines = variables_box(&env, &vec![var("K", "1", "a")]);
    assert_eq!(lines[1], "\u{2502} Key \u{2502} Source \u{2502}");
    assert_eq!(lines[3], "\u{2502} K \u{2502} local \u{2502}");
    assert_eq!(lines[0], "\u{250c}\u{2500}\u{2500}\u{2500}\u{252c}\u{2500}\u{2500}\u{2500}\u{2510}");
}

#[test]
fn values_are_looked_up_in_the_environment_first() {
    let env = vec![pair("A", "env"), pair("A", "later")];
    let secrets = vec![pair("A", "secret"), pair("B", "secret")];
    assert_eq!(get(&env, "A"), Some("env".to_string()));
    assert_eq!(get(&env, "B"), None);
    assert_eq!(get_from_all(&env, &secrets, "A"), Some("env".to_string()));
    assert_eq!(get_from_all(&env, &secrets, "B"), Some("secret".to_string()));
    assert_eq!(get_from_all(&env, &secrets, "C"), None);
    assert!(make_sure_exists(&env, &secrets, "A"));
    assert!(make_sure_exists(&env, &secrets, "B"));
    assert!(!make_sure_exists(&env, &secrets, "C"));
}

#[test]
fn variables_with_different_keys_merge_in_any_order() {
    let first = vec![var("A", "1", "feature"), var("B", "2", "feature")];
    let second = vec![var("C", "3", "war-machine"), var("HOME", "x", "war-machine")];
    let mut one = vec![pair("HOME", "/root")];
    war_machine::env_vars::set(&mut one, &first);
    war_machine::env_vars::set(&mut one, &second);
    let mut other = vec![pair("HOME", "/root")];
    war_machine::env_vars::set(&mut other, &second);
    war_machine::env_vars::set(&mut other, &first);
    for key in ["A", "B", "C", "HOME", "NONE"] {
        assert_eq!(get(&one, key), get(&other, key));
    }
    assert_eq!(get(&one, "C"), Some("3".to_string()));
    assert_eq!(get(&one, "HOME"), Some("/root".to_string()));
}
