use war_machine::config::{ExposedValueCommand, ExposedValueLiteral, ExposedValueType};
use war_machine::exposed::{exposed_commands, get_exposed_variables, parse_command_output};
use war_machine::machine_state::MachineState;

fn pair(a: &str, b: &str) -> (String, String) {
    (a.to_string(), b.to_string())
}

#[test]
fn command_output_is_parsed_leniently() {
    let parsed = parse_command_output(
        "A=\"1\"\n# comment\nB=2\nBADLINE\n",
        &vec!["B".to_string()],
        &vec![],
    );
    assert_eq!(parsed, vec![pair("A", "1")]);
}

#[test]
fn keys_are_renamed_trimmed_and_uppercased() {
    let parsed = parse_command_output(
        "db_url = postgres://x \nother=1",
        &vec![],
        &vec![pair("db_url", " database_url "), pair("db_url", "ignored")],
    );
    assert_eq!(parsed, vec![pair("DATABASE_URL", "postgres://x"), pair("OTHER", "1")]);
}

#[test]
fn quotes_are_stripped_once_and_only_as_a_pair() {
    let parsed = parse_command_output(
        "A=\" v \"\nB=\"\nC=\"\"\nD=\"\"x\"\"\nE= \"y\"\nF=a=b\n=z",
        &vec![],
        &vec![],
    );
    assert_eq!(
        parsed,
        vec![
            pair("A", "v"),
            pair("B", "\""),
            pair("C", ""),
            pair("D", "\"x\""),
            pair("E", "\"y\""),
            pair("F", "a=b"),
            pair("", "z"),
        ]
    );
}

#[test]
fn excluded_keys_are_matched_after_trimming() {
    let parsed = parse_command_output(
        " SECRET =1\nsecret=2\n\n#X=3\n #Y=4",
        &vec!["SECRET".to_string()],
        &vec![],
    );
    assert_eq!(parsed, vec![pair("SECRET", "2"), pair("#Y", "4")]);
}

fn values() -> Vec<ExposedValueType> {
    vec![
        ExposedValueType::LITERAL(ExposedValueLiteral {
            name: " api_url ".to_string(),
            value: "http://localhost:${port.web}".to_string(),
            description: None,
            available_before_start: true,
        }),
        ExposedValueType::COMMAND(ExposedValueCommand {
            command: "print-keys".to_string(),
            description: None,
            available_before_start: false,
            exclude: vec!["HIDDEN".to_string()],
            rename: vec![pair("anon", "public_key")],
        }),
        ExposedValueType::LITERAL(ExposedValueLiteral {
            name: "late".to_string(),
            value: "${port.none}".to_string(),
            description: None,
            available_before_start: false,
        }),
        ExposedValueType::COMMAND(ExposedValueCommand {
            command: "print-early".to_string(),
            description: None,
            available_before_start: true,
            exclude: vec![],
            rename: vec![],
        }),
    ]
}

#[test]
fn exposed_values_of_each_phase() {
    let state = MachineState { containers: vec![], ports: vec![("web".to_string(), 49000)] };
    let values = values();
    assert_eq!(exposed_commands(&values, true), vec!["print-early".to_string()]);
    assert_eq!(exposed_commands(&values, false), vec!["print-keys".to_string()]);
    assert_eq!(
        get_exposed_variables(&state, &values, true, &vec!["E=1\n".to_string()]),
        Some(vec![pair("API_URL", "http://localhost:49000"), pair("E", "1")])
    );
    assert_eq!(
        get_exposed_variables(&state, &values, false, &vec!["anon=k\nHIDDEN=x\n".to_string()]),
        Some(vec![pair("PUBLIC_KEY", "k"), pair("LATE", "${port.none}")])
    );
}

#[test]
fn exposed_values_need_one_output_for_each_command() {
    let state = MachineState { containers: vec![], ports: vec![] };
    let values = values();
    assert_eq!(get_exposed_variables(&state, &values, true, &vec![]), None);
    assert_eq!(
        get_exposed_variables(&state, &values, true, &vec!["A=1".to_string(), "B=2".to_string()]),
        None
    );
    assert_eq!(get_exposed_variables(&state, &vec![], false, &vec![]), Some(vec![]));
}
