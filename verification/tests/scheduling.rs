use war_machine::config::{Config, ContainerSource, Service, Source};
use war_machine::dependencies::{check, DependencyError};
use war_machine::services::{next_wave, start_all};

fn service(name: &str, depends_on: &[&str]) -> Service {
    Service {
        name: name.to_string(),
        exposed_values: vec![],
        source: Source::CONTAINER(ContainerSource {
            image: "img".to_string(),
            tag: "latest".to_string(),
            start_command: None,
            stop_command: None,
            registry: "docker.io".to_string(),
        }),
        start_command: None,
        clean_command: None,
        depends_on: depends_on.iter().map(|d| d.to_string()).collect(),
    }
}

fn config(services: Vec<Service>) -> Config {
    Config {
        machine_name: "dev".to_string(),
        machine_description: None,
        networks: vec![],
        requirements: vec![],
        commands: vec![],
        pre_commands: vec![],
        services,
        features: vec![],
        registry_credentials: vec![],
    }
}

#[test]
fn a_dependent_starts_in_a_later_wave() {
    let plan = start_all(&config(vec![service("A", &[]), service("B", &["A"])]));
    assert_eq!(plan.waves, vec![vec![0], vec![1]]);
    assert!(plan.stalled.is_empty());
}

#[test]
fn waves_follow_the_chain_of_dependencies() {
    let cfg = config(vec![
        service("A", &[]),
        service("B", &["A"]),
        service("C", &["B"]),
        service("D", &["A", "C"]),
        service("E", &[]),
        service("F", &["A", "E"]),
    ]);
    let plan = start_all(&cfg);
    assert_eq!(plan.waves, vec![vec![0, 4], vec![1, 5], vec![2], vec![3]]);
    assert!(plan.stalled.is_empty());
}

#[test]
fn services_that_wait_for_each_other_stall() {
    let cfg = config(vec![service("X", &["Y"]), service("Y", &["X"]), service("Z", &["X"]), service("W", &[])]);
    let plan = start_all(&cfg);
    assert_eq!(plan.waves, vec![vec![3]]);
    assert_eq!(plan.stalled, vec![0, 1, 2]);
}

#[test]
fn an_unknown_dependency_does_not_block() {
    let plan = start_all(&config(vec![service("A", &["ghost"])]));
    assert_eq!(plan.waves, vec![vec![], vec![0]]);
    assert!(plan.stalled.is_empty());
    let none = start_all(&config(vec![]));
    assert_eq!(none.waves, vec![Vec::<usize>::new()]);
}

#[test]
fn the_next_wave_splits_the_pending() {
    let cfg = config(vec![service("A", &[]), service("B", &["A"]), service("C", &["B"])]);
    assert_eq!(next_wave(&cfg, &vec![1, 2]), (vec![1], vec![2]));
    assert_eq!(next_wave(&cfg, &vec![2]), (vec![2], vec![]));
    assert_eq!(next_wave(&cfg, &vec![]), (vec![], vec![]));
}

#[test]
fn dependencies_are_validated_in_order() {
    assert_eq!(check(&config(vec![service("A", &[]), service("B", &["A"])])), Ok(()));
    let missing = check(&config(vec![service("A", &[]), service("B", &["A", "nope", "gone"])]));
    assert_eq!(
        missing,
        Err(DependencyError::Missing { service: "B".to_string(), dependency: "nope".to_string() })
    );
    assert_eq!(missing.unwrap_err().message(), "Dependency nope not found for service B");
    let circular = check(&config(vec![service("A", &["B"]), service("B", &["A"])]));
    assert_eq!(
        circular,
        Err(DependencyError::Circular { service: "A".to_string(), dependency: "B".to_string() })
    );
    assert_eq!(circular.unwrap_err().message(), "Circular dependency detected: A -> B");
    assert_eq!(check(&config(vec![service("A", &["C"]), service("B", &["A"]), service("C", &["B"])])), Ok(()));
}
