use war_machine::config::{
    default_available_before_start, default_commands, default_depends_on, default_exclude,
    default_exposed_values, default_features, default_networks, default_pre_commands,
    default_registry, default_registry_credentials, default_rename, default_requirements,
    default_services, has_distinct_service_names, AppSource, Config, ContainerSource, ExposedValueLiteral, ExposedValueType,
    ExposedValueCommand, RegistryCredentials, Service, Source,
};
use war_machine::custom_app;
use war_machine::docker;
use war_machine::machine_state::MachineState;
use war_machine::pairs::has_distinct_keys;
use war_machine::ports::port_map_box;
use war_machine::prepare::{
    add_variables, login_commands, logout_commands, prepare, Origin, PrepareStep,
};
use war_machine::run::{check, command_line, join_arguments, pre_command};
use war_machine::table::{frame, sort_cells, sort_order};

fn pair(a: &str, b: &str) -> (String, String) {
    (a.to_string(), b.to_string())
}

fn config() -> Config {
    Config {
        machine_name: "dev".to_string(),
        machine_description: None,
        networks: default_networks(),
        requirements: default_requirements(),
        commands: vec![pair("serve", "python app.py"), pair("serve", "shadowed")],
        pre_commands: vec![pair("serve", "make migrate")],
        services: default_services(),
        features: default_features(),
        registry_credentials: vec![
            RegistryCredentials {
                registry: "ghcr.io".to_string(),
                username: "GH_USER".to_string(),
                password: "GH_TOKEN".to_string(),
            },
            RegistryCredentials {
                registry: "docker.io".to_string(),
                username: "HUB_USER".to_string(),
                password: "HUB_TOKEN".to_string(),
            },
        ],
    }
}

fn state() -> MachineState {
    MachineState {
        containers: vec![],
        ports: vec![("web".to_string(), 49000), ("db".to_string(), 49001)],
    }
}

#[test]
fn defaults_are_empty_but_for_the_registry() {
    assert_eq!(default_registry(), "docker.io");
    assert!(default_available_before_start());
    assert!(default_exclude().is_empty());
    assert!(default_rename().is_empty());
    assert!(default_exposed_values().is_empty());
    assert!(default_depends_on().is_empty());
    assert!(default_networks().is_empty());
    assert!(default_requirements().is_empty());
    assert!(default_commands().is_empty());
    assert!(default_pre_commands().is_empty());
    assert!(default_services().is_empty());
    assert!(default_features().is_empty());
    assert!(default_registry_credentials().is_empty());
    let literal = ExposedValueType::LITERAL(ExposedValueLiteral {
        name: "n".to_string(),
        value: "v".to_string(),
        description: None,
        available_before_start: false,
    });
    assert!(!literal.is_available_before_start());
}

#[test]
fn container_commands_are_put_together() {
    assert_eq!(
        docker::login_command("ghcr.io", "me", "secret"),
        "echo secret | docker login ghcr.io --username me --password-stdin"
    );
    assert_eq!(docker::logout_command("ghcr.io"), "docker logout ghcr.io");
    assert_eq!(docker::list_networks_command(), "docker network ls --format '{{.Name}}'");
    assert_eq!(docker::create_network_command("backend"), "docker network create backend");
    assert_eq!(docker::pull_command("docker.io", "redis", "7"), "docker pull docker.io/redis:7");
    assert_eq!(docker::container_name("dev", "cache"), "dev-cache");
    assert_eq!(docker::container_filter("dev", "cache"), "name=^dev-cache$");
    assert_eq!(
        docker::start_container_arguments("dev-cache", "redis"),
        vec!["run", "-d", "--name", "dev-cache", "redis"]
    );
    assert_eq!(
        docker::default_start_arguments("dev", "cache", "redis"),
        vec!["run", "-d", "--name", "dev-cache", "redis"]
    );
    assert_eq!(
        docker::list_containers_arguments("name=^dev-cache$"),
        vec!["ps", "-a", "--filter", "name=^dev-cache$", "-q"]
    );
    assert_eq!(docker::health_check_arguments("f"), vec!["ps", "--filter", "f"]);
    assert_eq!(docker::remove_container_arguments("abc"), vec!["rm", "-f", "abc", "--force"]);
    assert_eq!(docker::container_ids("abc\ndef\n"), vec!["abc", "def"]);
    assert!(docker::is_running("CONTAINER ID  NAMES\n12ab  dev-cache\n", "cache"));
    assert!(!docker::is_running("CONTAINER ID  NAMES\n", "cache"));
    assert!(docker::network_exists("bridge\nbackend\n", "backend"));
    assert!(!docker::network_exists("bridge\n", "backend"));
}

#[test]
fn placeholders_of_a_container_are_replaced() {
    let source = ContainerSource {
        image: "redis".to_string(),
        tag: "7".to_string(),
        start_command: Some(
            "docker run --name ${machine_name}-${service.name} -p ${port.web}:6379 ${service.source.registry}/${service.source.image}:${service.source.tag}"
                .to_string(),
        ),
        stop_command: None,
        registry: "docker.io".to_string(),
    };
    assert_eq!(
        docker::start_command(&state(), &config(), "cache", &source),
        Some("docker run --name dev-cache -p 49000:6379 docker.io/redis:7".to_string())
    );
    let none = ContainerSource { start_command: None, ..source.clone() };
    assert_eq!(docker::start_command(&state(), &config(), "cache", &none), None);
    assert_eq!(
        docker::replace_placeholders(&state(), &config(), &"${service.name}:${port.db}:${port.x}".to_string(), "c", &source),
        "c:49001:${port.x}"
    );
}

#[test]
fn placeholders_of_an_application_are_replaced() {
    let source = AppSource {
        install_command: "install ${service.name}".to_string(),
        install_check_command: "which ${service.name}".to_string(),
        start_command: "${machine_name} serve --port ${port.web}".to_string(),
        health_check_command: "curl localhost:${port.web} ${service.source.image}".to_string(),
        stop_command: None,
        clean_command: Some("rm -rf /tmp/${machine_name}/${service.name}".to_string()),
    };
    let commands = custom_app::resolve_commands(&state(), &config(), "api", &source);
    assert_eq!(commands.install_command, "install api");
    assert_eq!(commands.install_check_command, "which api");
    assert_eq!(commands.start_command, "dev serve --port 49000");
    assert_eq!(commands.health_check_command, "curl localhost:49000 ${service.source.image}");
    assert_eq!(commands.clean_command, Some("rm -rf /tmp/dev/api".to_string()));
    assert_eq!(
        custom_app::replace_placeholders(&state(), &config(), &"${port.db}".to_string(), "api"),
        "49001"
    );
}

#[test]
fn the_sort_order_is_that_of_a_stable_sort() {
    let cases: Vec<Vec<&str>> = vec![
        vec![],
        vec!["a"],
        vec!["b", "a", "c", "a"],
        vec!["B", "a", "A", "b", "", "aa", "a"],
        vec!["\u{e9}", "z", "e", "\u{1f600}", "\u{ffff}", "Z"],
        vec!["z", "y", "x", "w"],
    ];
    for keys in cases {
        let owned: Vec<String> = keys.iter().map(|k| k.to_string()).collect();
        let mut expected: Vec<usize> = (0..owned.len()).collect();
        expected.sort_by_key(|i| owned[*i].clone());
        assert_eq!(sort_order(&owned), expected);
    }
    assert_eq!(
        sort_cells(&vec![pair("b", "1"), pair("a", "2"), pair("b", "0")]),
        vec![pair("a", "2"), pair("b", "1"), pair("b", "0")]
    );
}

#[test]
fn the_port_map_is_framed_and_sorted() {
    let mut s = state();
    s.ports.push(("\u{e9}t\u{e9}".to_string(), 7));
    let n = 5;
    let p = 5;
    let mut expected = vec![
        format!("\u{250c}\u{2500}{}\u{2500}\u{252c}\u{2500}{}\u{2500}\u{2510}", "\u{2500}".repeat(n), "\u{2500}".repeat(p)),
        format!("\u{2502} {:<n$} \u{2502} {:<p$} \u{2502}", "Name", "Port", n = n, p = p),
        format!("\u{251c}\u{2500}{}\u{2500}\u{253c}\u{2500}{}\u{2500}\u{2524}", "\u{2500}".repeat(n), "\u{2500}".repeat(p)),
    ];
    for (name, port) in [("db", 49001), ("web", 49000), ("\u{e9}t\u{e9}", 7)] {
        expected.push(format!("\u{2502} {:<n$} \u{2502} {:<p$} \u{2502}", name, port, n = n, p = p));
    }
    expected.push(format!("\u{2514}\u{2500}{}\u{2500}\u{2534}\u{2500}{}\u{2500}\u{2518}", "\u{2500}".repeat(n), "\u{2500}".repeat(p)));
    assert_eq!(port_map_box(&s), expected);
    let empty = MachineState::empty();
    assert_eq!(
        port_map_box(&empty),
        vec![
            "\u{250c}\u{2500}\u{2500}\u{252c}\u{2500}\u{2500}\u{2510}".to_string(),
            "\u{2502} Name \u{2502} Port \u{2502}".to_string(),
            "\u{251c}\u{2500}\u{2500}\u{253c}\u{2500}\u{2500}\u{2524}".to_string(),
            "\u{2514}\u{2500}\u{2500}\u{2534}\u{2500}\u{2500}\u{2518}".to_string(),
        ]
    );
    assert_eq!(frame(("a", "b"), &vec![], 1, 0).len(), 4);
}

#[test]
fn clean_mode_forgets_the_ports_only() {
    let mut s = MachineState {
        containers: vec![pair("id", "abc")],
        ports: vec![("web".to_string(), 49000)],
    };
    s.begin_run(false);
    assert_eq!(s.ports, vec![("web".to_string(), 49000)]);
    s.begin_run(true);
    assert!(s.ports.is_empty());
    assert_eq!(s.containers, vec![pair("id", "abc")]);
    assert_eq!(MachineState::empty(), MachineState { containers: vec![], ports: vec![] });
}

#[test]
fn the_preparation_follows_the_switches() {
    let services = vec![
        PrepareStep::AddBeforeStart,
        PrepareStep::Apply,
        PrepareStep::LogIn,
        PrepareStep::StartServices,
        PrepareStep::LogOut,
        PrepareStep::AddAfterStart,
    ];
    let end = vec![PrepareStep::Apply, PrepareStep::Show];
    let all = [vec![PrepareStep::AddSecrets, PrepareStep::AddFeatures], services.clone(), end.clone()].concat();
    assert_eq!(prepare(false, false), all);
    assert_eq!(
        prepare(true, false),
        [vec![PrepareStep::AddSecrets, PrepareStep::AddFeatures], end.clone()].concat()
    );
    assert_eq!(
        prepare(false, true),
        [vec![PrepareStep::AddSecrets], services.clone(), end.clone()].concat()
    );
    assert_eq!(prepare(true, true), [vec![PrepareStep::AddSecrets], end.clone()].concat());
}

#[test]
fn variables_carry_their_origin() {
    let mut vars = vec![("A".to_string(), "0".to_string(), "x".to_string())];
    add_variables(&mut vars, &vec![pair("S", "1")], Origin::Secret);
    add_variables(&mut vars, &vec![pair("F", "2"), pair("G", "3")], Origin::Feature);
    add_variables(&mut vars, &vec![pair("W", "4")], Origin::Service);
    let expected: Vec<(String, String, String)> = [
        ("A", "0", "x"),
        ("S", "1", "literal-secret"),
        ("F", "2", "feature"),
        ("G", "3", "feature"),
        ("W", "4", "war-machine"),
    ]
    .iter()
    .map(|(k, v, s)| (k.to_string(), v.to_string(), s.to_string()))
    .collect();
    assert_eq!(vars, expected);
}

#[test]
fn registries_are_logged_in_to_with_values_of_the_environment() {
    let cfg = config();
    let env = vec![pair("GH_USER", "me"), pair("GH_TOKEN", "t1"), pair("HUB_USER", "you"), pair("HUB_TOKEN", "t2")];
    assert_eq!(
        login_commands(&env, &cfg.registry_credentials),
        Ok(vec![
            "echo t1 | docker login ghcr.io --username me --password-stdin".to_string(),
            "echo t2 | docker login docker.io --username you --password-stdin".to_string(),
        ])
    );
    let partial = vec![pair("GH_USER", "me"), pair("GH_TOKEN", "t1"), pair("HUB_TOKEN", "t2")];
    assert_eq!(login_commands(&partial, &cfg.registry_credentials), Err("HUB_USER".to_string()));
    assert_eq!(login_commands(&vec![pair("GH_USER", "me")], &cfg.registry_credentials), Err("GH_TOKEN".to_string()));
    assert_eq!(login_commands(&vec![], &vec![]), Ok(vec![]));
    assert_eq!(
        logout_commands(&cfg.registry_credentials),
        vec!["docker logout ghcr.io".to_string(), "docker logout docker.io".to_string()]
    );
}

#[test]
fn a_command_name_stands_for_its_command_line() {
    let cfg = config();
    assert!(check(&cfg, &"serve".to_string()));
    assert!(!check(&cfg, &"deploy".to_string()));
    assert_eq!(pre_command(&cfg, "serve"), Some("make migrate".to_string()));
    assert_eq!(pre_command(&cfg, "deploy"), None);
    let args = join_arguments(&vec!["--port".to_string(), "80".to_string()]);
    assert_eq!(args, "--port 80 ");
    assert_eq!(join_arguments(&vec![]), "");
    assert_eq!(command_line(&cfg, "serve", &args), Some("python app.py --port 80 ".to_string()));
    assert_eq!(command_line(&cfg, "serve", ""), Some("python app.py ".to_string()));
    assert_eq!(command_line(&cfg, "deploy", ""), None);
}

fn named(name: &str, rename: Vec<(String, String)>) -> Service {
    Service {
        name: name.to_string(),
        exposed_values: vec![ExposedValueType::COMMAND(ExposedValueCommand {
            command: "print".to_string(),
            description: None,
            available_before_start: true,
            exclude: vec![],
            rename,
        })],
        source: Source::CONTAINER(ContainerSource {
            image: "img".to_string(),
            tag: "1".to_string(),
            start_command: None,
            stop_command: None,
            registry: "docker.io".to_string(),
        }),
        start_command: None,
        clean_command: None,
        depends_on: vec![],
    }
}

#[test]
fn a_well_formed_plan_holds_no_key_twice() {
    let mut cfg = config();
    assert!(!cfg.is_well_formed());
    cfg.commands = vec![pair("serve", "python app.py"), pair("test", "pytest")];
    assert!(cfg.is_well_formed());
    cfg.services = vec![named("a", vec![pair("x", "y"), pair("z", "y")]), named("b", vec![])];
    assert!(cfg.is_well_formed());
    assert!(has_distinct_service_names(&cfg.services));
    cfg.services.push(named("a", vec![]));
    assert!(!cfg.is_well_formed());
    assert!(!has_distinct_service_names(&cfg.services));
    cfg.services.pop();
    cfg.services.push(named("c", vec![pair("x", "y"), pair("x", "z")]));
    assert!(!cfg.is_well_formed());
    cfg.services.pop();
    cfg.pre_commands = vec![pair("serve", "a"), pair("build", "b"), pair("serve", "c")];
    assert!(!cfg.is_well_formed());
    assert!(has_distinct_keys(&vec![]));
    assert!(has_distinct_keys(&vec![pair("a", "1"), pair("b", "1")]));
    assert!(!has_distinct_keys(&vec![pair("a", "1"), pair("b", "1"), pair("a", "2")]));
}

#[test]
fn a_well_formed_state_holds_no_key_twice() {
    assert!(MachineState::empty().is_well_formed());
    let mut s = state();
    assert!(s.is_well_formed());
    s.containers = vec![pair("id", "1"), pair("id", "2")];
    assert!(!s.is_well_formed());
    s.containers = vec![pair("id", "1")];
    s.ports.push(("web".to_string(), 5));
    assert!(!s.is_well_formed());
}
