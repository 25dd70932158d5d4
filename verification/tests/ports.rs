use war_machine::config::{AppSource, Config, ContainerSource, Service, Source};
use war_machine::machine_state::MachineState;
use war_machine::port_scan::{get_ports, PortScan, Probe};
use war_machine::ports::{
    allocate_ports, are_ascending, begin_scan, distinct, get_ports_needed,
    get_ports_needed_from_str, has_name, has_port_entry, missing_ports, offer_is_fit,
    port_names_from_matches, port_stays, ports_that_stay, ports_to_find, produce_port_map,
    prune_ports, replace_ports_in_text, try_produce_port_map,
};

fn container(name: &str, start: Option<&str>, stop: Option<&str>) -> Service {
    Service {
        name: name.to_string(),
        exposed_values: vec![],
        source: Source::CONTAINER(ContainerSource {
            image: "redis".to_string(),
            tag: "7".to_string(),
            start_command: start.map(|s| s.to_string()),
            stop_command: stop.map(|s| s.to_string()),
            registry: "docker.io".to_string(),
        }),
        start_command: None,
        clean_command: None,
        depends_on: vec![],
    }
}

fn app(name: &str, install: &str, check: &str, start: &str, health: &str) -> Service {
    Service {
        name: name.to_string(),
        exposed_values: vec![],
        source: Source::APP(AppSource {
            install_command: install.to_string(),
            install_check_command: check.to_string(),
            start_command: start.to_string(),
            health_check_command: health.to_string(),
            stop_command: None,
            clean_command: Some("rm -rf data ${port.admin}".to_string()),
        }),
        start_command: None,
        clean_command: None,
        depends_on: vec![],
    }
}

fn config(services: Vec<Service>) -> Config {
    Config {
        machine_name: "dev".to_string(),
        machine_description: None,
        networks: vec![],
        requirements: vec![],
        commands: vec![],
        pre_commands: vec![],
        services,
        features: vec![],
        registry_credentials: vec![],
    }
}

#[test]
fn placeholders_are_found_from_left_to_right() {
    assert_eq!(
        get_ports_needed_from_str("run -p ${port.web}:80 -p ${port.db_1}:5432 ${port.web}"),
        vec!["web".to_string(), "db_1".to_string(), "web".to_string()]
    );
    assert_eq!(get_ports_needed_from_str("no placeholder ${port.} ${port.a-b}"), Vec::<String>::new());
}

#[test]
fn needed_names_are_distinct_and_in_first_use_order() {
    let cfg = config(vec![
        container("cache", Some("docker run -p ${port.cache}:6379"), Some("stop ${port.cache}")),
        app("api", "make ${port.api}", "test ${port.hidden}", "serve ${port.api} ${port.cache}", "curl ${port.health}"),
    ]);
    assert_eq!(
        get_ports_needed(&cfg),
        vec!["cache".to_string(), "api".to_string(), "health".to_string(), "admin".to_string()]
    );
}

#[test]
fn allocation_prunes_keeps_and_assigns() {
    let cfg = config(vec![container("cache", Some("-p ${port.cache} ${port.extra}"), None)]);
    let mut state = MachineState {
        containers: vec![("id".to_string(), "abc".to_string())],
        ports: vec![("old".to_string(), 49000), ("cache".to_string(), 49001)],
    };
    produce_port_map(&mut state, &cfg, &vec![49002, 49005]);
    assert_eq!(state.ports, vec![("cache".to_string(), 49001), ("extra".to_string(), 49002)]);
    assert_eq!(state.containers, vec![("id".to_string(), "abc".to_string())]);
    let once = state.clone();
    produce_port_map(&mut state, &cfg, &vec![49010, 49011]);
    assert_eq!(state, once);
}

#[test]
fn a_removed_name_loses_its_port() {
    let before = config(vec![container("cache", Some("-p ${port.cache} ${port.extra}"), None)]);
    let after = config(vec![container("cache", Some("-p ${port.cache}"), None)]);
    let mut state = MachineState { containers: vec![], ports: vec![] };
    produce_port_map(&mut state, &before, &vec![49000, 49001]);
    assert_eq!(state.ports.len(), 2);
    produce_port_map(&mut state, &after, &vec![]);
    assert_eq!(state.ports, vec![("cache".to_string(), 49000)]);
}

#[test]
fn ports_are_filled_in() {
    let state = MachineState {
        containers: vec![],
        ports: vec![("web".to_string(), 49000), ("db".to_string(), 49001)],
    };
    assert_eq!(
        replace_ports_in_text(&state, "a ${port.web} b ${port.db} c ${port.web} ${port.none}"),
        "a 49000 b 49001 c 49000 ${port.none}"
    );
}

#[test]
fn scan_claims_the_lowest_free_ports() {
    assert_eq!(get_ports(2, &vec![], &vec![true, false, true, false, false]), vec![49001, 49003]);
    assert_eq!(get_ports(0, &vec![], &vec![false, false]), Vec::<i32>::new());
    assert_eq!(get_ports(3, &vec![], &vec![false, true]), vec![49000]);
    assert_eq!(
        get_ports(3, &vec![49001, 49000, 49003, 7], &vec![false, true, false, false]),
        vec![49002, 49005, 49006]
    );
}

#[test]
fn scan_steps_through_the_candidates() {
    let mut scan = PortScan::new(2, vec![]);
    assert_eq!(scan.next_probe(), Some(49000));
    scan.record(true);
    assert_eq!(scan.next_probe(), Some(49001));
    scan.record(false);
    assert!(!scan.is_complete());
    assert_eq!(scan.next_probe(), Some(49002));
    scan.record(false);
    assert!(scan.is_complete());
    assert_eq!(scan.next_probe(), None);
    scan.record(false);
    assert_eq!(scan.ports(), vec![49001, 49002]);
}

#[test]
fn allocated_ports_are_distinct_and_not_below_the_first() {
    let cfg = config(vec![
        container("cache", Some("-p ${port.a} ${port.b} ${port.c}"), Some("${port.d}")),
    ]);
    let mut state = MachineState { containers: vec![], ports: vec![("b".to_string(), 49001)] };
    let mut scan = begin_scan(&state, &cfg);
    let mut probed = vec![];
    for in_use in [true, false, false, true, true, false, false] {
        if let Some(port) = scan.next_probe() {
            probed.push(port);
            scan.record(in_use);
        }
    }
    assert_eq!(probed, vec![49000, 49002, 49003, 49004, 49005, 49006]);
    let free = scan.ports();
    assert_eq!(free, vec![49002, 49003, 49006]);
    assert_eq!(free, get_ports(3, &vec![49001], &vec![true, false, false, true, true, false]));
    produce_port_map(&mut state, &cfg, &free);
    assert_eq!(
        state.ports,
        vec![
            ("b".to_string(), 49001),
            ("a".to_string(), 49002),
            ("c".to_string(), 49003),
            ("d".to_string(), 49006),
        ]
    );
    for (i, (_, port)) in state.ports.iter().enumerate() {
        assert!(*port >= 49000 && *port <= 65535);
        for (_, other) in &state.ports[i + 1..] {
            assert_ne!(port, other);
        }
    }
}

#[test]
fn a_probe_that_fails_stops_the_scan() {
    let mut scan = PortScan::new(1, vec![]);
    assert!(scan.record_probe(Probe::Connected));
    assert_eq!(scan.next_probe(), Some(49001));
    assert!(!scan.record_probe(Probe::Failed));
    assert_eq!(scan.next_probe(), Some(49001));
    assert!(scan.record_probe(Probe::Refused));
    assert_eq!(scan.next_probe(), None);
    assert_eq!(scan.ports(), vec![49001]);
}

fn names(list: &[&str]) -> Vec<String> {
    list.iter().map(|n| n.to_string()).collect()
}

#[test]
fn the_steps_of_an_allocation() {
    let needed = names(&["a", "b", "c"]);
    let mut state = MachineState {
        containers: vec![],
        ports: vec![("x".to_string(), 49000), ("b".to_string(), 49001), ("y".to_string(), 49002)],
    };
    assert!(has_name(&needed, &"b".to_string()));
    assert!(!has_name(&needed, &"x".to_string()));
    assert!(has_port_entry(&state.ports, &"y".to_string()));
    assert!(!has_port_entry(&state.ports, &"a".to_string()));
    assert_eq!(missing_ports(&state, &needed), names(&["a", "c"]));
    prune_ports(&mut state, &needed);
    assert_eq!(state.ports, vec![("b".to_string(), 49001)]);
    assert_eq!(ports_that_stay(&state, &needed), vec![49001]);
    assert!(port_stays(&state.ports, &needed, 49001));
    assert!(!port_stays(&state.ports, &needed, 49000));
    assert_eq!(distinct(&names(&["b", "a", "b", "c", "a"])), names(&["b", "a", "c"]));
    assert_eq!(
        port_names_from_matches(Some(names(&["${port.web}", "${port.}}", "plain"]))),
        names(&["web", "", "plain"])
    );
    assert_eq!(port_names_from_matches(None), Vec::<String>::new());
    let cfg = config(vec![container("cache", Some("${port.b} ${port.new}"), None)]);
    assert_eq!(ports_to_find(&state, &cfg), names(&["new"]));
    assert!(are_ascending(&vec![49000, 49001, 65535]));
    assert!(are_ascending(&vec![]));
    assert!(!are_ascending(&vec![49001, 49001]));
    assert!(!are_ascending(&vec![49001, 49000]));
    assert!(!are_ascending(&vec![48999]));
    assert!(!are_ascending(&vec![65536]));
}

#[test]
fn ports_are_filled_in_entry_by_entry() {
    let state = MachineState {
        containers: vec![],
        ports: vec![("a".to_string(), -5), ("5".to_string(), 7), ("a".to_string(), 9)],
    };
    assert_eq!(replace_ports_in_text(&state, "${port.a}"), "-5");
    assert_eq!(replace_ports_in_text(&state, "${port.${port.a}}"), "${port.-5}");
    assert_eq!(replace_ports_in_text(&state, ""), "");
}

fn serving(start: &str) -> Config {
    config(vec![Service {
        name: "srv".to_string(),
        exposed_values: vec![],
        source: Source::APP(AppSource {
            install_command: "true".to_string(),
            install_check_command: "true".to_string(),
            start_command: start.to_string(),
            health_check_command: "true".to_string(),
            stop_command: None,
            clean_command: None,
        }),
        start_command: None,
        clean_command: None,
        depends_on: vec![],
    }])
}

#[test]
fn a_port_that_stays_is_not_handed_out_again() {
    let cfg = serving("srv --p ${port.a} --q ${port.b}");
    let mut state = MachineState { containers: vec![], ports: vec![("a".to_string(), 49000)] };
    let mut scan = begin_scan(&state, &cfg);
    assert_eq!(scan.next_probe(), Some(49001));
    scan.record_probe(Probe::Refused);
    assert!(scan.is_complete());
    assert!(try_produce_port_map(&mut state, &cfg, &scan.ports()));
    assert_eq!(state.ports, vec![("a".to_string(), 49000), ("b".to_string(), 49001)]);

    let mut replayed = MachineState { containers: vec![], ports: vec![("a".to_string(), 49000)] };
    assert!(allocate_ports(&mut replayed, &cfg, &vec![false]));
    assert_eq!(replayed, state);
    assert!(allocate_ports(&mut replayed, &cfg, &vec![true, true]));
    assert_eq!(replayed, state);
}

#[test]
fn a_port_of_a_stale_entry_can_be_handed_out_again() {
    let cfg = serving("srv --p ${port.a} --q ${port.b}");
    let mut state = MachineState {
        containers: vec![],
        ports: vec![("old".to_string(), 49000), ("a".to_string(), 49001)],
    };
    assert!(allocate_ports(&mut state, &cfg, &vec![false]));
    assert_eq!(state.ports, vec![("a".to_string(), 49001), ("b".to_string(), 49000)]);
}

#[test]
fn an_offer_that_does_not_fit_changes_nothing() {
    let cfg = serving("srv --p ${port.a} --q ${port.b} --r ${port.c}");
    let start = MachineState { containers: vec![], ports: vec![("a".to_string(), 49000)] };
    let needed = get_ports_needed(&cfg);
    for offer in [vec![], vec![49001], vec![49000, 49001], vec![49002, 49001], vec![49001, 70000]] {
        let mut state = start.clone();
        assert!(!offer_is_fit(&state, &needed, &offer));
        assert!(!try_produce_port_map(&mut state, &cfg, &offer));
        assert_eq!(state, start);
    }
    let mut state = start.clone();
    assert!(offer_is_fit(&state, &needed, &vec![49001, 49005, 49006]));
    assert!(try_produce_port_map(&mut state, &cfg, &vec![49001, 49005, 49006]));
    assert_eq!(
        state.ports,
        vec![("a".to_string(), 49000), ("b".to_string(), 49001), ("c".to_string(), 49005)]
    );
    let mut short = start.clone();
    assert!(!allocate_ports(&mut short, &cfg, &vec![false]));
    assert_eq!(short, start);
    let mut twice = MachineState {
        containers: vec![],
        ports: vec![("a".to_string(), 49000), ("a".to_string(), 49001)],
    };
    assert!(!twice.is_well_formed());
    assert!(!try_produce_port_map(&mut twice, &cfg, &vec![49002, 49003]));
    assert!(!allocate_ports(&mut twice, &cfg, &vec![false, false]));
    assert_eq!(twice.ports.len(), 2);
}

#[test]
fn the_candidates_end_with_the_last_port() {
    let reserved: Vec<i32> = (49000..65535).collect();
    let mut scan = PortScan::new(2, reserved.clone());
    assert_eq!(scan.next_probe(), Some(65535));
    scan.record(false);
    assert_eq!(scan.next_probe(), None);
    assert!(!scan.is_complete());
    assert_eq!(scan.ports(), vec![65535]);
    let all: Vec<i32> = (49000..=65535).collect();
    assert_eq!(PortScan::new(1, all).next_probe(), None);
    assert_eq!(get_ports(1, &reserved, &vec![true, false, false]), Vec::<i32>::new());
}
