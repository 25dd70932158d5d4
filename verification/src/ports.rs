//! Port placeholders: which names a plan refers to, which ports they get, and how a
//! text reads once the ports are filled in.
use crate::config::{Config, Service, Source};
use crate::machine_state::{names_distinct, MachineState};
use crate::pattern::{find_matches, regex_matches};
use crate::port_laws::{
    lemma_allocated_ports_distinct, lemma_allocated_ports_in_range,
    lemma_allocation_brings_in_line, lemma_allocation_stable, lemma_kept_names_distinct,
    lemma_search_fits,
};
use crate::port_scan::{get_ports, next_open, scan_after, PortScan};
use crate::table::{
    column_widths, frame, framed, in_key_order, keys_of, sort_cells, values_of, widest,
};
use crate::text::{
    chars_of, decimal, decimal_chars, replace, replace_chars, replaced, string_of,
};
use vstd::prelude::*;

verus! {

/// The regular expression that finds a port placeholder.
pub open spec fn port_pattern() -> Seq<char> {
    r"\$\{port\.\w+\}"@
}

/// The name inside a matched placeholder: the match without its opening and its brace.
pub open spec fn port_name_of(matched: Seq<char>) -> Seq<char> {
    replaced(replaced(matched, "${port."@, ""@), "}"@, ""@)
}

/// The names computed from the matches that a search handed back.
pub open spec fn names_of_matches(found: Option<Seq<Seq<char>>>) -> Seq<Seq<char>> {
    match found {
        Some(found) => found.map_values(|m: Seq<char>| port_name_of(m)),
        None => Seq::empty(),
    }
}

/// The port names that `text` refers to, one for each placeholder, from left to right.
pub open spec fn placeholder_names(text: Seq<char>) -> Seq<Seq<char>> {
    names_of_matches(regex_matches(port_pattern(), text))
}

/// Strips each matched placeholder down to its name. A search that could not be made
/// yields no name.
pub fn port_names_from_matches(found: Option<Vec<String>>) -> (r: Vec<String>)
    ensures
        r.deep_view() == names_of_matches(found.deep_view()),
{
    let mut names: Vec<String> = Vec::new();
    match found {
        None => {
            assert(names.deep_view() =~= Seq::empty());
        },
        Some(found) => {
            let mut i: usize = 0;
            while i < found.len()
                invariant
                    i <= found.len(),
                    names.deep_view() == found.deep_view().take(i as int).map_values(
                        |m: Seq<char>| port_name_of(m),
                    ),
                decreases found.len() - i,
            {
                let opened = replace(found[i].as_str(), "${port.", "");
                let name = replace(opened.as_str(), "}", "");
                let ghost before = names.deep_view();
                names.push(name);
                assert(names.deep_view() =~= before.push(port_name_of(found[i as int]@)));
                assert(found.deep_view().take(i + 1) =~= found.deep_view().take(i as int).push(
                    found[i as int]@,
                ));
                i += 1;
            }
            assert(found.deep_view().take(found.len() as int) =~= found.deep_view());
        },
    }
    names
}

/// The port names that `input` refers to, one for each placeholder `${port.<name>}`,
/// from left to right.
pub fn get_ports_needed_from_str(input: &str) -> (r: Vec<String>)
    ensures
        r.deep_view() == placeholder_names(input@),
{
    let found = find_matches(r"\$\{port\.\w+\}", input);
    port_names_from_matches(found)
}

/// The port names that an optional command refers to.
pub open spec fn optional_names(command: Option<String>) -> Seq<Seq<char>> {
    match command {
        Some(c) => placeholder_names(c@),
        None => Seq::empty(),
    }
}

/// The port names that the commands of one source refer to, command by command: for a
/// container its start and stop commands; for an application its install, health-check,
/// start, stop and clean commands.
pub open spec fn source_port_names(source: Source) -> Seq<Seq<char>> {
    match source {
        Source::CONTAINER(c) => optional_names(c.start_command) + optional_names(c.stop_command),
        Source::APP(a) => placeholder_names(a.install_command@) + placeholder_names(
            a.health_check_command@,
        ) + placeholder_names(a.start_command@) + optional_names(a.stop_command)
            + optional_names(a.clean_command),
    }
}

/// The port names that the services refer to, service by service, with repetitions.
pub open spec fn services_port_names(services: Seq<Service>) -> Seq<Seq<char>>
    decreases services.len(),
{
    if services.len() == 0 {
        Seq::empty()
    } else {
        services_port_names(services.drop_last()) + source_port_names(services.last().source)
    }
}

/// `names` without repetitions: each name where it first occurs.
pub open spec fn distinct_names(names: Seq<Seq<char>>) -> Seq<Seq<char>>
    decreases names.len(),
{
    if names.len() == 0 {
        Seq::empty()
    } else {
        let before = distinct_names(names.drop_last());
        if before.contains(names.last()) {
            before
        } else {
            before.push(names.last())
        }
    }
}

/// The distinct port names that the plan refers to, in the order of their first use:
/// a set of names, kept as a vector in which no name stands twice.
pub open spec fn ports_needed(config: Config) -> Seq<Seq<char>> {
    distinct_names(services_port_names(config.services@))
}

/// `distinct_names` holds every name of its argument, each once, and no other.
pub proof fn lemma_distinct_names(names: Seq<Seq<char>>)
    ensures
        distinct_names(names).no_duplicates(),
        forall|n: Seq<char>| #[trigger] distinct_names(names).contains(n) <==> names.contains(n),
    decreases names.len(),
{
    if names.len() > 0 {
        let shorter = names.drop_last();
        let before = distinct_names(shorter);
        let result = distinct_names(names);
        let x = names.last();
        lemma_distinct_names(shorter);
        assert forall|n: Seq<char>| #[trigger] result.contains(n) <==> names.contains(n) by {
            assert(before.contains(n) <==> shorter.contains(n));
            if names.contains(n) {
                let i = choose|i: int| 0 <= i < names.len() && names[i] == n;
                if i < names.len() - 1 {
                    assert(shorter[i] == n);
                    assert(shorter.contains(n));
                    let j = choose|j: int| 0 <= j < before.len() && before[j] == n;
                    assert(result[j] == n);
                } else {
                    assert(n == x);
                    if before.contains(x) {
                    } else {
                        assert(result[before.len() as int] == n);
                    }
                }
                assert(result.contains(n));
            }
            if result.contains(n) {
                let j = choose|j: int| 0 <= j < result.len() && result[j] == n;
                if j < before.len() {
                    assert(before[j] == n);
                    assert(before.contains(n));
                    assert(shorter.contains(n));
                    let i = choose|i: int| 0 <= i < shorter.len() && shorter[i] == n;
                    assert(names[i] == n);
                } else {
                    assert(names[names.len() - 1] == n);
                }
                assert(names.contains(n));
            }
        }
    }
}

/// Tests whether `name` is among `names`.
pub fn has_name(names: &Vec<String>, name: &String) -> (r: bool)
    ensures
        r == names.deep_view().contains(name@),
{
    let mut i: usize = 0;
    while i < names.len()
        invariant
            i <= names.len(),
            forall|j: int| 0 <= j < i ==> names.deep_view()[j] != name@,
        decreases names.len() - i,
    {
        if names[i] == *name {
            assert(names.deep_view()[i as int] == name@);
            return true;
        }
        i += 1;
    }
    false
}

fn add_names(all: &mut Vec<String>, text: &str)
    ensures
        final(all).deep_view() == old(all).deep_view() + placeholder_names(text@),
{
    let found = get_ports_needed_from_str(text);
    let mut i: usize = 0;
    while i < found.len()
        invariant
            i <= found.len(),
            all.deep_view() == old(all).deep_view() + found.deep_view().take(i as int),
        decreases found.len() - i,
    {
        let ghost before = all.deep_view();
        all.push(found[i].clone());
        assert(all.deep_view() =~= before.push(found[i as int]@));
        assert(found.deep_view().take(i + 1) =~= found.deep_view().take(i as int).push(
            found[i as int]@,
        ));
        i += 1;
    }
    assert(found.deep_view().take(found.len() as int) =~= found.deep_view());
}

fn add_optional_names(all: &mut Vec<String>, command: &Option<String>)
    ensures
        final(all).deep_view() == old(all).deep_view() + optional_names(*command),
{
    match command {
        Some(c) => add_names(all, c.as_str()),
        None => {},
    }
}

fn add_source_names(all: &mut Vec<String>, source: &Source)
    ensures
        final(all).deep_view() == old(all).deep_view() + source_port_names(*source),
{
    match source {
        Source::CONTAINER(c) => {
            add_optional_names(all, &c.start_command);
            add_optional_names(all, &c.stop_command);
            assert(all.deep_view() =~= old(all).deep_view() + source_port_names(*source));
        },
        Source::APP(a) => {
            add_names(all, a.install_command.as_str());
            add_names(all, a.health_check_command.as_str());
            add_names(all, a.start_command.as_str());
            add_optional_names(all, &a.stop_command);
            add_optional_names(all, &a.clean_command);
            assert(all.deep_view() =~= old(all).deep_view() + source_port_names(*source));
        },
    }
}

/// Drops every repetition of a name, keeping each where it first stands.
pub fn distinct(names: &Vec<String>) -> (r: Vec<String>)
    ensures
        r.deep_view() == distinct_names(names.deep_view()),
        r.deep_view().no_duplicates(),
{
    proof {
        lemma_distinct_names(names.deep_view());
    }
    let mut out: Vec<String> = Vec::new();
    let mut i: usize = 0;
    assert(out.deep_view() =~= distinct_names(names.deep_view().take(0)));
    while i < names.len()
        invariant
            i <= names.len(),
            out.deep_view() == distinct_names(names.deep_view().take(i as int)),
        decreases names.len() - i,
    {
        assert(names.deep_view().take(i + 1).drop_last() =~= names.deep_view().take(i as int));
        assert(names.deep_view().take(i + 1).last() == names[i as int]@);
        if !has_name(&out, &names[i]) {
            let ghost before = out.deep_view();
            out.push(names[i].clone());
            assert(out.deep_view() =~= before.push(names[i as int]@));
        }
        i += 1;
    }
    assert(names.deep_view().take(names.len() as int) =~= names.deep_view());
    out
}

/// The distinct port names that the commands of the plan refer to, in the order of
/// their first use.
pub fn get_ports_needed(config: &Config) -> (r: Vec<String>)
    ensures
        r.deep_view() == ports_needed(*config),
        r.deep_view().no_duplicates(),
{
    let mut all: Vec<String> = Vec::new();
    let mut i: usize = 0;
    assert(all.deep_view() =~= services_port_names(config.services@.take(0)));
    while i < config.services.len()
        invariant
            i <= config.services.len(),
            all.deep_view() == services_port_names(config.services@.take(i as int)),
        decreases config.services.len() - i,
    {
        assert(config.services@.take(i + 1).drop_last() =~= config.services@.take(i as int));
        add_source_names(&mut all, &config.services[i].source);
        i += 1;
    }
    assert(config.services@.take(config.services.len() as int) =~= config.services@);
    distinct(&all)
}

/// The lowest port that is ever handed out.
pub const FIRST_PORT: i32 = 49000;

/// The highest port that there is.
pub const LAST_PORT: i32 = 65535;

/// The ports are within the range of ports that are handed out, and strictly ascending.
pub open spec fn ports_ascending(fresh: Seq<i32>) -> bool {
    &&& forall|i: int| 0 <= i < fresh.len() ==> FIRST_PORT <= #[trigger] fresh[i] <= LAST_PORT
    &&& forall|i: int, j: int|
        0 <= i < j < fresh.len() ==> #[trigger] fresh[i] < #[trigger] fresh[j]
}

/// No two entries of the table share a port.
pub open spec fn ports_distinct(ports: Seq<(Seq<char>, i32)>) -> bool {
    forall|i: int, j: int|
        0 <= i < j < ports.len() ==> (#[trigger] ports[i]).1 != (#[trigger] ports[j]).1
}

/// Every port of the table is within the range of ports that are handed out.
pub open spec fn ports_in_range(ports: Seq<(Seq<char>, i32)>) -> bool {
    forall|i: int| 0 <= i < ports.len() ==> FIRST_PORT <= (#[trigger] ports[i]).1 <= LAST_PORT
}

/// The table is in line with the plan: every needed name has exactly one entry, and
/// there is no other entry.
pub open spec fn in_line(ports: Seq<(Seq<char>, i32)>, needed: Seq<Seq<char>>) -> bool {
    &&& names_distinct(ports)
    &&& forall|n: Seq<char>| needed.contains(n) <==> has_port(ports, n)
}

/// Whether an entry that stays in the table holds the port: an entry with a needed name.
pub open spec fn stays(ports: Seq<(Seq<char>, i32)>, needed: Seq<Seq<char>>, port: i32) -> bool {
    exists|i: int|
        0 <= i < ports.len() && needed.contains((#[trigger] ports[i]).0) && ports[i].1 == port
}

/// The ports of the entries that stay in the table, in their order.
pub open spec fn staying_ports(ports: Seq<(Seq<char>, i32)>, needed: Seq<Seq<char>>) -> Seq<i32>
    decreases ports.len(),
{
    if ports.len() == 0 {
        Seq::empty()
    } else {
        let before = staying_ports(ports.drop_last(), needed);
        if needed.contains(ports.last().0) {
            before.push(ports.last().1)
        } else {
            before
        }
    }
}

/// The offered ports fit the allocation: they are ascending within the range of ports,
/// none of them is held by an entry that stays, and there is one for each needed name
/// that has no port.
pub open spec fn offer_fits(
    ports: Seq<(Seq<char>, i32)>,
    needed: Seq<Seq<char>>,
    fresh: Seq<i32>,
) -> bool {
    &&& ports_ascending(fresh)
    &&& forall|j: int| 0 <= j < fresh.len() ==> !stays(ports, needed, #[trigger] fresh[j])
    &&& missing_names(needed, ports).len() <= fresh.len()
}

/// Whether `name` has a port in `ports`.
pub open spec fn has_port(ports: Seq<(Seq<char>, i32)>, name: Seq<char>) -> bool {
    exists|i: int| 0 <= i < ports.len() && #[trigger] ports[i].0 == name
}

/// The entries of `ports` whose name is needed, in their order.
pub open spec fn kept_ports(ports: Seq<(Seq<char>, i32)>, needed: Seq<Seq<char>>) -> Seq<
    (Seq<char>, i32),
>
    decreases ports.len(),
{
    if ports.len() == 0 {
        Seq::empty()
    } else {
        let before = kept_ports(ports.drop_last(), needed);
        if needed.contains(ports.last().0) {
            before.push(ports.last())
        } else {
            before
        }
    }
}

/// The needed names that have no port in `ports`, in their order.
pub open spec fn missing_names(needed: Seq<Seq<char>>, ports: Seq<(Seq<char>, i32)>) -> Seq<
    Seq<char>,
>
    decreases needed.len(),
{
    if needed.len() == 0 {
        Seq::empty()
    } else {
        let before = missing_names(needed.drop_last(), ports);
        if has_port(ports, needed.last()) {
            before
        } else {
            before.push(needed.last())
        }
    }
}

/// Each name with the port at the same place, as far as both reach.
pub open spec fn paired(names: Seq<Seq<char>>, fresh: Seq<i32>) -> Seq<(Seq<char>, i32)> {
    Seq::new(
        if names.len() <= fresh.len() {
            names.len()
        } else {
            fresh.len()
        },
        |i: int| (names[i], fresh[i]),
    )
}

/// The port table after an allocation: the entries whose name is still needed, then
/// each needed name that had no port with the next of the `fresh` ports.
pub open spec fn allocated(
    ports: Seq<(Seq<char>, i32)>,
    needed: Seq<Seq<char>>,
    fresh: Seq<i32>,
) -> Seq<(Seq<char>, i32)> {
    kept_ports(ports, needed) + paired(missing_names(needed, ports), fresh)
}

/// Tests whether `name` has a port in the table.
pub fn has_port_entry(ports: &Vec<(String, i32)>, name: &String) -> (r: bool)
    ensures
        r == has_port(ports.deep_view(), name@),
{
    let mut i: usize = 0;
    while i < ports.len()
        invariant
            i <= ports.len(),
            forall|j: int| 0 <= j < i ==> ports.deep_view()[j].0 != name@,
        decreases ports.len() - i,
    {
        if ports[i].0 == *name {
            assert(ports.deep_view()[i as int].0 == name@);
            return true;
        }
        i += 1;
    }
    false
}

/// Drops from the state every port whose name is not needed. A well-formed state stays
/// well formed.
pub fn prune_ports(machine_state: &mut MachineState, needed: &Vec<String>)
    requires
        old(machine_state).wf(),
    ensures
        final(machine_state).ports.deep_view() == kept_ports(
            old(machine_state).ports.deep_view(),
            needed.deep_view(),
        ),
        final(machine_state).containers == old(machine_state).containers,
        final(machine_state).wf(),
{
    proof {
        lemma_kept_names_distinct(old(machine_state).ports.deep_view(), needed.deep_view());
    }
    let mut kept: Vec<(String, i32)> = Vec::new();
    let mut i: usize = 0;
    assert(kept.deep_view() =~= kept_ports(
        machine_state.ports.deep_view().take(0),
        needed.deep_view(),
    ));
    while i < machine_state.ports.len()
        invariant
            i <= machine_state.ports.len(),
            *machine_state == *old(machine_state),
            kept.deep_view() == kept_ports(
                machine_state.ports.deep_view().take(i as int),
                needed.deep_view(),
            ),
        decreases machine_state.ports.len() - i,
    {
        let ghost all = machine_state.ports.deep_view();
        assert(all.take(i + 1).drop_last() =~= all.take(i as int));
        assert(all.take(i + 1).last() == all[i as int]);
        if has_name(needed, &machine_state.ports[i].0) {
            let ghost before = kept.deep_view();
            let name = machine_state.ports[i].0.clone();
            let port: i32 = machine_state.ports[i].1;
            kept.push((name, port));
            assert(kept.deep_view() =~= before.push(all[i as int]));
        }
        i += 1;
    }
    assert(machine_state.ports.deep_view().take(machine_state.ports.len() as int)
        =~= machine_state.ports.deep_view());
    machine_state.ports = kept;
}

/// The needed names that have no port in the state.
pub fn missing_ports(machine_state: &MachineState, needed: &Vec<String>) -> (r: Vec<String>)
    ensures
        r.deep_view() == missing_names(needed.deep_view(), machine_state.ports.deep_view()),
{
    let mut missing: Vec<String> = Vec::new();
    let mut i: usize = 0;
    assert(missing.deep_view() =~= missing_names(
        needed.deep_view().take(0),
        machine_state.ports.deep_view(),
    ));
    while i < needed.len()
        invariant
            i <= needed.len(),
            missing.deep_view() == missing_names(
                needed.deep_view().take(i as int),
                machine_state.ports.deep_view(),
            ),
        decreases needed.len() - i,
    {
        let ghost all = needed.deep_view();
        assert(all.take(i + 1).drop_last() =~= all.take(i as int));
        assert(all.take(i + 1).last() == all[i as int]);
        if !has_port_entry(&machine_state.ports, &needed[i]) {
            let ghost before = missing.deep_view();
            missing.push(needed[i].clone());
            assert(missing.deep_view() =~= before.push(all[i as int]));
        }
        i += 1;
    }
    assert(needed.deep_view().take(needed.len() as int) =~= needed.deep_view());
    missing
}

/// Gives each name the port at the same place, as far as both reach, and appends the
/// pairs to the state.
fn assign_ports(machine_state: &mut MachineState, names: &Vec<String>, fresh: &Vec<i32>)
    ensures
        final(machine_state).ports.deep_view() == old(machine_state).ports.deep_view() + paired(
            names.deep_view(),
            fresh@,
        ),
        final(machine_state).containers == old(machine_state).containers,
{
    let count: usize = if names.len() <= fresh.len() {
        names.len()
    } else {
        fresh.len()
    };
    let mut i: usize = 0;
    assert(machine_state.ports.deep_view() =~= old(machine_state).ports.deep_view() + paired(
        names.deep_view(),
        fresh@,
    ).take(0));
    while i < count
        invariant
            i <= count,
            count <= names.len(),
            count <= fresh.len(),
            count == paired(names.deep_view(), fresh@).len(),
            machine_state.containers == old(machine_state).containers,
            machine_state.ports.deep_view() == old(machine_state).ports.deep_view() + paired(
                names.deep_view(),
                fresh@,
            ).take(i as int),
        decreases count - i,
    {
        let ghost before = machine_state.ports.deep_view();
        let ghost pairs = paired(names.deep_view(), fresh@);
        let port: i32 = fresh[i];
        machine_state.ports.push((names[i].clone(), port));
        assert(machine_state.ports.deep_view() =~= before.push(pairs[i as int]));
        assert(pairs.take(i + 1) =~= pairs.take(i as int).push(pairs[i as int]));
        assert(before.push(pairs[i as int]) =~= old(machine_state).ports.deep_view() + pairs.take(
            i + 1,
        ));
        i += 1;
    }
    assert(paired(names.deep_view(), fresh@).take(count as int) =~= paired(
        names.deep_view(),
        fresh@,
    ));
}

/// What an allocation leaves behind: the entries whose name is still needed, then each
/// name without a port with the next of the offered ports; the containers as they were.
/// The state is well formed and in line with the plan; ports that were distinct or
/// within the range stay so; and a further allocation for the same plan changes nothing,
/// whatever ports it is offered.
pub open spec fn allocation_done(
    before: MachineState,
    config: Config,
    fresh: Seq<i32>,
    after: MachineState,
) -> bool {
    &&& after.ports.deep_view() == allocated(before.ports.deep_view(), ports_needed(config), fresh)
    &&& after.containers == before.containers
    &&& after.wf()
    &&& in_line(after.ports.deep_view(), ports_needed(config))
    &&& ports_distinct(before.ports.deep_view()) ==> ports_distinct(after.ports.deep_view())
    &&& ports_in_range(before.ports.deep_view()) ==> ports_in_range(after.ports.deep_view())
    &&& forall|again: Seq<i32>| #[trigger]
        allocated(after.ports.deep_view(), ports_needed(config), again)
            == after.ports.deep_view()
}

/// Brings the port table of the state in line with the plan: ports whose name the plan
/// no longer refers to are dropped, and each name that has no port yet takes the next of
/// `free_ports`, in the order in which the plan first uses the names. The offered ports
/// must fit: ascending, none held by an entry that stays, one for each name without a
/// port.
pub fn produce_port_map(machine_state: &mut MachineState, config: &Config, free_ports: &Vec<i32>)
    requires
        old(machine_state).wf(),
        offer_fits(old(machine_state).ports.deep_view(), ports_needed(*config), free_ports@),
    ensures
        allocation_done(*old(machine_state), *config, free_ports@, *final(machine_state)),
{
    let ghost before = machine_state.ports.deep_view();
    let ghost wanted = ports_needed(*config);
    let needed = get_ports_needed(config);
    let missing = missing_ports(machine_state, &needed);
    prune_ports(machine_state, &needed);
    assign_ports(machine_state, &missing, free_ports);
    proof {
        lemma_allocation_brings_in_line(before, wanted, free_ports@);
        if ports_distinct(before) {
            lemma_allocated_ports_distinct(before, wanted, free_ports@);
        }
        if ports_in_range(before) {
            lemma_allocated_ports_in_range(before, wanted, free_ports@);
        }
        let after = machine_state.ports.deep_view();
        assert forall|again: Seq<i32>| #[trigger] allocated(after, wanted, again) == after by {
            lemma_allocation_stable(before, wanted, free_ports@, again);
        }
    }
}

/// Tests whether the ports are ascending within the range of ports.
pub fn are_ascending(ports: &Vec<i32>) -> (r: bool)
    ensures
        r == ports_ascending(ports@),
{
    let mut i: usize = 0;
    while i < ports.len()
        invariant
            i <= ports.len(),
            ports_ascending(ports@.take(i as int)),
        decreases ports.len() - i,
    {
        let port: i32 = ports[i];
        if port < 49000 || port > 65535 || (i > 0 && ports[i - 1] >= port) {
            assert(ports@[i as int] == port);
            return false;
        }
        assert forall|a: int, b: int| 0 <= a < b < i + 1 implies #[trigger] ports@.take(
            i + 1,
        )[a] < #[trigger] ports@.take(i + 1)[b] by {
            if b < i {
                assert(ports@.take(i as int)[a] < ports@.take(i as int)[b]);
            } else if a < i - 1 {
                assert(ports@.take(i as int)[a] < ports@.take(i as int)[i - 1]);
            }
        }
        assert forall|a: int| 0 <= a < i + 1 implies FIRST_PORT <= #[trigger] ports@.take(
            i + 1,
        )[a] <= LAST_PORT by {
            if a < i {
                assert(ports@.take(i as int)[a] == ports@[a]);
            }
        }
        i += 1;
    }
    assert(ports@.take(ports.len() as int) =~= ports@);
    true
}

/// Tests whether an entry that stays in the table holds the port.
pub fn port_stays(ports: &Vec<(String, i32)>, needed: &Vec<String>, port: i32) -> (r: bool)
    ensures
        r == stays(ports.deep_view(), needed.deep_view(), port),
{
    let mut i: usize = 0;
    while i < ports.len()
        invariant
            i <= ports.len(),
            forall|k: int|
                0 <= k < i ==> !(needed.deep_view().contains((#[trigger] ports.deep_view()[k]).0)
                    && ports.deep_view()[k].1 == port),
        decreases ports.len() - i,
    {
        let held: i32 = ports[i].1;
        if held == port && has_name(needed, &ports[i].0) {
            assert(needed.deep_view().contains(ports.deep_view()[i as int].0));
            return true;
        }
        i += 1;
    }
    false
}

/// Tests whether the offered ports fit the allocation.
pub fn offer_is_fit(
    machine_state: &MachineState,
    needed: &Vec<String>,
    free_ports: &Vec<i32>,
) -> (r: bool)
    ensures
        r == offer_fits(machine_state.ports.deep_view(), needed.deep_view(), free_ports@),
{
    if !are_ascending(free_ports) {
        return false;
    }
    let missing = missing_ports(machine_state, needed);
    if missing.len() > free_ports.len() {
        return false;
    }
    let mut j: usize = 0;
    while j < free_ports.len()
        invariant
            j <= free_ports.len(),
            forall|k: int|
                0 <= k < j ==> !stays(
                    machine_state.ports.deep_view(),
                    needed.deep_view(),
                    #[trigger] free_ports@[k],
                ),
        decreases free_ports.len() - j,
    {
        if port_stays(&machine_state.ports, needed, free_ports[j]) {
            return false;
        }
        j += 1;
    }
    true
}

/// Allocates with the offered ports where the state is well formed and the ports fit,
/// and says so; else the state stays as it is.
pub fn try_produce_port_map(
    machine_state: &mut MachineState,
    config: &Config,
    free_ports: &Vec<i32>,
) -> (done: bool)
    ensures
        done == (old(machine_state).wf() && offer_fits(
            old(machine_state).ports.deep_view(),
            ports_needed(*config),
            free_ports@,
        )),
        done ==> allocation_done(*old(machine_state), *config, free_ports@, *final(machine_state)),
        !done ==> *final(machine_state) == *old(machine_state),
{
    if !machine_state.is_well_formed() {
        return false;
    }
    let needed = get_ports_needed(config);
    if !offer_is_fit(machine_state, &needed, free_ports) {
        return false;
    }
    produce_port_map(machine_state, config, free_ports);
    true
}

/// The names that the plan refers to and that have no port in the state.
pub fn ports_to_find(machine_state: &MachineState, config: &Config) -> (r: Vec<String>)
    ensures
        r.deep_view() == missing_names(ports_needed(*config), machine_state.ports.deep_view()),
{
    let needed = get_ports_needed(config);
    missing_ports(machine_state, &needed)
}

/// The ports of the entries that stay in the table: no search may claim them.
pub fn ports_that_stay(machine_state: &MachineState, needed: &Vec<String>) -> (r: Vec<i32>)
    ensures
        r@ == staying_ports(machine_state.ports.deep_view(), needed.deep_view()),
{
    let mut staying: Vec<i32> = Vec::new();
    let mut i: usize = 0;
    while i < machine_state.ports.len()
        invariant
            i <= machine_state.ports.len(),
            staying@ == staying_ports(
                machine_state.ports.deep_view().take(i as int),
                needed.deep_view(),
            ),
        decreases machine_state.ports.len() - i,
    {
        let ghost all = machine_state.ports.deep_view();
        assert(all.take(i + 1).drop_last() =~= all.take(i as int));
        assert(all.take(i + 1).last() == all[i as int]);
        if has_name(needed, &machine_state.ports[i].0) {
            let port: i32 = machine_state.ports[i].1;
            staying.push(port);
        }
        i += 1;
    }
    assert(machine_state.ports.deep_view().take(machine_state.ports.len() as int)
        =~= machine_state.ports.deep_view());
    staying
}

/// Starts the search for the ports that an allocation needs: one for each name of the
/// plan that has no port, none of them a port of an entry that stays.
pub fn begin_scan(machine_state: &MachineState, config: &Config) -> (scan: PortScan)
    ensures
        scan.wanted() == missing_names(
            ports_needed(*config),
            machine_state.ports.deep_view(),
        ).len(),
        scan.reserved() == staying_ports(machine_state.ports.deep_view(), ports_needed(*config)),
        scan.candidate() == next_open(scan.reserved(), FIRST_PORT as int),
        scan.claimed() == Seq::<i32>::empty(),
{
    let needed = get_ports_needed(config);
    let missing = missing_ports(machine_state, &needed);
    let staying = ports_that_stay(machine_state, &needed);
    PortScan::new(missing.len(), staying)
}

/// The ports that the search of an allocation claims for given outcomes of its probes.
pub open spec fn found_ports(before: MachineState, config: Config, in_use: Seq<bool>) -> Seq<i32> {
    scan_after(
        missing_names(ports_needed(config), before.ports.deep_view()).len(),
        staying_ports(before.ports.deep_view(), ports_needed(config)),
        in_use,
    ).1
}

/// The whole allocation for given outcomes of the probes: the search for the missing
/// ports passes over the ports that stay and takes the outcome `in_use[k]` for its
/// `k`-th candidate, and the ports it claims are allocated. Nothing happens where the
/// state is not well formed or the outcomes do not yield a port for every name.
pub fn allocate_ports(
    machine_state: &mut MachineState,
    config: &Config,
    in_use: &Vec<bool>,
) -> (done: bool)
    ensures
        done == (old(machine_state).wf() && found_ports(
            *old(machine_state),
            *config,
            in_use@,
        ).len() == missing_names(
            ports_needed(*config),
            old(machine_state).ports.deep_view(),
        ).len()),
        done ==> allocation_done(
            *old(machine_state),
            *config,
            found_ports(*old(machine_state), *config, in_use@),
            *final(machine_state),
        ),
        !done ==> *final(machine_state) == *old(machine_state),
{
    if !machine_state.is_well_formed() {
        return false;
    }
    let needed = get_ports_needed(config);
    let missing = missing_ports(machine_state, &needed);
    let staying = ports_that_stay(machine_state, &needed);
    let free_ports = get_ports(missing.len(), &staying, in_use);
    if free_ports.len() != missing.len() {
        return false;
    }
    proof {
        lemma_search_fits(machine_state.ports.deep_view(), needed.deep_view(), free_ports@);
    }
    produce_port_map(machine_state, config, &free_ports);
    true
}

/// The placeholder that stands for the port called `name`.
pub open spec fn port_placeholder(name: Seq<char>) -> Seq<char> {
    "${port."@ + name + "}"@
}

/// `text` after the placeholder of each entry of the table, entry by entry in the order
/// of the table, has been replaced by the entry's port in decimal.
pub open spec fn ports_filled_in(ports: Seq<(Seq<char>, i32)>, text: Seq<char>) -> Seq<char>
    decreases ports.len(),
{
    if ports.len() == 0 {
        text
    } else {
        replaced(
            ports_filled_in(ports.drop_last(), text),
            port_placeholder(ports.last().0),
            decimal(ports.last().1 as int),
        )
    }
}

/// Fills in the ports: every `${port.<name>}` whose name has a port in the state is
/// replaced by that port.
pub fn replace_ports_in_text(machine_state: &MachineState, text: &str) -> (r: String)
    ensures
        r@ == ports_filled_in(machine_state.ports.deep_view(), text@),
{
    let mut current: Vec<char> = chars_of(text);
    let mut i: usize = 0;
    while i < machine_state.ports.len()
        invariant
            i <= machine_state.ports.len(),
            current@ == ports_filled_in(machine_state.ports.deep_view().take(i as int), text@),
        decreases machine_state.ports.len() - i,
    {
        let ghost all = machine_state.ports.deep_view();
        assert(all.take(i + 1).drop_last() =~= all.take(i as int));
        assert(all.take(i + 1).last() == all[i as int]);
        let mut placeholder: Vec<char> = chars_of("${port.");
        let mut name: Vec<char> = chars_of(machine_state.ports[i].0.as_str());
        let mut closing: Vec<char> = chars_of("}");
        placeholder.append(&mut name);
        placeholder.append(&mut closing);
        let port: i32 = machine_state.ports[i].1;
        let digits = decimal_chars(port);
        current = replace_chars(&current, &placeholder, &digits);
        i += 1;
    }
    assert(machine_state.ports.deep_view().take(machine_state.ports.len() as int)
        =~= machine_state.ports.deep_view());
    string_of(&current)
}

/// The cells of the port map: each name with its port in decimal.
pub open spec fn port_cells(ports: Seq<(Seq<char>, i32)>) -> Seq<(Seq<char>, Seq<char>)> {
    Seq::new(ports.len(), |i: int| (ports[i].0, decimal(ports[i].1 as int)))
}

/// The lines of the port map: a framed table of names and ports, in the order of the
/// names, each column as wide as its longest entry is in bytes.
pub open spec fn port_map_lines(ports: Seq<(Seq<char>, i32)>) -> Seq<Seq<char>> {
    let cells = port_cells(ports);
    framed(
        ("Name"@, "Port"@),
        in_key_order(cells),
        widest(keys_of(cells)) as int,
        widest(values_of(cells)) as int,
    )
}

/// Draws the table of all names and their ports, sorted by name.
pub fn port_map_box(machine_state: &MachineState) -> (r: Vec<String>)
    ensures
        r.deep_view() == port_map_lines(machine_state.ports.deep_view()),
{
    let mut cells: Vec<(String, String)> = Vec::new();
    let mut i: usize = 0;
    let ghost all = port_cells(machine_state.ports.deep_view());
    while i < machine_state.ports.len()
        invariant
            i <= machine_state.ports.len(),
            all == port_cells(machine_state.ports.deep_view()),
            cells.deep_view() == all.take(i as int),
        decreases machine_state.ports.len() - i,
    {
        let ghost before = cells.deep_view();
        let port: i32 = machine_state.ports[i].1;
        cells.push((machine_state.ports[i].0.clone(), string_of(&decimal_chars(port))));
        assert(cells.deep_view() =~= before.push(all[i as int]));
        assert(all.take(i + 1) =~= all.take(i as int).push(all[i as int]));
        i += 1;
    }
    assert(all.take(machine_state.ports.len() as int) =~= all);
    let (first, second) = column_widths(&cells);
    let sorted = sort_cells(&cells);
    frame(("Name", "Port"), &sorted, first, second)
}

} // verus!
