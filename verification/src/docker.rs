//! Container services: the command lines, names and filters that the container runtime
//! is called with, and the reading of what it prints.
use crate::config::{Config, ContainerSource};
use crate::machine_state::MachineState;
use crate::ports::{ports_filled_in, replace_ports_in_text};
use crate::text::{contains, contains_text, lines, lines_of, replace, replaced};
use vstd::prelude::*;
use vstd::string::StringExecFns;

verus! {

/// The command line that logs in to a registry; the password is handed over on the
/// standard input.
pub fn login_command(registry: &str, username: &str, password: &str) -> (r: String)
    ensures
        r@ == "echo "@ + password@ + " | docker login "@ + registry@ + " --username "@ + username@
            + " --password-stdin"@,
{
    let mut out = "echo ".to_owned();
    out.append(password);
    out.append(" | docker login ");
    out.append(registry);
    out.append(" --username ");
    out.append(username);
    out.append(" --password-stdin");
    out
}

/// The command line that logs out of a registry.
pub fn logout_command(registry: &str) -> (r: String)
    ensures
        r@ == "docker logout "@ + registry@,
{
    let mut out = "docker logout ".to_owned();
    out.append(registry);
    out
}

/// The command line that lists the names of the networks, one a line.
pub fn list_networks_command() -> (r: String)
    ensures
        r@ == "docker network ls --format '{{.Name}}'"@,
{
    "docker network ls --format '{{.Name}}'".to_owned()
}

/// Whether the list of networks shows `name`: the name stands somewhere in it.
pub fn network_exists(listing: &str, name: &str) -> (r: bool)
    ensures
        r == contains_text(listing@, name@),
{
    contains(listing, name)
}

/// The command line that creates a network.
pub fn create_network_command(name: &str) -> (r: String)
    ensures
        r@ == "docker network create "@ + name@,
{
    let mut out = "docker network create ".to_owned();
    out.append(name);
    out
}

/// The command line that pulls an image.
pub fn pull_command(registry: &str, image: &str, tag: &str) -> (r: String)
    ensures
        r@ == "docker pull "@ + registry@ + "/"@ + image@ + ":"@ + tag@,
{
    let mut out = "docker pull ".to_owned();
    out.append(registry);
    out.append("/");
    out.append(image);
    out.append(":");
    out.append(tag);
    out
}

/// The name of the container of a service: the machine's name, a hyphen, the service's.
pub fn container_name(machine_name: &str, name: &str) -> (r: String)
    ensures
        r@ == machine_name@ + "-"@ + name@,
{
    let mut out = machine_name.to_owned();
    out.append("-");
    out.append(name);
    out
}

/// The filter that selects exactly the container of a service.
pub fn container_filter(machine_name: &str, name: &str) -> (r: String)
    ensures
        r@ == "name=^"@ + machine_name@ + "-"@ + name@ + "$"@,
{
    let mut out = "name=^".to_owned();
    out.append(machine_name);
    out.append("-");
    out.append(name);
    out.append("$");
    out
}

/// Whether the list of running containers shows the service: its name stands
/// somewhere in it.
pub fn is_running(listing: &str, name: &str) -> (r: bool)
    ensures
        r == contains_text(listing@, name@),
{
    contains(listing, name)
}

/// The arguments after `docker` that start a container in the background.
pub fn start_container_arguments(container: &str, image: &str) -> (r: Vec<String>)
    ensures
        r.deep_view() == seq!["run"@, "-d"@, "--name"@, container@, image@],
{
    let mut out: Vec<String> = Vec::new();
    out.push("run".to_owned());
    out.push("-d".to_owned());
    out.push("--name".to_owned());
    out.push(container.to_owned());
    out.push(image.to_owned());
    assert(out.deep_view() =~= seq!["run"@, "-d"@, "--name"@, container@, image@]);
    out
}

/// The arguments after `docker` with which a service without a start command of its
/// own is started: its container runs in the background under the name that the health
/// check and the clean look for, the machine's name, a hyphen and the service's.
pub fn default_start_arguments(machine_name: &str, name: &str, image: &str) -> (r: Vec<String>)
    ensures
        r.deep_view() == seq!["run"@, "-d"@, "--name"@, machine_name@ + "-"@ + name@, image@],
{
    let container = container_name(machine_name, name);
    start_container_arguments(container.as_str(), image)
}

/// The arguments after `docker` that list the identifiers of all containers that a
/// filter selects, running or not.
pub fn list_containers_arguments(filter: &str) -> (r: Vec<String>)
    ensures
        r.deep_view() == seq!["ps"@, "-a"@, "--filter"@, filter@, "-q"@],
{
    let mut out: Vec<String> = Vec::new();
    out.push("ps".to_owned());
    out.push("-a".to_owned());
    out.push("--filter".to_owned());
    out.push(filter.to_owned());
    out.push("-q".to_owned());
    assert(out.deep_view() =~= seq!["ps"@, "-a"@, "--filter"@, filter@, "-q"@]);
    out
}

/// The arguments after `docker` that ask whether the container that a filter selects
/// is running.
pub fn health_check_arguments(filter: &str) -> (r: Vec<String>)
    ensures
        r.deep_view() == seq!["ps"@, "--filter"@, filter@],
{
    let mut out: Vec<String> = Vec::new();
    out.push("ps".to_owned());
    out.push("--filter".to_owned());
    out.push(filter.to_owned());
    assert(out.deep_view() =~= seq!["ps"@, "--filter"@, filter@]);
    out
}

/// The identifiers in a list of containers: one a line.
pub fn container_ids(listing: &str) -> (r: Vec<String>)
    ensures
        r.deep_view() == lines_of(listing@),
{
    lines(listing)
}

/// The arguments after `docker` that remove one container by force.
pub fn remove_container_arguments(container: &str) -> (r: Vec<String>)
    ensures
        r.deep_view() == seq!["rm"@, "-f"@, container@, "--force"@],
{
    let mut out: Vec<String> = Vec::new();
    out.push("rm".to_owned());
    out.push("-f".to_owned());
    out.push(container.to_owned());
    out.push("--force".to_owned());
    assert(out.deep_view() =~= seq!["rm"@, "-f"@, container@, "--force"@]);
    out
}

/// A command with the placeholders of the machine, the service and its source replaced,
/// in this order, and then the ports filled in.
pub open spec fn container_command(
    ports: Seq<(Seq<char>, i32)>,
    machine_name: Seq<char>,
    command: Seq<char>,
    name: Seq<char>,
    source: ContainerSource,
) -> Seq<char> {
    let a = replaced(command, "${machine_name}"@, machine_name);
    let b = replaced(a, "${service.name}"@, name);
    let c = replaced(b, "${service.source.image}"@, source.image@);
    let d = replaced(c, "${service.source.tag}"@, source.tag@);
    let e = replaced(d, "${service.source.registry}"@, source.registry@);
    ports_filled_in(ports, e)
}

/// Replaces the placeholders in a command of a container service by their values.
pub fn replace_placeholders(
    machine_state: &MachineState,
    config: &Config,
    command: &String,
    name: &str,
    source: &ContainerSource,
) -> (r: String)
    ensures
        r@ == container_command(
            machine_state.ports.deep_view(),
            config.machine_name@,
            command@,
            name@,
            *source,
        ),
{
    let a = replace(command.as_str(), "${machine_name}", config.machine_name.as_str());
    let b = replace(a.as_str(), "${service.name}", name);
    let c = replace(b.as_str(), "${service.source.image}", source.image.as_str());
    let d = replace(c.as_str(), "${service.source.tag}", source.tag.as_str());
    let e = replace(d.as_str(), "${service.source.registry}", source.registry.as_str());
    replace_ports_in_text(machine_state, e.as_str())
}

/// The start command of a container service with its placeholders replaced, if the
/// service has one.
pub fn start_command(
    machine_state: &MachineState,
    config: &Config,
    name: &str,
    source: &ContainerSource,
) -> (r: Option<String>)
    ensures
        match source.start_command {
            Some(command) => r matches Some(resolved) && resolved@ == container_command(
                machine_state.ports.deep_view(),
                config.machine_name@,
                command@,
                name@,
                *source,
            ),
            None => r is None,
        },
{
    match &source.start_command {
        Some(command) => Some(replace_placeholders(machine_state, config, command, name, source)),
        None => None,
    }
}

} // verus!
