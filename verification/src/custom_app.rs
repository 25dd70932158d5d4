//! Application services: their commands with the placeholders replaced.
use crate::config::{AppSource, Config};
use crate::machine_state::MachineState;
use crate::ports::{ports_filled_in, replace_ports_in_text};
use crate::text::{replace, replaced};
use vstd::prelude::*;

verus! {

/// A command with the placeholders of the machine and the service replaced, in this
/// order, and then the ports filled in.
pub open spec fn app_command(
    ports: Seq<(Seq<char>, i32)>,
    machine_name: Seq<char>,
    command: Seq<char>,
    name: Seq<char>,
) -> Seq<char> {
    ports_filled_in(
        ports,
        replaced(replaced(command, "${machine_name}"@, machine_name), "${service.name}"@, name),
    )
}

/// Replaces the placeholders in a command of an application service by their values.
pub fn replace_placeholders(
    machine_state: &MachineState,
    config: &Config,
    command: &String,
    name: &str,
) -> (r: String)
    ensures
        r@ == app_command(machine_state.ports.deep_view(), config.machine_name@, command@, name@),
{
    let a = replace(command.as_str(), "${machine_name}", config.machine_name.as_str());
    let b = replace(a.as_str(), "${service.name}", name);
    replace_ports_in_text(machine_state, b.as_str())
}

/// The commands of an application service, ready to run.
pub struct AppCommands {
    pub install_command: String,
    pub install_check_command: String,
    pub start_command: String,
    pub health_check_command: String,
    pub clean_command: Option<String>,
}

/// Replaces the placeholders in every command that the start of an application uses.
pub fn resolve_commands(
    machine_state: &MachineState,
    config: &Config,
    name: &str,
    source: &AppSource,
) -> (r: AppCommands)
    ensures
        r.install_command@ == app_command(
            machine_state.ports.deep_view(),
            config.machine_name@,
            source.install_command@,
            name@,
        ),
        r.install_check_command@ == app_command(
            machine_state.ports.deep_view(),
            config.machine_name@,
            source.install_check_command@,
            name@,
        ),
        r.start_command@ == app_command(
            machine_state.ports.deep_view(),
            config.machine_name@,
            source.start_command@,
            name@,
        ),
        r.health_check_command@ == app_command(
            machine_state.ports.deep_view(),
            config.machine_name@,
            source.health_check_command@,
            name@,
        ),
        match source.clean_command {
            Some(command) => r.clean_command matches Some(resolved) && resolved@ == app_command(
                machine_state.ports.deep_view(),
                config.machine_name@,
                command@,
                name@,
            ),
            None => r.clean_command is None,
        },
{
    let clean_command = match &source.clean_command {
        Some(command) => Some(replace_placeholders(machine_state, config, command, name)),
        None => None,
    };
    AppCommands {
        install_command: replace_placeholders(machine_state, config, &source.install_command, name),
        install_check_command: replace_placeholders(
            machine_state,
            config,
            &source.install_check_command,
            name,
        ),
        start_command: replace_placeholders(machine_state, config, &source.start_command, name),
        health_check_command: replace_placeholders(
            machine_state,
            config,
            &source.health_check_command,
            name,
        ),
        clean_command,
    }
}

} // verus!
