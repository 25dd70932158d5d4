//! The orchestration plan: machine, services, their sources and what they expose.
//!
//! A plan is plain data. Tables that map one string to another are kept as vectors of
//! pairs; in a well-formed plan no key stands twice in such a table, and no two services
//! have the same name.
use crate::pairs::{has_distinct_keys, keys_distinct};
use vstd::prelude::*;

verus! {

/// A tool that must be present on the machine.
#[derive(Debug, PartialEq, Clone)]
pub enum Requirement {
    BREW,
    DOCKER,
    PYTHON,
    PIPX,
    POETRY,
}

/// The registry that a container image comes from when the plan names none.
pub fn default_registry() -> (r: String)
    ensures
        r@ == "docker.io"@,
{
    "docker.io".to_owned()
}

/// A service that runs as a container.
#[derive(Debug, PartialEq, Clone)]
pub struct ContainerSource {
    pub image: String,
    pub tag: String,
    pub start_command: Option<String>,
    pub stop_command: Option<String>,
    pub registry: String,
}

/// A service that runs as a process started by shell commands.
#[derive(Debug, PartialEq, Clone)]
pub struct AppSource {
    pub install_command: String,
    pub install_check_command: String,
    pub start_command: String,
    pub health_check_command: String,
    pub stop_command: Option<String>,
    pub clean_command: Option<String>,
}

/// Where a service comes from.
#[derive(Debug, PartialEq, Clone)]
pub enum Source {
    CONTAINER(ContainerSource),
    APP(AppSource),
}

/// The settings of the feature that maintains `PYTHONPATH`.
#[derive(Debug, PartialEq, Clone)]
pub struct PythonpathFeature {
    pub env_file_path: String,
    pub pythonpath_value: String,
}

/// An optional capability of the machine.
#[derive(Debug, PartialEq, Clone)]
pub enum Feature {
    PYTHONPATH(PythonpathFeature),
    BITWARDEN,
}

/// An exposed value is available before its service starts unless the plan says otherwise.
pub fn default_available_before_start() -> (r: bool)
    ensures
        r,
{
    true
}

/// No key is excluded unless the plan says so.
pub fn default_exclude() -> (r: Vec<String>)
    ensures
        r@.len() == 0,
{
    Vec::new()
}

/// No key is renamed unless the plan says so.
pub fn default_rename() -> (r: Vec<(String, String)>)
    ensures
        r@.len() == 0,
{
    Vec::new()
}

/// Values that a service exposes as the output of a shell command, one `KEY=VALUE` a line.
#[derive(Debug, PartialEq, Clone)]
pub struct ExposedValueCommand {
    pub command: String,
    pub description: Option<String>,
    pub available_before_start: bool,
    /// Keys that are dropped from the output.
    pub exclude: Vec<String>,
    /// Keys that are exposed under another name: pairs of old and new name.
    pub rename: Vec<(String, String)>,
}

/// One value that a service exposes under a fixed name.
#[derive(Debug, PartialEq, Clone)]
pub struct ExposedValueLiteral {
    pub name: String,
    pub value: String,
    pub description: Option<String>,
    pub available_before_start: bool,
}

/// What a service contributes to the environment.
#[derive(Debug, PartialEq, Clone)]
pub enum ExposedValueType {
    COMMAND(ExposedValueCommand),
    LITERAL(ExposedValueLiteral),
}

impl ExposedValueType {
    /// Whether the value can be computed before the service has started.
    pub open spec fn before_start(self) -> bool {
        match self {
            ExposedValueType::COMMAND(c) => c.available_before_start,
            ExposedValueType::LITERAL(l) => l.available_before_start,
        }
    }

    /// Whether the value can be computed before the service has started.
    pub fn is_available_before_start(&self) -> (r: bool)
        ensures
            r == self.before_start(),
    {
        match self {
            ExposedValueType::COMMAND(c) => c.available_before_start,
            ExposedValueType::LITERAL(l) => l.available_before_start,
        }
    }
}

/// A service exposes nothing unless the plan says otherwise.
pub fn default_exposed_values() -> (r: Vec<ExposedValueType>)
    ensures
        r@.len() == 0,
{
    Vec::new()
}

/// A service depends on nothing unless the plan says otherwise.
pub fn default_depends_on() -> (r: Vec<String>)
    ensures
        r@.len() == 0,
{
    Vec::new()
}

/// One service of the plan.
#[derive(Debug, PartialEq, Clone)]
pub struct Service {
    pub name: String,
    pub exposed_values: Vec<ExposedValueType>,
    pub source: Source,
    pub start_command: Option<String>,
    pub clean_command: Option<String>,
    /// Names of the services that must have been started before this one.
    pub depends_on: Vec<String>,
}

/// How to log in to one image registry: the names of the variables that hold the secrets.
#[derive(Debug, PartialEq, Clone)]
pub struct RegistryCredentials {
    pub registry: String,
    pub username: String,
    pub password: String,
}

/// A plan asks for no network unless it says otherwise.
pub fn default_networks() -> (r: Vec<String>)
    ensures
        r@.len() == 0,
{
    Vec::new()
}

/// A plan requires no tool unless it says otherwise.
pub fn default_requirements() -> (r: Vec<Requirement>)
    ensures
        r@.len() == 0,
{
    Vec::new()
}

/// A plan has no command unless it says otherwise.
pub fn default_commands() -> (r: Vec<(String, String)>)
    ensures
        r@.len() == 0,
{
    Vec::new()
}

/// A plan has no preparatory command unless it says otherwise.
pub fn default_pre_commands() -> (r: Vec<(String, String)>)
    ensures
        r@.len() == 0,
{
    Vec::new()
}

/// A plan has no service unless it says otherwise.
pub fn default_services() -> (r: Vec<Service>)
    ensures
        r@.len() == 0,
{
    Vec::new()
}

/// A plan has no feature unless it says otherwise.
pub fn default_features() -> (r: Vec<Feature>)
    ensures
        r@.len() == 0,
{
    Vec::new()
}

/// A plan logs in to no registry unless it says otherwise.
pub fn default_registry_credentials() -> (r: Vec<RegistryCredentials>)
    ensures
        r@.len() == 0,
{
    Vec::new()
}

/// The whole plan.
#[derive(Debug, PartialEq)]
pub struct Config {
    /// The prefix of every container name of this machine.
    pub machine_name: String,
    pub machine_description: Option<String>,
    pub networks: Vec<String>,
    pub requirements: Vec<Requirement>,
    /// Commands by name.
    pub commands: Vec<(String, String)>,
    /// Commands to run before the command of the same name.
    pub pre_commands: Vec<(String, String)>,
    pub services: Vec<Service>,
    pub features: Vec<Feature>,
    pub registry_credentials: Vec<RegistryCredentials>,
}

/// No two services have the same name.
pub open spec fn service_names_distinct(services: Seq<Service>) -> bool {
    forall|i: int, j: int|
        0 <= i < j < services.len() ==> (#[trigger] services[i]).name@ != (
        #[trigger] services[j]).name@
}

/// The table of new names of every exposed command is a map.
pub open spec fn renames_distinct(values: Seq<ExposedValueType>) -> bool {
    forall|k: int|
        0 <= k < values.len() ==> ((#[trigger] values[k]) matches ExposedValueType::COMMAND(c)
            ==> keys_distinct(c.rename.deep_view()))
}

fn has_distinct_renames(values: &Vec<ExposedValueType>) -> (r: bool)
    ensures
        r == renames_distinct(values@),
{
    let mut k: usize = 0;
    while k < values.len()
        invariant
            k <= values.len(),
            forall|a: int|
                0 <= a < k ==> ((#[trigger] values@[a]) matches ExposedValueType::COMMAND(c)
                    ==> keys_distinct(c.rename.deep_view())),
        decreases values.len() - k,
    {
        match &values[k] {
            ExposedValueType::COMMAND(c) => {
                if !has_distinct_keys(&c.rename) {
                    return false;
                }
            },
            ExposedValueType::LITERAL(_) => {},
        }
        k += 1;
    }
    true
}

/// Tests whether no two services have the same name.
pub fn has_distinct_service_names(services: &Vec<Service>) -> (r: bool)
    ensures
        r == service_names_distinct(services@),
{
    let mut j: usize = 0;
    while j < services.len()
        invariant
            j <= services.len(),
            forall|a: int, b: int|
                0 <= a < b < j ==> (#[trigger] services@[a]).name@ != (
                #[trigger] services@[b]).name@,
        decreases services.len() - j,
    {
        let mut i: usize = 0;
        while i < j
            invariant
                i <= j < services.len(),
                forall|a: int| 0 <= a < i ==> (#[trigger] services@[a]).name@
                    != services@[j as int].name@,
            decreases j - i,
        {
            if services[i].name == services[j].name {
                return false;
            }
            i += 1;
        }
        j += 1;
    }
    true
}

impl Config {
    /// The plan is well formed: no two services have the same name, and the tables of
    /// commands, of preparatory commands and of new names are maps.
    pub open spec fn wf(&self) -> bool {
        &&& service_names_distinct(self.services@)
        &&& keys_distinct(self.commands.deep_view())
        &&& keys_distinct(self.pre_commands.deep_view())
        &&& forall|i: int|
            0 <= i < self.services@.len() ==> renames_distinct(
                (#[trigger] self.services@[i]).exposed_values@,
            )
    }

    /// Tests whether the plan is well formed.
    pub fn is_well_formed(&self) -> (r: bool)
        ensures
            r == self.wf(),
    {
        if !has_distinct_service_names(&self.services) || !has_distinct_keys(&self.commands)
            || !has_distinct_keys(&self.pre_commands) {
            return false;
        }
        let mut i: usize = 0;
        while i < self.services.len()
            invariant
                i <= self.services.len(),
                forall|a: int|
                    0 <= a < i ==> renames_distinct((#[trigger] self.services@[a]).exposed_values@),
            decreases self.services.len() - i,
        {
            if !has_distinct_renames(&self.services[i].exposed_values) {
                return false;
            }
            i += 1;
        }
        true
    }
}

} // verus!
