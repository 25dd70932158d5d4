//! The preparation of the environment before the user's command runs: which steps it
//! takes, where each variable comes from, and how the registries are logged in to.
use crate::config::RegistryCredentials;
use crate::docker::{login_command, logout_command};
use crate::pairs::{find_value, value_of};
use vstd::prelude::*;

verus! {

/// Where a computed variable comes from.
#[derive(Debug, Clone, Copy, PartialEq, Eq, Structural)]
pub enum Origin {
    /// A secret of the machine's own store.
    Secret,
    /// A feature, such as the secret manager.
    Feature,
    /// A value that a service exposes.
    Service,
}

/// The name under which an origin is shown.
pub open spec fn origin_name(origin: Origin) -> Seq<char> {
    match origin {
        Origin::Secret => "literal-secret"@,
        Origin::Feature => "feature"@,
        Origin::Service => "war-machine"@,
    }
}

impl Origin {
    /// The name under which the origin is shown.
    pub fn name(&self) -> (r: String)
        ensures
            r@ == origin_name(*self),
    {
        match self {
            Origin::Secret => "literal-secret".to_owned(),
            Origin::Feature => "feature".to_owned(),
            Origin::Service => "war-machine".to_owned(),
        }
    }
}

/// Each pair as a variable of the given origin.
pub open spec fn tagged_pairs(pairs: Seq<(Seq<char>, Seq<char>)>, origin: Origin) -> Seq<
    (Seq<char>, Seq<char>, Seq<char>),
> {
    Seq::new(pairs.len(), |i: int| (pairs[i].0, pairs[i].1, origin_name(origin)))
}

/// Appends each pair to the variables, marked with its origin.
pub fn add_variables(
    env_vars: &mut Vec<(String, String, String)>,
    pairs: &Vec<(String, String)>,
    origin: Origin,
)
    ensures
        final(env_vars).deep_view() == old(env_vars).deep_view() + tagged_pairs(
            pairs.deep_view(),
            origin,
        ),
{
    let ghost added = tagged_pairs(pairs.deep_view(), origin);
    let mut i: usize = 0;
    assert(env_vars.deep_view() =~= old(env_vars).deep_view() + added.take(0));
    while i < pairs.len()
        invariant
            i <= pairs.len(),
            added == tagged_pairs(pairs.deep_view(), origin),
            env_vars.deep_view() == old(env_vars).deep_view() + added.take(i as int),
        decreases pairs.len() - i,
    {
        let ghost before = env_vars.deep_view();
        env_vars.push((pairs[i].0.clone(), pairs[i].1.clone(), origin.name()));
        assert(env_vars.deep_view() =~= before.push(added[i as int]));
        assert(added.take(i + 1) =~= added.take(i as int).push(added[i as int]));
        assert(before.push(added[i as int]) =~= old(env_vars).deep_view() + added.take(i + 1));
        i += 1;
    }
    assert(added.take(pairs.len() as int) =~= added);
}

/// One step of the preparation.
#[derive(Debug, Clone, Copy, PartialEq, Eq, Structural)]
pub enum PrepareStep {
    /// Add the machine's secrets to the variables.
    AddSecrets,
    /// Run the features and add what they give.
    AddFeatures,
    /// Add the values that services expose before they start.
    AddBeforeStart,
    /// Merge the variables into the environment.
    Apply,
    /// Log in to the registries.
    LogIn,
    /// Start the services, wave by wave.
    StartServices,
    /// Log out of the registries.
    LogOut,
    /// Add the values that services expose once they have started.
    AddAfterStart,
    /// Show the table of variables.
    Show,
}

/// The steps of the preparation, in order: the secrets come first, then the features
/// unless they are switched off, then, unless the services are switched off, all that
/// concerns them, and at the end the variables are merged and shown.
pub open spec fn prepare_steps(no_services: bool, no_features: bool) -> Seq<PrepareStep> {
    seq![PrepareStep::AddSecrets] + (if no_features {
        Seq::empty()
    } else {
        seq![PrepareStep::AddFeatures]
    }) + (if no_services {
        Seq::empty()
    } else {
        seq![
            PrepareStep::AddBeforeStart,
            PrepareStep::Apply,
            PrepareStep::LogIn,
            PrepareStep::StartServices,
            PrepareStep::LogOut,
            PrepareStep::AddAfterStart,
        ]
    }) + seq![PrepareStep::Apply, PrepareStep::Show]
}

/// Plans the preparation.
pub fn prepare(no_services: bool, no_features: bool) -> (r: Vec<PrepareStep>)
    ensures
        r@ == prepare_steps(no_services, no_features),
{
    let mut steps: Vec<PrepareStep> = Vec::new();
    steps.push(PrepareStep::AddSecrets);
    if !no_features {
        steps.push(PrepareStep::AddFeatures);
    }
    if !no_services {
        steps.push(PrepareStep::AddBeforeStart);
        steps.push(PrepareStep::Apply);
        steps.push(PrepareStep::LogIn);
        steps.push(PrepareStep::StartServices);
        steps.push(PrepareStep::LogOut);
        steps.push(PrepareStep::AddAfterStart);
    }
    steps.push(PrepareStep::Apply);
    steps.push(PrepareStep::Show);
    assert(steps@ =~= prepare_steps(no_services, no_features));
    steps
}

/// The command line that logs in to one registry, or the name of the variable that
/// has no value: the user name is looked up first, then the password.
pub open spec fn login_for(
    env: Seq<(Seq<char>, Seq<char>)>,
    registry: RegistryCredentials,
) -> Result<Seq<char>, Seq<char>> {
    match value_of(env, registry.username@) {
        None => Err(registry.username@),
        Some(username) => match value_of(env, registry.password@) {
            None => Err(registry.password@),
            Some(password) => Ok(
                "echo "@ + password + " | docker login "@ + registry.registry@ + " --username "@
                    + username + " --password-stdin"@,
            ),
        },
    }
}

/// The command lines that log in to the first `n` registries, or the name of the first
/// variable that has no value.
pub open spec fn logins_for(
    env: Seq<(Seq<char>, Seq<char>)>,
    registries: Seq<RegistryCredentials>,
    n: int,
) -> Result<Seq<Seq<char>>, Seq<char>>
    decreases n,
{
    if n <= 0 {
        Ok(Seq::empty())
    } else {
        match logins_for(env, registries, n - 1) {
            Err(name) => Err(name),
            Ok(before) => match login_for(env, registries[n - 1]) {
                Err(name) => Err(name),
                Ok(command) => Ok(before.push(command)),
            },
        }
    }
}

/// The command lines that log in to the registries, in their order. The user name and
/// the password of a registry are the values of the variables that the plan names; the
/// first such variable without a value is reported instead.
pub fn login_commands(
    env: &Vec<(String, String)>,
    registries: &Vec<RegistryCredentials>,
) -> (r: Result<Vec<String>, String>)
    ensures
        match r {
            Ok(commands) => logins_for(env.deep_view(), registries@, registries@.len() as int)
                == Ok::<Seq<Seq<char>>, Seq<char>>(commands.deep_view()),
            Err(name) => logins_for(env.deep_view(), registries@, registries@.len() as int)
                == Err::<Seq<Seq<char>>, Seq<char>>(name@),
        },
{
    let mut commands: Vec<String> = Vec::new();
    let mut i: usize = 0;
    assert(commands.deep_view() =~= Seq::empty());
    while i < registries.len()
        invariant
            i <= registries.len(),
            logins_for(env.deep_view(), registries@, i as int) == Ok::<
                Seq<Seq<char>>,
                Seq<char>,
            >(commands.deep_view()),
        decreases registries.len() - i,
    {
        let registry = &registries[i];
        let username = match find_value(env, registry.username.as_str()) {
            Some(v) => v,
            None => {
                proof {
                    lemma_login_failure_stays(
                        env.deep_view(),
                        registries@,
                        i + 1,
                        registries@.len() as int,
                    );
                }
                return Err(registry.username.clone());
            },
        };
        let password = match find_value(env, registry.password.as_str()) {
            Some(v) => v,
            None => {
                proof {
                    lemma_login_failure_stays(
                        env.deep_view(),
                        registries@,
                        i + 1,
                        registries@.len() as int,
                    );
                }
                return Err(registry.password.clone());
            },
        };
        let ghost before = commands.deep_view();
        let command = login_command(
            registry.registry.as_str(),
            username.as_str(),
            password.as_str(),
        );
        let ghost text = command@;
        commands.push(command);
        assert(commands.deep_view() =~= before.push(text));
        i += 1;
    }
    Ok(commands)
}

proof fn lemma_login_failure_stays(
    env: Seq<(Seq<char>, Seq<char>)>,
    registries: Seq<RegistryCredentials>,
    n: int,
    m: int,
)
    requires
        0 <= n <= m,
        logins_for(env, registries, n) is Err,
    ensures
        logins_for(env, registries, m) == logins_for(env, registries, n),
    decreases m - n,
{
    if n < m {
        lemma_login_failure_stays(env, registries, n, m - 1);
    }
}

/// The command lines that log out of the registries, in their order.
pub fn logout_commands(registries: &Vec<RegistryCredentials>) -> (r: Vec<String>)
    ensures
        r.deep_view() == Seq::new(
            registries@.len(),
            |i: int| "docker logout "@ + registries@[i].registry@,
        ),
{
    let ghost all = Seq::new(
        registries@.len(),
        |i: int| "docker logout "@ + registries@[i].registry@,
    );
    let mut commands: Vec<String> = Vec::new();
    let mut i: usize = 0;
    while i < registries.len()
        invariant
            i <= registries.len(),
            all == Seq::new(
                registries@.len(),
                |i: int| "docker logout "@ + registries@[i].registry@,
            ),
            commands.deep_view() == all.take(i as int),
        decreases registries.len() - i,
    {
        let ghost before = commands.deep_view();
        commands.push(logout_command(registries[i].registry.as_str()));
        assert(commands.deep_view() =~= before.push(all[i as int]));
        assert(all.take(i + 1) =~= all.take(i as int).push(all[i as int]));
        i += 1;
    }
    assert(all.take(registries.len() as int) =~= all);
    commands
}

} // verus!
