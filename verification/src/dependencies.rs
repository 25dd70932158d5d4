//! Validation of the dependencies between services, made before anything is started.
use crate::config::{Config, Service};
use crate::ports::has_name;
use vstd::prelude::*;
use vstd::string::StringExecFns;

verus! {

/// What can be wrong with a dependency.
#[derive(Debug, PartialEq, Clone)]
pub enum DependencyError {
    /// The service depends on a name that no service has.
    Missing { service: String, dependency: String },
    /// The service and its dependency depend on each other.
    Circular { service: String, dependency: String },
}

/// A dependency error over plain texts.
pub enum Fault {
    Missing { service: Seq<char>, dependency: Seq<char> },
    Circular { service: Seq<char>, dependency: Seq<char> },
}

impl View for DependencyError {
    type V = Fault;

    open spec fn view(&self) -> Fault {
        match self {
            DependencyError::Missing { service, dependency } => Fault::Missing {
                service: service@,
                dependency: dependency@,
            },
            DependencyError::Circular { service, dependency } => Fault::Circular {
                service: service@,
                dependency: dependency@,
            },
        }
    }
}

impl DependencyError {
    /// The message that reports the error.
    pub fn message(&self) -> (r: String)
        ensures
            r@ == match self@ {
                Fault::Missing { service, dependency } => "Dependency "@ + dependency
                    + " not found for service "@ + service,
                Fault::Circular { service, dependency } => "Circular dependency detected: "@
                    + service + " -> "@ + dependency,
            },
    {
        match self {
            DependencyError::Missing { service, dependency } => {
                let mut out = "Dependency ".to_owned();
                out.append(dependency.as_str());
                out.append(" not found for service ");
                out.append(service.as_str());
                out
            },
            DependencyError::Circular { service, dependency } => {
                let mut out = "Circular dependency detected: ".to_owned();
                out.append(service.as_str());
                out.append(" -> ");
                out.append(dependency.as_str());
                out
            },
        }
    }
}

/// The position of the first of the first `n` services that is called `name`.
pub open spec fn service_named(services: Seq<Service>, name: Seq<char>, n: int) -> Option<int>
    decreases n,
{
    if n <= 0 {
        None
    } else {
        match service_named(services, name, n - 1) {
            Some(k) => Some(k),
            None => if services[n - 1].name@ == name {
                Some(n - 1)
            } else {
                None
            },
        }
    }
}

/// What is wrong with dependency `d` of service `i`, if anything: no service has that
/// name, or the first service of that name depends on service `i` in turn.
pub open spec fn dependency_fault(services: Seq<Service>, i: int, d: int) -> Option<Fault> {
    let service = services[i].name@;
    let dependency = services[i].depends_on@[d]@;
    match service_named(services, dependency, services.len() as int) {
        None => Some(Fault::Missing { service, dependency }),
        Some(k) => if services[k].depends_on.deep_view().contains(service) {
            Some(Fault::Circular { service, dependency })
        } else {
            None
        },
    }
}

/// The first fault among the first `n` dependencies of service `i`.
pub open spec fn first_fault_of(services: Seq<Service>, i: int, n: int) -> Option<Fault>
    decreases n,
{
    if n <= 0 {
        None
    } else {
        match first_fault_of(services, i, n - 1) {
            Some(f) => Some(f),
            None => dependency_fault(services, i, n - 1),
        }
    }
}

/// The first fault among the dependencies of the first `n` services.
pub open spec fn first_fault(services: Seq<Service>, n: int) -> Option<Fault>
    decreases n,
{
    if n <= 0 {
        None
    } else {
        match first_fault(services, n - 1) {
            Some(f) => Some(f),
            None => first_fault_of(services, n - 1, services[n - 1].depends_on@.len() as int),
        }
    }
}

/// Finds the first service with the name.
pub fn find_service(services: &Vec<Service>, name: &String) -> (r: Option<usize>)
    ensures
        match r {
            Some(k) => service_named(services@, name@, services@.len() as int) == Some(k as int)
                && k < services.len() && services@[k as int].name@ == name@,
            None => service_named(services@, name@, services@.len() as int) is None,
        },
{
    let mut i: usize = 0;
    while i < services.len()
        invariant
            i <= services.len(),
            service_named(services@, name@, i as int) is None,
        decreases services.len() - i,
    {
        if services[i].name == *name {
            proof {
                lemma_named_stays(services@, name@, i + 1, services@.len() as int);
            }
            return Some(i);
        }
        i += 1;
    }
    None
}

proof fn lemma_named_stays(services: Seq<Service>, name: Seq<char>, n: int, m: int)
    requires
        0 <= n <= m,
        service_named(services, name, n) is Some,
    ensures
        service_named(services, name, m) == service_named(services, name, n),
    decreases m - n,
{
    if n < m {
        lemma_named_stays(services, name, n, m - 1);
    }
}

fn check_dependency(services: &Vec<Service>, i: usize, d: usize) -> (r: Option<DependencyError>)
    requires
        i < services.len(),
        d < services@[i as int].depends_on@.len(),
    ensures
        match r {
            Some(e) => dependency_fault(services@, i as int, d as int) == Some(e@),
            None => dependency_fault(services@, i as int, d as int) is None,
        },
{
    let service = &services[i];
    let dependency = &service.depends_on[d];
    match find_service(services, dependency) {
        None => Some(
            DependencyError::Missing {
                service: service.name.clone(),
                dependency: dependency.clone(),
            },
        ),
        Some(k) => {
            if has_name(&services[k].depends_on, &service.name) {
                Some(
                    DependencyError::Circular {
                        service: service.name.clone(),
                        dependency: dependency.clone(),
                    },
                )
            } else {
                None
            }
        },
    }
}

/// Checks every dependency of every service, in the order of the plan: it must be the
/// name of a service, and that service must not depend on the first one in turn. The
/// first dependency that fails is reported.
pub fn check(config: &Config) -> (r: Result<(), DependencyError>)
    ensures
        match r {
            Ok(_) => first_fault(config.services@, config.services@.len() as int) is None,
            Err(e) => first_fault(config.services@, config.services@.len() as int) == Some(e@),
        },
{
    let mut i: usize = 0;
    while i < config.services.len()
        invariant
            i <= config.services.len(),
            first_fault(config.services@, i as int) is None,
        decreases config.services.len() - i,
    {
        let mut d: usize = 0;
        while d < config.services[i].depends_on.len()
            invariant
                i < config.services.len(),
                d <= config.services@[i as int].depends_on@.len(),
                first_fault(config.services@, i as int) is None,
                first_fault_of(config.services@, i as int, d as int) is None,
            decreases config.services@[i as int].depends_on@.len() - d,
        {
            match check_dependency(&config.services, i, d) {
                Some(e) => {
                    proof {
                        lemma_fault_of_stays(
                            config.services@,
                            i as int,
                            d + 1,
                            config.services@[i as int].depends_on@.len() as int,
                        );
                        lemma_fault_stays(
                            config.services@,
                            i + 1,
                            config.services@.len() as int,
                        );
                    }
                    return Err(e);
                },
                None => {},
            }
            d += 1;
        }
        i += 1;
    }
    Ok(())
}

proof fn lemma_fault_of_stays(services: Seq<Service>, i: int, n: int, m: int)
    requires
        0 <= n <= m,
        first_fault_of(services, i, n) is Some,
    ensures
        first_fault_of(services, i, m) == first_fault_of(services, i, n),
    decreases m - n,
{
    if n < m {
        lemma_fault_of_stays(services, i, n, m - 1);
    }
}

proof fn lemma_fault_stays(services: Seq<Service>, n: int, m: int)
    requires
        0 <= n <= m,
        first_fault(services, n) is Some,
    ensures
        first_fault(services, m) == first_fault(services, n),
    decreases m - n,
{
    if n < m {
        lemma_fault_stays(services, n, m - 1);
    }
}

} // verus!
