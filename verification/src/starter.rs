//! The decisions taken while one service is brought up.
//!
//! Bringing a service up is a run of steps. The caller carries out one step (it runs a
//! command) and reports whether the step succeeded; `container_next_step` and
//! `app_next_step` then say which step follows. A run ends with `Finish` or `Abort`.
use vstd::prelude::*;

verus! {

/// How the start of one service ended.
#[derive(Debug, Clone, Copy, PartialEq, Eq, Structural)]
pub enum Outcome {
    /// Clean mode: the instance was removed.
    Cleaned,
    /// Clean mode: removing the instance failed, and failures do not stop the run.
    CleanFailed,
    /// Clean mode: the service has nothing to clean.
    NothingToClean,
    /// The service was running already.
    Running,
    /// The service was started.
    Started,
    /// Starting failed, and failures do not stop the run.
    NotStarted,
}

/// One step in the start of a service.
#[derive(Debug, Clone, Copy, PartialEq, Eq, Structural)]
pub enum Step {
    /// Remove the instance of the service.
    Clean,
    /// Ask whether the service is running.
    CheckHealth,
    /// Ask whether the application is installed.
    CheckInstall,
    /// Install the application.
    Install,
    /// Pull the image.
    Pull,
    /// Start the service.
    Start,
    /// Nothing is left to do for this service.
    Finish(Outcome),
    /// End the whole program with status 1.
    Abort,
}

impl Step {
    /// Whether the run is over.
    pub open spec fn is_final(self) -> bool {
        self is Finish || self is Abort
    }

    /// Whether the run is over.
    pub fn is_over(&self) -> (r: bool)
        ensures
            r == self.is_final(),
    {
        match self {
            Step::Finish(_) => true,
            Step::Abort => true,
            _ => false,
        }
    }

    /// The status with which the program ends after this step, if it ends.
    pub fn exit_status(&self) -> (r: Option<i32>)
        ensures
            r == if self is Abort {
                Some(1i32)
            } else {
                None
            },
    {
        match self {
            Step::Abort => Some(1),
            _ => None,
        }
    }
}

/// The step with which a failed clean or start ends: the program ends where failures
/// are fatal, else the service is given up.
pub open spec fn after_failure(fail_fast: bool, given_up: Outcome) -> Step {
    if fail_fast {
        Step::Abort
    } else {
        Step::Finish(given_up)
    }
}

/// The first step for a container: in clean mode it is removed, else its health is asked.
pub open spec fn container_first(clean_mode: bool) -> Step {
    if clean_mode {
        Step::Clean
    } else {
        Step::CheckHealth
    }
}

/// The step that follows `step` for a container. After a clean nothing is started. A
/// healthy container is left alone; else the image is pulled, and a failed pull ends the
/// program whatever `fail_fast` says; then the container is started.
pub open spec fn container_next(fail_fast: bool, step: Step, succeeded: bool) -> Step {
    match step {
        Step::Clean => if succeeded {
            Step::Finish(Outcome::Cleaned)
        } else {
            after_failure(fail_fast, Outcome::CleanFailed)
        },
        Step::CheckHealth => if succeeded {
            Step::Finish(Outcome::Running)
        } else {
            Step::Pull
        },
        Step::Pull => if succeeded {
            Step::Start
        } else {
            Step::Abort
        },
        Step::Start => if succeeded {
            Step::Finish(Outcome::Started)
        } else {
            after_failure(fail_fast, Outcome::NotStarted)
        },
        _ => step,
    }
}

/// The first step for an application: in clean mode its clean command is run, if it has
/// one; else its health is asked.
pub open spec fn app_first(clean_mode: bool, has_clean_command: bool) -> Step {
    if clean_mode {
        if has_clean_command {
            Step::Clean
        } else {
            Step::Finish(Outcome::NothingToClean)
        }
    } else {
        Step::CheckHealth
    }
}

/// The step that follows `step` for an application. After a clean nothing is started.
/// A healthy application is left alone; else it is installed unless the check finds it
/// installed, a failed installation ends the program only where failures are fatal, and
/// then the application is started.
pub open spec fn app_next(fail_fast: bool, step: Step, succeeded: bool) -> Step {
    match step {
        Step::Clean => if succeeded {
            Step::Finish(Outcome::Cleaned)
        } else {
            after_failure(fail_fast, Outcome::CleanFailed)
        },
        Step::CheckHealth => if succeeded {
            Step::Finish(Outcome::Running)
        } else {
            Step::CheckInstall
        },
        Step::CheckInstall => if succeeded {
            Step::Start
        } else {
            Step::Install
        },
        Step::Install => if succeeded || !fail_fast {
            Step::Start
        } else {
            Step::Abort
        },
        Step::Start => if succeeded {
            Step::Finish(Outcome::Started)
        } else {
            after_failure(fail_fast, Outcome::NotStarted)
        },
        _ => step,
    }
}

fn failed(fail_fast: bool, given_up: Outcome) -> (r: Step)
    ensures
        r == after_failure(fail_fast, given_up),
{
    if fail_fast {
        Step::Abort
    } else {
        Step::Finish(given_up)
    }
}

/// The first step in the start of a container.
pub fn container_first_step(clean_mode: bool) -> (r: Step)
    ensures
        r == container_first(clean_mode),
{
    if clean_mode {
        Step::Clean
    } else {
        Step::CheckHealth
    }
}

/// The step that follows `step` in the start of a container, given whether `step`
/// succeeded.
pub fn container_next_step(fail_fast: bool, step: Step, succeeded: bool) -> (r: Step)
    ensures
        r == container_next(fail_fast, step, succeeded),
        step is Pull && !succeeded ==> r is Abort,
{
    match step {
        Step::Clean => if succeeded {
            Step::Finish(Outcome::Cleaned)
        } else {
            failed(fail_fast, Outcome::CleanFailed)
        },
        Step::CheckHealth => if succeeded {
            Step::Finish(Outcome::Running)
        } else {
            Step::Pull
        },
        Step::Pull => if succeeded {
            Step::Start
        } else {
            Step::Abort
        },
        Step::Start => if succeeded {
            Step::Finish(Outcome::Started)
        } else {
            failed(fail_fast, Outcome::NotStarted)
        },
        other => other,
    }
}

/// The first step in the start of an application.
pub fn app_first_step(clean_mode: bool, has_clean_command: bool) -> (r: Step)
    ensures
        r == app_first(clean_mode, has_clean_command),
{
    if clean_mode {
        if has_clean_command {
            Step::Clean
        } else {
            Step::Finish(Outcome::NothingToClean)
        }
    } else {
        Step::CheckHealth
    }
}

/// The step that follows `step` in the start of an application, given whether `step`
/// succeeded.
pub fn app_next_step(fail_fast: bool, step: Step, succeeded: bool) -> (r: Step)
    ensures
        r == app_next(fail_fast, step, succeeded),
{
    match step {
        Step::Clean => if succeeded {
            Step::Finish(Outcome::Cleaned)
        } else {
            failed(fail_fast, Outcome::CleanFailed)
        },
        Step::CheckHealth => if succeeded {
            Step::Finish(Outcome::Running)
        } else {
            Step::CheckInstall
        },
        Step::CheckInstall => if succeeded {
            Step::Start
        } else {
            Step::Install
        },
        Step::Install => if succeeded || !fail_fast {
            Step::Start
        } else {
            Step::Abort
        },
        Step::Start => if succeeded {
            Step::Finish(Outcome::Started)
        } else {
            failed(fail_fast, Outcome::NotStarted)
        },
        other => other,
    }
}

/// The step that a container start has reached after the outcomes of its steps so far.
pub open spec fn container_run(clean_mode: bool, fail_fast: bool, outcomes: Seq<bool>) -> Step
    decreases outcomes.len(),
{
    if outcomes.len() == 0 {
        container_first(clean_mode)
    } else {
        container_next(
            fail_fast,
            container_run(clean_mode, fail_fast, outcomes.drop_last()),
            outcomes.last(),
        )
    }
}

/// The step that an application start has reached after the outcomes of its steps so far.
pub open spec fn app_run(
    clean_mode: bool,
    has_clean_command: bool,
    fail_fast: bool,
    outcomes: Seq<bool>,
) -> Step
    decreases outcomes.len(),
{
    if outcomes.len() == 0 {
        app_first(clean_mode, has_clean_command)
    } else {
        app_next(
            fail_fast,
            app_run(clean_mode, has_clean_command, fail_fast, outcomes.drop_last()),
            outcomes.last(),
        )
    }
}

/// The steps that belong to clean mode: the clean itself and the ends of a run.
pub open spec fn clean_only(step: Step) -> bool {
    step is Clean || step is Abort || (step matches Step::Finish(o) && (o is Cleaned
        || o is CleanFailed || o is NothingToClean))
}

/// In clean mode a container is only ever cleaned: whatever the steps' outcomes and
/// whether or not failures are fatal, the run never asks for its health, never pulls
/// and never starts.
pub proof fn lemma_clean_mode_never_starts_container(fail_fast: bool, outcomes: Seq<bool>)
    ensures
        clean_only(container_run(true, fail_fast, outcomes)),
    decreases outcomes.len(),
{
    if outcomes.len() > 0 {
        lemma_clean_mode_never_starts_container(fail_fast, outcomes.drop_last());
    }
}

/// In clean mode an application is only ever cleaned, whatever the steps' outcomes.
pub proof fn lemma_clean_mode_never_starts_app(
    has_clean_command: bool,
    fail_fast: bool,
    outcomes: Seq<bool>,
)
    ensures
        clean_only(app_run(true, has_clean_command, fail_fast, outcomes)),
    decreases outcomes.len(),
{
    if outcomes.len() > 0 {
        lemma_clean_mode_never_starts_app(has_clean_command, fail_fast, outcomes.drop_last());
    }
}

/// A pull that fails ends the program with status 1, whether or not failures are fatal
/// otherwise, and the run stays there.
pub proof fn lemma_failed_pull_aborts(
    clean_mode: bool,
    fail_fast: bool,
    outcomes: Seq<bool>,
    more: Seq<bool>,
)
    requires
        container_run(clean_mode, fail_fast, outcomes) is Pull,
    ensures
        container_run(clean_mode, fail_fast, outcomes.push(false) + more) is Abort,
    decreases more.len(),
{
    let failed = outcomes.push(false);
    if more.len() == 0 {
        assert(failed + more =~= failed);
        assert(failed.drop_last() =~= outcomes);
    } else {
        lemma_failed_pull_aborts(clean_mode, fail_fast, outcomes, more.drop_last());
        assert((failed + more).drop_last() =~= failed + more.drop_last());
    }
}

/// Where failures are not fatal, the start of an application never ends the program.
pub proof fn lemma_lenient_app_never_aborts(
    clean_mode: bool,
    has_clean_command: bool,
    outcomes: Seq<bool>,
)
    ensures
        !(app_run(clean_mode, has_clean_command, false, outcomes) is Abort),
    decreases outcomes.len(),
{
    if outcomes.len() > 0 {
        lemma_lenient_app_never_aborts(clean_mode, has_clean_command, outcomes.drop_last());
    }
}

/// The start of a container is over after three steps at most.
pub proof fn lemma_container_run_ends(clean_mode: bool, fail_fast: bool, outcomes: Seq<bool>)
    requires
        outcomes.len() >= 3,
    ensures
        container_run(clean_mode, fail_fast, outcomes).is_final(),
    decreases outcomes.len(),
{
    let a = outcomes.take(1);
    let b = outcomes.take(2);
    let c = outcomes.take(3);
    assert(a.drop_last() =~= Seq::<bool>::empty());
    assert(b.drop_last() =~= a);
    assert(c.drop_last() =~= b);
    let s0 = container_run(clean_mode, fail_fast, Seq::<bool>::empty());
    let s1 = container_run(clean_mode, fail_fast, a);
    let s2 = container_run(clean_mode, fail_fast, b);
    let s3 = container_run(clean_mode, fail_fast, c);
    assert(s1 == container_next(fail_fast, s0, a.last()));
    assert(s2 == container_next(fail_fast, s1, b.last()));
    assert(s3 == container_next(fail_fast, s2, c.last()));
    assert(s3.is_final());
    if outcomes.len() == 3 {
        assert(c =~= outcomes);
    } else {
        lemma_container_run_ends(clean_mode, fail_fast, outcomes.drop_last());
    }
}

} // verus!
