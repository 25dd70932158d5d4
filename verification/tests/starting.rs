use war_machine::command::{
    exit_code, run_result, spawn_result, spawn_step, Completion, SpawnAction, SpawnEvent,
    SpawnState,
};
use war_machine::starter::{
    app_first_step, app_next_step, container_first_step, container_next_step, Outcome, Step,
};

fn run_container(clean_mode: bool, fail_fast: bool, outcomes: &[bool]) -> Vec<Step> {
    let mut steps = vec![container_first_step(clean_mode)];
    for ok in outcomes {
        let last = *steps.last().unwrap();
        if last.is_over() {
            break;
        }
        steps.push(container_next_step(fail_fast, last, *ok));
    }
    steps
}

fn run_app(clean_mode: bool, has_clean: bool, fail_fast: bool, outcomes: &[bool]) -> Vec<Step> {
    let mut steps = vec![app_first_step(clean_mode, has_clean)];
    for ok in outcomes {
        let last = *steps.last().unwrap();
        if last.is_over() {
            break;
        }
        steps.push(app_next_step(fail_fast, last, *ok));
    }
    steps
}

#[test]
fn clean_mode_only_cleans_a_container() {
    for fail_fast in [true, false] {
        assert_eq!(
            run_container(true, fail_fast, &[true, true, true]),
            vec![Step::Clean, Step::Finish(Outcome::Cleaned)]
        );
    }
    assert_eq!(run_container(true, true, &[false, true]), vec![Step::Clean, Step::Abort]);
    assert_eq!(
        run_container(true, false, &[false, true]),
        vec![Step::Clean, Step::Finish(Outcome::CleanFailed)]
    );
}

#[test]
fn a_failed_pull_ends_the_program() {
    for fail_fast in [true, false] {
        let steps = run_container(false, fail_fast, &[false, false, true]);
        assert_eq!(steps, vec![Step::CheckHealth, Step::Pull, Step::Abort]);
        assert_eq!(steps.last().unwrap().exit_status(), Some(1));
        assert_eq!(container_next_step(fail_fast, Step::Pull, false), Step::Abort);
    }
}

#[test]
fn a_container_is_started_unless_it_runs() {
    assert_eq!(
        run_container(false, true, &[true]),
        vec![Step::CheckHealth, Step::Finish(Outcome::Running)]
    );
    assert_eq!(
        run_container(false, true, &[false, true, true]),
        vec![Step::CheckHealth, Step::Pull, Step::Start, Step::Finish(Outcome::Started)]
    );
    assert_eq!(
        run_container(false, true, &[false, true, false]),
        vec![Step::CheckHealth, Step::Pull, Step::Start, Step::Abort]
    );
    assert_eq!(
        run_container(false, false, &[false, true, false]),
        vec![Step::CheckHealth, Step::Pull, Step::Start, Step::Finish(Outcome::NotStarted)]
    );
    assert_eq!(Step::Finish(Outcome::NotStarted).exit_status(), None);
}

#[test]
fn an_application_is_installed_before_it_starts() {
    assert_eq!(
        run_app(false, true, true, &[false, true, true]),
        vec![Step::CheckHealth, Step::CheckInstall, Step::Start, Step::Finish(Outcome::Started)]
    );
    assert_eq!(
        run_app(false, true, true, &[false, false, true, true]),
        vec![
            Step::CheckHealth,
            Step::CheckInstall,
            Step::Install,
            Step::Start,
            Step::Finish(Outcome::Started)
        ]
    );
    assert_eq!(
        run_app(false, true, true, &[false, false, false]),
        vec![Step::CheckHealth, Step::CheckInstall, Step::Install, Step::Abort]
    );
    assert_eq!(
        run_app(false, true, false, &[false, false, false, false]),
        vec![
            Step::CheckHealth,
            Step::CheckInstall,
            Step::Install,
            Step::Start,
            Step::Finish(Outcome::NotStarted)
        ]
    );
    assert_eq!(
        run_app(false, false, false, &[true]),
        vec![Step::CheckHealth, Step::Finish(Outcome::Running)]
    );
}

#[test]
fn clean_mode_only_cleans_an_application() {
    assert_eq!(run_app(true, false, true, &[true]), vec![Step::Finish(Outcome::NothingToClean)]);
    assert_eq!(
        run_app(true, true, false, &[true, true]),
        vec![Step::Clean, Step::Finish(Outcome::Cleaned)]
    );
    assert_eq!(run_app(true, true, true, &[false]), vec![Step::Clean, Step::Abort]);
    assert_eq!(
        run_app(true, true, false, &[false]),
        vec![Step::Clean, Step::Finish(Outcome::CleanFailed)]
    );
}

#[test]
fn the_end_of_a_short_command_is_read() {
    let ok = Completion::Exited { success: true, stdout: "out".to_string(), stderr: "err".to_string() };
    assert_eq!(run_result(ok), Ok("out".to_string()));
    let bad = Completion::Exited { success: false, stdout: "out".to_string(), stderr: "err".to_string() };
    assert_eq!(run_result(bad), Err("err".to_string()));
    assert_eq!(
        run_result(Completion::Failed("no shell".to_string())),
        Err("\u{1f6d1} Failed to check result: no shell".to_string())
    );
}

#[test]
fn the_end_of_a_long_command_is_read() {
    let ok = Completion::Exited { success: true, stdout: String::new(), stderr: String::new() };
    assert_eq!(spawn_result(ok), Ok(()));
    let bad = Completion::Exited { success: false, stdout: String::new(), stderr: "e".to_string() };
    assert_eq!(spawn_result(bad), Err("\u{1f6d1} Command failed".to_string()));
    assert_eq!(
        spawn_result(Completion::Failed("gone".to_string())),
        Err("\u{1f6d1} Failed to get command status: gone".to_string())
    );
    assert_eq!(exit_code(true), 0);
    assert_eq!(exit_code(false), 1);
}

#[test]
fn an_interrupt_terminates_the_child_and_ends_the_program() {
    let (state, action) = spawn_step(SpawnState::Running, SpawnEvent::Interrupted);
    assert_eq!((state, action), (SpawnState::Terminating, SpawnAction::Terminate));
    assert_eq!(
        spawn_step(state, SpawnEvent::Terminated { success: true }),
        (SpawnState::Over, SpawnAction::ExitProgram(0))
    );
    assert_eq!(
        spawn_step(state, SpawnEvent::Terminated { success: false }),
        (SpawnState::Over, SpawnAction::ExitProgram(1))
    );
    assert_eq!(
        spawn_step(SpawnState::Running, SpawnEvent::Exited { success: false }),
        (SpawnState::Over, SpawnAction::Return { success: false })
    );
    assert_eq!(
        spawn_step(SpawnState::Over, SpawnEvent::Interrupted),
        (SpawnState::Over, SpawnAction::Wait)
    );
}
