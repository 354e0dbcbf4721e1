use witness::supervisor::{
    plan_command, CommandPlan, RestartPolicy, SupervisorAction, SupervisorEvent, SupervisorState,
};

/// Under wait-for-completion, a trigger while the child runs only records
/// the pending restart; the restart happens on the child's natural exit,
/// not before.
#[test]
fn wait_policy_restarts_after_natural_exit() {
    let mut state = SupervisorState::on_spawn();
    assert!(!state.child_wait_armed());

    let action = state.step(RestartPolicy::WaitForCompletion, SupervisorEvent::TriggerArrived);
    assert_eq!(action, SupervisorAction::KeepWaiting);
    assert!(state.child_wait_armed());

    let action = state.step(RestartPolicy::WaitForCompletion, SupervisorEvent::ChildExited);
    assert_eq!(action, SupervisorAction::Restart);
    assert!(!state.child_wait_armed());
}

/// Under the immediate policy, a trigger kills the running child and starts
/// the next cycle at once.
#[test]
fn immediate_policy_kills_and_restarts_on_trigger() {
    let mut state = SupervisorState::on_spawn();
    let action = state.step(RestartPolicy::Immediate, SupervisorEvent::TriggerArrived);
    assert_eq!(action, SupervisorAction::KillChildThenRestart);
    assert!(!state.child_wait_armed());
}

#[test]
fn child_exit_without_pending_restart_changes_nothing() {
    let mut state = SupervisorState::on_spawn();
    let action = state.step(RestartPolicy::WaitForCompletion, SupervisorEvent::ChildExited);
    assert_eq!(action, SupervisorAction::KeepWaiting);
    assert!(!state.child_wait_armed());
}

#[test]
fn interrupt_ends_supervision_cleanly() {
    let mut state = SupervisorState::on_spawn();
    state.step(RestartPolicy::WaitForCompletion, SupervisorEvent::TriggerArrived);
    let action = state.step(RestartPolicy::WaitForCompletion, SupervisorEvent::Interrupted);
    assert_eq!(action, SupervisorAction::ExitSuccess);
}

#[test]
fn closed_trigger_channel_is_fatal() {
    let mut state = SupervisorState::on_spawn();
    let action = state.step(RestartPolicy::Immediate, SupervisorEvent::TriggerChannelClosed);
    assert_eq!(action, SupervisorAction::FailChannelClosed);
}

#[test]
fn single_element_command_goes_through_the_shell() {
    let plan = plan_command(vec![String::from("ls | less")], String::from("/bin/sh"));
    match plan {
        CommandPlan::ShellInterpreted { shell, line } => {
            assert_eq!(shell, "/bin/sh");
            assert_eq!(line, "ls | less");
        }
        CommandPlan::Direct { .. } => panic!("one element must be shell-interpreted"),
    }
}

#[test]
fn multi_element_command_is_executed_directly() {
    let plan = plan_command(
        vec![String::from("cargo"), String::from("check"), String::from("--all")],
        String::from("/bin/sh"),
    );
    match plan {
        CommandPlan::Direct { program, args } => {
            assert_eq!(program, "cargo");
            assert_eq!(args, vec![String::from("check"), String::from("--all")]);
        }
        CommandPlan::ShellInterpreted { .. } => panic!("several elements bypass the shell"),
    }
}
