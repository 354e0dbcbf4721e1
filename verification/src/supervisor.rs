//! The process supervisor's restart state machine.
//!
//! The control loop owns one child process and waits on three things at
//! once: trigger arrival, child completion (armed only while a restart is
//! pending), and an external shutdown signal. Which of them fires first is
//! decided outside; the decision what to do about it is made here, by
//! [`SupervisorState::step`]. The loop performs the returned action: restart
//! the child, keep waiting, or leave the loop.

use vstd::prelude::*;

verus! {

/// What to do about a qualifying trigger while the child still runs.
#[derive(Clone, Copy, PartialEq, Eq, Structural, Debug)]
pub enum RestartPolicy {
    /// Kill the running child and restart at once.
    Immediate,
    /// Record the trigger and restart only after the child exits naturally.
    WaitForCompletion,
}

/// The events the control loop can observe, whichever fires first.
#[derive(Clone, Copy, PartialEq, Eq, Structural, Debug)]
pub enum SupervisorEvent {
    /// A trigger was received from the trigger channel.
    TriggerArrived,
    /// The trigger channel closed: every producer is gone. A logic error,
    /// since the sources outlive the supervisor.
    TriggerChannelClosed,
    /// The running child exited on its own.
    ChildExited,
    /// The external shutdown signal (an interactive interrupt) fired.
    Interrupted,
}

/// The action the control loop must take next.
#[derive(Clone, Copy, PartialEq, Eq, Structural, Debug)]
pub enum SupervisorAction {
    /// Keep waiting on the same child.
    KeepWaiting,
    /// Kill the running child, reap it, and start a new one.
    KillChildThenRestart,
    /// The child is gone; start a new one.
    Restart,
    /// Stop supervising and report success. The running child is not killed
    /// on this path: an interrupt asks to stop supervising, not to tear the
    /// child down.
    ExitSuccess,
    /// Stop supervising and report the closed trigger channel as fatal.
    FailChannelClosed,
}

/// The supervisor's state while one child runs.
#[derive(Clone, Copy, PartialEq, Eq, Structural, Debug)]
pub struct SupervisorState {
    /// A trigger arrived under the wait-for-completion policy; the child's
    /// natural exit must be awaited and then a restart begun.
    pub restart_pending: bool,
}

/// The supervisor's transition relation: from the policy, the state and the
/// observed event to the next state and the action owed.
///
/// A trigger under the immediate policy kills and restarts, and the next
/// cycle starts with nothing pending; under wait-for-completion it only
/// records the pending restart. A child exit restarts exactly when a restart
/// is pending (the loop only arms the child wait then; an exit with nothing
/// pending changes nothing). A closed channel is fatal, and an interrupt
/// ends supervision cleanly, whatever is pending.
pub open spec fn supervisor_step(
    policy: RestartPolicy,
    state: SupervisorState,
    event: SupervisorEvent,
) -> (SupervisorState, SupervisorAction) {
    match event {
        SupervisorEvent::TriggerArrived => match policy {
            RestartPolicy::Immediate => (
                SupervisorState { restart_pending: false },
                SupervisorAction::KillChildThenRestart,
            ),
            RestartPolicy::WaitForCompletion => (
                SupervisorState { restart_pending: true },
                SupervisorAction::KeepWaiting,
            ),
        },
        SupervisorEvent::ChildExited => if state.restart_pending {
            (SupervisorState { restart_pending: false }, SupervisorAction::Restart)
        } else {
            (state, SupervisorAction::KeepWaiting)
        },
        SupervisorEvent::TriggerChannelClosed => (state, SupervisorAction::FailChannelClosed),
        SupervisorEvent::Interrupted => (state, SupervisorAction::ExitSuccess),
    }
}

impl SupervisorState {
    /// The state every cycle starts in, right after a child is spawned:
    /// nothing is pending.
    pub fn on_spawn() -> (s: SupervisorState)
        ensures
            !s.restart_pending,
    {
        SupervisorState { restart_pending: false }
    }

    /// Whether the loop must wait on child completion at all: only while a
    /// restart is pending.
    pub fn child_wait_armed(&self) -> (r: bool)
        ensures
            r == self.restart_pending,
    {
        self.restart_pending
    }

    /// Advances the state by one observed event and returns the action the
    /// loop must take, as [`supervisor_step`] decides.
    pub fn step(&mut self, policy: RestartPolicy, event: SupervisorEvent) -> (action:
        SupervisorAction)
        ensures
            (*final(self), action) == supervisor_step(policy, *old(self), event),
    {
        match event {
            SupervisorEvent::TriggerArrived => match policy {
                RestartPolicy::Immediate => {
                    self.restart_pending = false;
                    SupervisorAction::KillChildThenRestart
                },
                RestartPolicy::WaitForCompletion => {
                    self.restart_pending = true;
                    SupervisorAction::KeepWaiting
                },
            },
            SupervisorEvent::ChildExited => {
                if self.restart_pending {
                    self.restart_pending = false;
                    SupervisorAction::Restart
                } else {
                    SupervisorAction::KeepWaiting
                }
            },
            SupervisorEvent::TriggerChannelClosed => SupervisorAction::FailChannelClosed,
            SupervisorEvent::Interrupted => SupervisorAction::ExitSuccess,
        }
    }
}

/// Wait-for-completion law: a trigger while the child runs never kills it —
/// it only records the pending restart — and the child's natural exit with
/// that restart pending is what begins the new cycle.
pub proof fn lemma_wait_policy_defers_restart(state: SupervisorState)
    ensures
        supervisor_step(RestartPolicy::WaitForCompletion, state, SupervisorEvent::TriggerArrived)
            == (SupervisorState { restart_pending: true }, SupervisorAction::KeepWaiting),
        supervisor_step(
            RestartPolicy::WaitForCompletion,
            SupervisorState { restart_pending: true },
            SupervisorEvent::ChildExited,
        ) == (SupervisorState { restart_pending: false }, SupervisorAction::Restart),
{
}

/// Immediate-restart law: a trigger always kills the running child and
/// begins the restart cycle at once, whatever is pending.
pub proof fn lemma_immediate_policy_restarts_at_once(state: SupervisorState)
    ensures
        supervisor_step(RestartPolicy::Immediate, state, SupervisorEvent::TriggerArrived) == (
            SupervisorState { restart_pending: false },
            SupervisorAction::KillChildThenRestart,
        ),
{
}

/// Interrupt law: the shutdown signal ends supervision successfully from
/// every state and under either policy, and never asks for the child to be
/// killed.
pub proof fn lemma_interrupt_exits_cleanly(policy: RestartPolicy, state: SupervisorState)
    ensures
        supervisor_step(policy, state, SupervisorEvent::Interrupted) == (
            state,
            SupervisorAction::ExitSuccess,
        ),
{
}

/// The command the supervisor launches: a single-element command line is
/// interpreted by the configured shell; a longer one is executed directly as
/// program and arguments, bypassing the shell.
pub enum CommandPlan {
    /// Run `line` by handing it to `shell` with its run-string flag.
    ShellInterpreted {
        /// The shell named by the environment.
        shell: String,
        /// The whole command line, to be interpreted by the shell.
        line: String,
    },
    /// Execute `program` directly with `args`.
    Direct {
        /// The program to execute.
        program: String,
        /// Its arguments, in order.
        args: Vec<String>,
    },
}

/// Builds the launch plan from the command vector, as the supervisor's
/// construction policy demands: one element goes through the shell, more
/// are executed directly.
pub fn plan_command(command: Vec<String>, shell: String) -> (plan: CommandPlan)
    requires
        command@.len() >= 1,
    ensures
        command@.len() == 1 ==> (plan matches CommandPlan::ShellInterpreted { shell: s, line }
            && s == shell && line == command@[0]),
        command@.len() > 1 ==> (plan matches CommandPlan::Direct { program, args }
            && program == command@[0] && args@ == command@.subrange(1, command@.len() as int)),
{
    let ghost orig = command@;
    let mut command = command;
    if command.len() == 1 {
        let line = command.remove(0);
        CommandPlan::ShellInterpreted { shell, line }
    } else {
        let program = command.remove(0);
        assert(command@ =~= orig.subrange(1, orig.len() as int));
        CommandPlan::Direct { program, args: command }
    }
}

} // verus!
