//! The scheduler between the shell and the job in the foreground: one flag
//! that says whether the shell owns the terminal. The scheduler decides;
//! whoever shares it between threads does the blocking and the waking that it
//! asks for.

use vstd::prelude::*;

verus! {

/// What the caller has to do after an operation on the scheduler.
#[derive(Debug, PartialEq, Eq, Clone, Copy, Structural)]
pub enum SchedulerAction {
    /// The shell owns the terminal: go on.
    Proceed,
    /// A job owns the terminal: block until woken, then ask again.
    Block,
    /// The flag was set: wake every thread that waits for it.
    WakeAll,
}

/// The scheduler. Its view is the flag: whether the shell owns the terminal.
#[derive(Debug, Clone, Copy)]
pub struct Scheduler {
    foreground: bool,
}

impl View for Scheduler {
    type V = bool;

    closed spec fn view(&self) -> bool {
        self.foreground
    }
}

impl Scheduler {
    /// A scheduler for a shell that owns the terminal.
    pub fn new() -> (scheduler: Scheduler)
        ensures
            scheduler@,
    {
        Scheduler { foreground: true }
    }

    /// Whether a thread that wants the terminal for the shell may go on.
    pub fn wait_until_foreground(&self) -> (action: SchedulerAction)
        ensures
            action == if self@ {
                SchedulerAction::Proceed
            } else {
                SchedulerAction::Block
            },
    {
        if self.foreground {
            SchedulerAction::Proceed
        } else {
            SchedulerAction::Block
        }
    }

    /// The shell gives the terminal to a job.
    pub fn pause(&mut self) -> (action: SchedulerAction)
        ensures
            !final(self)@,
            action == SchedulerAction::WakeAll,
    {
        self.foreground = false;
        SchedulerAction::WakeAll
    }

    /// The shell has the terminal back.
    pub fn resume(&mut self) -> (action: SchedulerAction)
        ensures
            final(self)@,
            action == SchedulerAction::WakeAll,
    {
        self.foreground = true;
        SchedulerAction::WakeAll
    }
}

impl Default for Scheduler {
    fn default() -> (scheduler: Scheduler)
        ensures
            scheduler@,
    {
        Scheduler::new()
    }
}

} // verus!
