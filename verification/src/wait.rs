//! Waiting for the foreground job: what each change in the state of a child
//! process means for the job table and for the wait itself.

use crate::job_manager::{
    first_with_pid, has_pid, suspended, with_job_removed, Job, JobManager, JobStatus,
};
use vstd::prelude::*;

verus! {

/// The error number that says that no child process is left to wait for.
pub const ECHILD: i32 = 10;

/// The kinds of answer that one query for a child's state gives.
#[derive(Debug, PartialEq, Eq, Clone, Copy, Structural)]
pub enum WaitKind {
    /// The process ended by itself; the code is its exit code.
    Exited,
    /// A signal ended the process; the code is the signal's number.
    Signaled,
    /// A signal stopped the process; the code is the signal's number.
    Stopped,
    /// The process goes on after a stop.
    Continued,
    /// The query failed; the code is the error number.
    Error,
    /// Anything else.
    Other,
}

/// The answer to one query for a child's state.
#[derive(Debug, PartialEq, Eq, Clone, Copy, Structural)]
pub struct WaitStatus {
    pid: i32,
    kind: WaitKind,
    code: i32,
}

/// The status that a shell reports for a process: its exit code where it
/// ended by itself, and otherwise 128 more than the code, as far as that fits.
pub open spec fn reported_status(kind: WaitKind, code: i32) -> int {
    if kind == WaitKind::Exited {
        code as int
    } else if code > i32::MAX - 128 {
        i32::MAX as int
    } else {
        code + 128
    }
}

impl WaitStatus {
    pub closed spec fn pid(self) -> i32 {
        self.pid
    }

    pub closed spec fn kind(self) -> WaitKind {
        self.kind
    }

    pub closed spec fn code(self) -> i32 {
        self.code
    }

    pub fn new(pid: i32, kind: WaitKind, code: i32) -> (status: WaitStatus)
        ensures
            status.pid() == pid,
            status.kind() == kind,
            status.code() == code,
    {
        WaitStatus { pid, kind, code }
    }

    pub fn get_pid(&self) -> (pid: i32)
        ensures
            pid == self.pid(),
    {
        self.pid
    }

    pub fn get_kind(&self) -> (kind: WaitKind)
        ensures
            kind == self.kind(),
    {
        self.kind
    }

    pub fn is_exited(&self) -> (b: bool)
        ensures
            b == (self.kind() == WaitKind::Exited),
    {
        self.kind == WaitKind::Exited
    }

    pub fn is_signaled(&self) -> (b: bool)
        ensures
            b == (self.kind() == WaitKind::Signaled),
    {
        self.kind == WaitKind::Signaled
    }

    pub fn is_stopped(&self) -> (b: bool)
        ensures
            b == (self.kind() == WaitKind::Stopped),
    {
        self.kind == WaitKind::Stopped
    }

    pub fn is_continued(&self) -> (b: bool)
        ensures
            b == (self.kind() == WaitKind::Continued),
    {
        self.kind == WaitKind::Continued
    }

    pub fn is_error(&self) -> (b: bool)
        ensures
            b == (self.kind() == WaitKind::Error),
    {
        self.kind == WaitKind::Error
    }

    /// The error number of a failed query.
    pub fn get_errno(&self) -> (errno: i32)
        ensures
            errno == self.code(),
    {
        self.code
    }

    /// The number of the signal that ended or stopped the process.
    pub fn get_signal(&self) -> (signal: i32)
        ensures
            signal == self.code(),
    {
        self.code
    }

    /// The status that the shell reports for the process.
    pub fn get_status(&self) -> (status: i32)
        ensures
            status == reported_status(self.kind(), self.code()),
    {
        if self.kind == WaitKind::Exited {
            self.code
        } else if self.code > i32::MAX - 128 {
            i32::MAX
        } else {
            self.code + 128
        }
    }
}

/// How a command ended: the process group it ran in and its status.
#[derive(Debug, PartialEq, Eq, Clone, Copy, Structural)]
pub struct CommandResult {
    pub gid: i32,
    pub status: i32,
}

impl CommandResult {
    /// The result of a command that has not failed: status 0.
    pub fn new() -> (result: CommandResult)
        ensures
            result == (CommandResult { gid: 0, status: 0 }),
    {
        CommandResult { gid: 0, status: 0 }
    }

    pub fn from_status(gid: i32, status: i32) -> (result: CommandResult)
        ensures
            result == (CommandResult { gid, status }),
    {
        CommandResult { gid, status }
    }
}

/// What the caller records of a child that is not part of the foreground
/// job, for a later report.
#[derive(Debug, PartialEq, Eq, Clone, Copy, Structural)]
pub enum ChildNote {
    Reaped { pid: i32, status: i32 },
    Stopped { pid: i32 },
    Continued { pid: i32 },
    Killed { pid: i32, signal: i32 },
}

/// What one change of state leads to.
#[derive(Debug)]
pub struct WaitStep {
    /// Whether the wait is over: the terminal goes back to the shell.
    pub finished: bool,
    /// A job whose line is to be shown, after an empty line.
    pub report: Option<Job>,
    /// Something to record about a child outside the foreground job.
    pub note: Option<ChildNote>,
    /// The error number of a query that failed for another reason than that
    /// no child is left.
    pub failure: Option<i32>,
}

/// The state of one wait for the foreground job.
pub struct ForegroundWait {
    gid: i32,
    pids: Vec<i32>,
    waited: usize,
    result: CommandResult,
}

/// Whether `pid` is one of `pids`.
pub open spec fn is_member(pids: Seq<i32>, pid: i32) -> bool {
    exists|i: int| 0 <= i < pids.len() && #[trigger] pids[i] == pid
}

/// The job table after the state of the process `pid` has changed to `kind`:
/// a process of the foreground job that is gone leaves the table, a process
/// that was stopped has its job stopped, and nothing else changes the table.
pub open spec fn jobs_after(jobs: Seq<Job>, foreground: bool, kind: WaitKind, pid: i32) -> Seq<Job> {
    if !has_pid(jobs, pid) {
        jobs
    } else if kind == WaitKind::Stopped {
        suspended(jobs, first_with_pid(jobs, pid))
    } else if foreground && (kind == WaitKind::Exited || kind == WaitKind::Signaled) {
        with_job_removed(jobs, first_with_pid(jobs, pid))
    } else {
        jobs
    }
}

/// The job to show after such a change: a job of the foreground that was
/// stopped, as it then stands, or one that is gone and had been stopped
/// before, with its last status.
pub open spec fn report_after(jobs: Seq<Job>, foreground: bool, kind: WaitKind, pid: i32) -> Option<
    Job,
> {
    if !foreground || !has_pid(jobs, pid) {
        None
    } else {
        let job = jobs[first_with_pid(jobs, pid)];
        if kind == WaitKind::Stopped {
            Some(Job { status: JobStatus::Stopped, is_bg: true, ..job })
        } else if kind == WaitKind::Exited && job.is_bg {
            Some(Job { status: JobStatus::Done, ..job })
        } else if kind == WaitKind::Signaled && job.is_bg {
            Some(Job { status: JobStatus::Killed, ..job })
        } else {
            None
        }
    }
}

/// What to record of a child outside the foreground job.
pub open spec fn note_after(foreground: bool, status: WaitStatus) -> Option<ChildNote> {
    if foreground {
        None
    } else {
        match status.kind() {
            WaitKind::Exited => Some(
                ChildNote::Reaped {
                    pid: status.pid(),
                    status: reported_status(status.kind(), status.code()) as i32,
                },
            ),
            WaitKind::Stopped => Some(ChildNote::Stopped { pid: status.pid() }),
            WaitKind::Continued => Some(ChildNote::Continued { pid: status.pid() }),
            WaitKind::Signaled => Some(
                ChildNote::Killed { pid: status.pid(), signal: status.code() },
            ),
            _ => None,
        }
    }
}

impl ForegroundWait {
    pub closed spec fn gid(&self) -> i32 {
        self.gid
    }

    /// The processes of the foreground job.
    pub closed spec fn pids(&self) -> Seq<i32> {
        self.pids@
    }

    /// How many changes of state of those processes have been counted.
    pub closed spec fn waited(&self) -> nat {
        self.waited as nat
    }

    /// The result of the command as far as it is known.
    pub closed spec fn result(&self) -> CommandResult {
        self.result
    }

    /// The wait is over once as many changes have been counted as the job
    /// has processes.
    pub open spec fn finished(&self) -> bool {
        self.waited() >= self.pids().len()
    }

    #[verifier::type_invariant]
    spec fn inv(self) -> bool {
        self.waited <= self.pids.len()
    }

    /// A wait for the processes `pids` of the group `gid`, with nothing
    /// counted yet. A job without processes needs no waiting.
    pub fn new(gid: i32, pids: Vec<i32>) -> (wait: ForegroundWait)
        ensures
            wait.gid() == gid,
            wait.pids() == pids@,
            wait.waited() == 0,
            wait.result() == (CommandResult { gid: 0, status: 0 }),
    {
        ForegroundWait { gid, pids, waited: 0, result: CommandResult::new() }
    }

    /// Whether the wait is over.
    pub fn is_finished(&self) -> (b: bool)
        ensures
            b == self.finished(),
    {
        self.waited >= self.pids.len()
    }

    /// The result of the command as far as it is known.
    pub fn get_result(&self) -> (result: CommandResult)
        ensures
            result == self.result(),
    {
        self.result
    }

    fn contains(&self, pid: i32) -> (b: bool)
        ensures
            b == is_member(self.pids(), pid),
    {
        let mut i: usize = 0;
        while i < self.pids.len()
            invariant
                i <= self.pids.len(),
                forall|k: int| 0 <= k < i ==> #[trigger] self.pids@[k] != pid,
            decreases self.pids.len() - i,
        {
            if self.pids[i] == pid {
                return true;
            }
            i += 1;
        }
        false
    }

    /// Takes in one change of state, `status`, as a query for any child gave
    /// it, and brings the job table up to date.
    ///
    /// A failed query ends the wait; unless it failed because no child is
    /// left, its error number becomes the command's status. A process that
    /// goes on again changes nothing. Every other change of a process of the
    /// foreground job is counted, and the wait ends when as many have been
    /// counted as the job has processes; the status of the job's last process
    /// is the command's status.
    pub fn handle(&mut self, jobs: &mut JobManager, status: WaitStatus) -> (step: WaitStep)
        ensures
            final(self).gid() == old(self).gid(),
            final(self).pids() == old(self).pids(),
            status.kind() == WaitKind::Error ==> {
                &&& step.finished
                &&& step.report is None
                &&& step.note is None
                &&& step.failure == if status.code() == ECHILD {
                    None
                } else {
                    Some(status.code())
                }
                &&& final(jobs)@ == old(jobs)@
                &&& final(self).waited() == old(self).waited()
                &&& final(self).result() == if status.code() == ECHILD {
                    old(self).result()
                } else {
                    CommandResult { gid: old(self).gid(), status: status.code() }
                }
            },
            status.kind() != WaitKind::Error ==> {
                let foreground = is_member(old(self).pids(), status.pid());
                let counts = foreground && status.kind() != WaitKind::Continued;
                let last = counts && status.pid() == old(self).pids().last();
                &&& step.failure is None
                &&& step.note == note_after(foreground, status)
                &&& step.report == report_after(old(jobs)@, foreground, status.kind(), status.pid())
                &&& final(jobs)@ == jobs_after(old(jobs)@, foreground, status.kind(), status.pid())
                &&& final(self).waited() == if counts && !old(self).finished() {
                    old(self).waited() + 1
                } else {
                    old(self).waited()
                }
                &&& final(self).result() == if last {
                    CommandResult {
                        status: reported_status(status.kind(), status.code()) as i32,
                        ..old(self).result()
                    }
                } else {
                    old(self).result()
                }
                &&& step.finished == (status.kind() != WaitKind::Continued
                    && final(self).finished())
            },
    {
        proof {
            use_type_invariant(&*self);
        }
        let mut step = WaitStep { finished: false, report: None, note: None, failure: None };
        if status.is_error() {
            let errno = status.get_errno();
            if errno != ECHILD {
                step.failure = Some(errno);
                self.result = CommandResult::from_status(self.gid, errno);
            }
            step.finished = true;
            return step;
        }
        let pid = status.get_pid();
        let foreground = self.contains(pid);
        if status.is_continued() {
            if !foreground {
                step.note = Some(ChildNote::Continued { pid });
            }
            return step;
        }
        if foreground && self.waited < self.pids.len() {
            self.waited = self.waited + 1;
        }
        if status.is_exited() {
            if foreground {
                match jobs.mark_job_as_done(self.gid, pid, JobStatus::Done) {
                    Some(job) => {
                        if job.is_bg {
                            step.report = Some(job);
                        }
                    },
                    None => {},
                }
            } else {
                step.note = Some(ChildNote::Reaped { pid, status: status.get_status() });
            }
        } else if status.is_stopped() {
            let stopped = jobs.mark_suspended(pid);
            if foreground {
                step.report = stopped;
            } else {
                step.note = Some(ChildNote::Stopped { pid });
            }
        } else if status.is_signaled() {
            if foreground {
                match jobs.mark_job_as_done(self.gid, pid, JobStatus::Killed) {
                    Some(job) => {
                        if job.is_bg {
                            step.report = Some(job);
                        }
                    },
                    None => {},
                }
            } else {
                step.note = Some(ChildNote::Killed { pid, signal: status.get_signal() });
            }
        }
        if foreground {
            assert(self.pids@.len() > 0);
            if pid == self.pids[self.pids.len() - 1] {
                self.result = CommandResult { gid: self.result.gid, status: status.get_status() };
            }
        }
        step.finished = self.waited >= self.pids.len();
        step
    }
}


/// The job table after a change that was recorded for a child outside the
/// foreground job has been dealt with: a child that is gone leaves the table.
pub open spec fn jobs_settled(jobs: Seq<Job>, note: ChildNote) -> Seq<Job> {
    match note {
        ChildNote::Reaped { pid, .. } => if has_pid(jobs, pid) {
            with_job_removed(jobs, first_with_pid(jobs, pid))
        } else {
            jobs
        },
        ChildNote::Killed { pid, .. } => if has_pid(jobs, pid) {
            with_job_removed(jobs, first_with_pid(jobs, pid))
        } else {
            jobs
        },
        _ => jobs,
    }
}

/// The job to show for such a change: the job that is gone, with its last
/// status.
pub open spec fn report_settled(jobs: Seq<Job>, note: ChildNote) -> Option<Job> {
    match note {
        ChildNote::Reaped { pid, .. } => if has_pid(jobs, pid) {
            Some(Job { status: JobStatus::Done, ..jobs[first_with_pid(jobs, pid)] })
        } else {
            None
        },
        ChildNote::Killed { pid, .. } => if has_pid(jobs, pid) {
            Some(Job { status: JobStatus::Killed, ..jobs[first_with_pid(jobs, pid)] })
        } else {
            None
        },
        _ => None,
    }
}

/// Deals with a change that was recorded for a child outside the foreground
/// job: a job whose process is gone leaves the table and is returned, to be
/// shown.
pub fn settle(jobs: &mut JobManager, note: ChildNote) -> (report: Option<Job>)
    ensures
        final(jobs)@ == jobs_settled(old(jobs)@, note),
        report == report_settled(old(jobs)@, note),
{
    match note {
        ChildNote::Reaped { pid, status: _ } => jobs.mark_job_as_done(0, pid, JobStatus::Done),
        ChildNote::Killed { pid, signal: _ } => jobs.mark_job_as_done(0, pid, JobStatus::Killed),
        _ => None,
    }
}

} // verus!
