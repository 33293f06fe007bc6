use zako::job_manager::{JobManager, JobStatus};
use zako::wait::{ChildNote, CommandResult, ForegroundWait, WaitKind, WaitStatus, ECHILD};

fn table() -> JobManager {
    let mut jobs = JobManager::new();
    jobs.add_job(10, 10, "sleep 1".to_string());
    jobs.add_job(20, 20, "sleep 2".to_string());
    jobs
}

#[test]
fn wait_status_accessors() {
    let status = WaitStatus::new(5, WaitKind::Exited, 3);
    assert_eq!(status.get_pid(), 5);
    assert_eq!(status.get_kind(), WaitKind::Exited);
    assert!(status.is_exited() && !status.is_signaled() && !status.is_stopped());
    assert!(!status.is_continued() && !status.is_error());
    assert_eq!(status.get_status(), 3);
    let killed = WaitStatus::new(5, WaitKind::Signaled, 9);
    assert!(killed.is_signaled());
    assert_eq!(killed.get_signal(), 9);
    assert_eq!(killed.get_status(), 137);
    assert_eq!(WaitStatus::new(5, WaitKind::Stopped, 20).get_status(), 148);
    assert_eq!(WaitStatus::new(5, WaitKind::Stopped, i32::MAX).get_status(), i32::MAX);
    assert_eq!(WaitStatus::new(5, WaitKind::Stopped, i32::MAX - 128).get_status(), i32::MAX);
    let failed = WaitStatus::new(0, WaitKind::Error, 4);
    assert!(failed.is_error());
    assert_eq!(failed.get_errno(), 4);
    assert!(WaitStatus::new(1, WaitKind::Continued, 0).is_continued());
    assert!(WaitStatus::new(1, WaitKind::Stopped, 0).is_stopped());
}

#[test]
fn command_results() {
    assert_eq!(CommandResult::new(), CommandResult { gid: 0, status: 0 });
    assert_eq!(CommandResult::from_status(3, 4), CommandResult { gid: 3, status: 4 });
}

#[test]
fn a_job_without_processes_needs_no_wait() {
    let wait = ForegroundWait::new(1, Vec::new());
    assert!(wait.is_finished());
    assert_eq!(wait.get_result(), CommandResult::new());
}

#[test]
fn foreground_exit_ends_the_wait() {
    let mut jobs = table();
    let mut wait = ForegroundWait::new(20, vec![20]);
    assert!(!wait.is_finished());
    let step = wait.handle(&mut jobs, WaitStatus::new(20, WaitKind::Exited, 3));
    assert!(step.finished);
    assert!(step.report.is_none() && step.note.is_none() && step.failure.is_none());
    assert_eq!(wait.get_result().status, 3);
    assert_eq!(jobs.get_jobs().len(), 1);
    assert!(jobs.get_jobs()[0].is_current);
    assert!(wait.is_finished());
}

#[test]
fn foreground_stop_is_reported() {
    let mut jobs = table();
    let mut wait = ForegroundWait::new(20, vec![20]);
    let step = wait.handle(&mut jobs, WaitStatus::new(20, WaitKind::Stopped, 20));
    assert!(step.finished);
    let job = step.report.unwrap();
    assert_eq!(job.pid, 20);
    assert_eq!(job.status, JobStatus::Stopped);
    assert!(job.is_bg);
    assert_eq!(jobs.get_jobs()[1].status, JobStatus::Stopped);
    assert_eq!(wait.get_result().status, 148);
    assert!(step.note.is_none());
}

#[test]
fn a_job_that_was_stopped_is_reported_when_it_ends() {
    let mut jobs = table();
    jobs.mark_suspended(20);
    jobs.fg(None);
    let mut wait = ForegroundWait::new(20, vec![20]);
    let step = wait.handle(&mut jobs, WaitStatus::new(20, WaitKind::Signaled, 9));
    assert!(step.finished);
    let job = step.report.unwrap();
    assert_eq!(job.status, JobStatus::Killed);
    assert_eq!(wait.get_result().status, 137);
    assert_eq!(jobs.get_jobs().len(), 1);

    let mut jobs = table();
    jobs.mark_suspended(20);
    let mut wait = ForegroundWait::new(20, vec![20]);
    let step = wait.handle(&mut jobs, WaitStatus::new(20, WaitKind::Exited, 0));
    assert_eq!(step.report.unwrap().status, JobStatus::Done);
}

#[test]
fn other_children_are_noted_and_do_not_end_the_wait() {
    let mut jobs = table();
    let mut wait = ForegroundWait::new(20, vec![20]);
    let step = wait.handle(&mut jobs, WaitStatus::new(10, WaitKind::Exited, 2));
    assert!(!step.finished);
    assert_eq!(step.note, Some(ChildNote::Reaped { pid: 10, status: 2 }));
    assert!(step.report.is_none());
    assert_eq!(jobs.get_jobs().len(), 2);
    let step = wait.handle(&mut jobs, WaitStatus::new(10, WaitKind::Signaled, 15));
    assert_eq!(step.note, Some(ChildNote::Killed { pid: 10, signal: 15 }));
    assert_eq!(jobs.get_jobs().len(), 2);
    let step = wait.handle(&mut jobs, WaitStatus::new(10, WaitKind::Stopped, 19));
    assert_eq!(step.note, Some(ChildNote::Stopped { pid: 10 }));
    assert!(step.report.is_none());
    assert_eq!(jobs.get_jobs()[0].status, JobStatus::Stopped);
    assert!(jobs.get_jobs()[0].is_bg);
    let step = wait.handle(&mut jobs, WaitStatus::new(10, WaitKind::Continued, 0));
    assert_eq!(step.note, Some(ChildNote::Continued { pid: 10 }));
    assert!(!step.finished);
    let step = wait.handle(&mut jobs, WaitStatus::new(10, WaitKind::Other, 0));
    assert!(step.note.is_none() && !step.finished);
    assert_eq!(wait.get_result(), CommandResult::new());
    assert!(!wait.is_finished());
}

#[test]
fn continued_foreground_process_changes_nothing() {
    let mut jobs = table();
    let mut wait = ForegroundWait::new(20, vec![20]);
    let step = wait.handle(&mut jobs, WaitStatus::new(20, WaitKind::Continued, 0));
    assert!(!step.finished);
    assert!(step.note.is_none() && step.report.is_none());
    assert!(!wait.is_finished());
    assert_eq!(jobs.get_jobs().len(), 2);
}

#[test]
fn every_process_of_the_job_is_counted() {
    let mut jobs = table();
    let mut wait = ForegroundWait::new(10, vec![10, 20]);
    let step = wait.handle(&mut jobs, WaitStatus::new(20, WaitKind::Exited, 5));
    assert!(!step.finished);
    assert_eq!(wait.get_result().status, 5);
    let step = wait.handle(&mut jobs, WaitStatus::new(10, WaitKind::Exited, 1));
    assert!(step.finished);
    // the status is that of the last process of the job
    assert_eq!(wait.get_result().status, 5);
    assert!(jobs.get_jobs().is_empty());
}

#[test]
fn failed_query_ends_the_wait() {
    let mut jobs = table();
    let mut wait = ForegroundWait::new(20, vec![20]);
    let step = wait.handle(&mut jobs, WaitStatus::new(0, WaitKind::Error, ECHILD));
    assert!(step.finished);
    assert!(step.failure.is_none());
    assert_eq!(wait.get_result(), CommandResult::new());
    let mut wait = ForegroundWait::new(20, vec![20]);
    let step = wait.handle(&mut jobs, WaitStatus::new(0, WaitKind::Error, 4));
    assert!(step.finished);
    assert_eq!(step.failure, Some(4));
    assert_eq!(wait.get_result(), CommandResult { gid: 20, status: 4 });
    assert_eq!(jobs.get_jobs().len(), 2);
    assert_eq!(ECHILD, 10);
}
