use zako::job_manager::{Job, JobManager, JobStatus};

fn table_of(pids: &[i32]) -> JobManager {
    let mut table = JobManager::new();
    for pid in pids {
        table.add_job(*pid, *pid, format!("job {}", pid));
    }
    table
}

#[test]
fn new_table_is_empty() {
    let table = JobManager::new();
    assert!(table.get_jobs().is_empty());
}

#[test]
fn first_job_gets_number_one_and_is_current() {
    let table = table_of(&[100]);
    let jobs = table.get_jobs();
    assert_eq!(jobs.len(), 1);
    assert_eq!(jobs[0].index, 1);
    assert_eq!(jobs[0].pid, 100);
    assert_eq!(jobs[0].gid, 100);
    assert_eq!(jobs[0].command, "job 100");
    assert_eq!(jobs[0].status, JobStatus::Running);
    assert!(jobs[0].is_current);
    assert!(!jobs[0].is_previous);
    assert!(!jobs[0].is_bg);
}

#[test]
fn second_job_is_current_and_first_is_previous() {
    let table = table_of(&[100, 200]);
    let jobs = table.get_jobs();
    assert!(jobs[1].is_current && !jobs[1].is_previous);
    assert!(jobs[0].is_previous && !jobs[0].is_current);
}

#[test]
fn removing_the_current_job_promotes_the_previous_one() {
    let mut table = table_of(&[100, 200]);
    let removed = table.remove_job(200, 200).unwrap();
    assert_eq!(removed.pid, 200);
    assert!(removed.is_current);
    let jobs = table.get_jobs();
    assert_eq!(jobs.len(), 1);
    assert_eq!(jobs[0].pid, 100);
    assert!(jobs[0].is_current);
    assert!(!jobs[0].is_previous);
}

#[test]
fn third_job_clears_the_older_previous_mark() {
    let table = table_of(&[100, 200, 300]);
    let jobs = table.get_jobs();
    assert!(!jobs[0].is_current && !jobs[0].is_previous);
    assert!(jobs[1].is_previous);
    assert!(jobs[2].is_current);
}

#[test]
fn without_a_previous_job_the_highest_number_is_promoted() {
    // Numbers 1, 2, 3; free 1 and reuse it, so that the table order is 2, 3, 1.
    let mut table = table_of(&[100, 200, 300]);
    table.remove_job(100, 100).unwrap();
    table.add_job(400, 400, "job 400".to_string());
    {
        let jobs = table.get_jobs();
        assert_eq!(jobs[2].index, 1);
        assert!(jobs[2].is_current);
        assert!(jobs[1].is_previous);
    }
    // Take out the previous job, then the current one: no previous job is left.
    table.remove_job(300, 300).unwrap();
    table.remove_job(400, 400).unwrap();
    let jobs = table.get_jobs();
    assert_eq!(jobs.len(), 1);
    assert_eq!(jobs[0].pid, 200);
    assert!(jobs[0].is_current);

    let mut table = table_of(&[100, 200, 300]);
    table.remove_job(100, 100).unwrap();
    table.add_job(400, 400, "job 400".to_string());
    table.remove_job(300, 300).unwrap();
    table.add_job(500, 500, "job 500".to_string());
    // table order: 200 (#2), 400 (#1, previous), 500 (#3, current)
    table.remove_job(400, 400).unwrap();
    table.add_job(600, 600, "job 600".to_string());
    // table order: 200 (#2), 500 (#3, previous), 600 (#1, current)
    table.remove_job(500, 500).unwrap();
    table.remove_job(600, 600).unwrap();
    assert!(table.get_jobs()[0].is_current);
}

#[test]
fn highest_number_wins_over_table_order() {
    let mut table = table_of(&[100, 200, 300]);
    // 300 is current, 200 previous. Free number 1 and give it to a new job.
    table.remove_job(100, 100).unwrap();
    table.add_job(400, 400, "job 400".to_string());
    // order: 200 (#2), 300 (#3, previous), 400 (#1, current)
    table.fg(Some(1)).unwrap();
    // fg on the current job clears the previous mark
    assert!(!table.get_jobs()[1].is_previous);
    table.remove_job(400, 400).unwrap();
    let jobs = table.get_jobs();
    assert_eq!(jobs.len(), 2);
    assert_eq!(jobs[1].index, 3);
    assert!(jobs[1].is_current);
    assert!(!jobs[0].is_current);
}

#[test]
fn freed_number_is_reused() {
    let mut table = table_of(&[100, 200, 300]);
    table.remove_job(200, 200).unwrap();
    table.add_job(400, 400, "job 400".to_string());
    let jobs = table.get_jobs();
    assert_eq!(jobs[0].index, 1);
    assert_eq!(jobs[1].index, 3);
    assert_eq!(jobs[2].index, 2);
    assert_eq!(jobs[2].pid, 400);
}

#[test]
fn lowest_free_number_is_taken_first() {
    let mut table = table_of(&[100, 200, 300, 400]);
    table.remove_job(300, 300).unwrap();
    table.remove_job(100, 100).unwrap();
    table.add_job(500, 500, "job 500".to_string());
    assert_eq!(table.get_jobs()[2].index, 1);
    table.add_job(600, 600, "job 600".to_string());
    assert_eq!(table.get_jobs()[3].index, 3);
    table.add_job(700, 700, "job 700".to_string());
    assert_eq!(table.get_jobs()[4].index, 5);
}

#[test]
fn remove_unknown_pid_changes_nothing() {
    let mut table = table_of(&[100, 200]);
    assert!(table.remove_job(1, 999).is_none());
    assert_eq!(table.get_jobs().len(), 2);
    assert!(table.get_jobs()[1].is_current);
}

#[test]
fn remove_takes_the_first_job_with_the_pid() {
    let mut table = JobManager::new();
    table.add_job(1, 7, "first".to_string());
    table.add_job(2, 7, "second".to_string());
    let removed = table.remove_job(0, 7).unwrap();
    assert_eq!(removed.command, "first");
    assert_eq!(table.get_jobs()[0].command, "second");
}

#[test]
fn fg_without_number_takes_the_current_job() {
    let mut table = table_of(&[100, 200]);
    table.mark_suspended(200).unwrap();
    let job = table.fg(None).unwrap();
    assert_eq!(job.pid, 200);
    assert_eq!(job.status, JobStatus::Running);
    assert!(job.is_current);
}

#[test]
fn fg_with_number_goes_by_the_number() {
    let mut table = table_of(&[100, 200, 300]);
    let job = table.fg(Some(1)).unwrap();
    assert_eq!(job.pid, 100);
    assert!(job.is_current && !job.is_previous);
    let jobs = table.get_jobs();
    assert!(jobs[0].is_current);
    assert!(!jobs[1].is_current && !jobs[1].is_previous);
    assert!(jobs[2].is_previous && !jobs[2].is_current);
}

#[test]
fn fg_with_unknown_number_finds_nothing() {
    let mut table = table_of(&[100, 200]);
    assert!(table.fg(Some(3)).is_none());
    assert!(table.fg(Some(0)).is_none());
    assert!(table.get_jobs()[1].is_current);
    assert!(table.get_jobs()[0].is_previous);
}

#[test]
fn fg_on_empty_table_finds_nothing() {
    let mut table = JobManager::new();
    assert!(table.fg(None).is_none());
    assert!(table.bg(None).is_none());
}

#[test]
fn bg_resumes_without_touching_the_marks() {
    let mut table = table_of(&[100, 200]);
    table.mark_suspended(100).unwrap();
    let job = table.bg(Some(1)).unwrap();
    assert_eq!(job.pid, 100);
    assert_eq!(job.status, JobStatus::Running);
    assert!(job.is_previous && !job.is_current);
    assert!(table.get_jobs()[1].is_current);
    assert!(table.bg(Some(9)).is_none());
}

#[test]
fn mark_suspended_stops_the_job() {
    let mut table = table_of(&[100, 200]);
    let job = table.mark_suspended(100).unwrap();
    assert_eq!(job.status, JobStatus::Stopped);
    assert!(job.is_bg);
    assert_eq!(table.get_jobs()[0].status, JobStatus::Stopped);
    assert!(table.get_jobs()[0].is_bg);
    assert_eq!(table.get_jobs()[1].status, JobStatus::Running);
    assert!(table.mark_suspended(999).is_none());
}

#[test]
fn mark_job_as_done_removes_and_sets_the_status() {
    let mut table = table_of(&[100, 200]);
    let job = table.mark_job_as_done(200, 200, JobStatus::Killed).unwrap();
    assert_eq!(job.status, JobStatus::Killed);
    assert_eq!(job.pid, 200);
    assert_eq!(table.get_jobs().len(), 1);
    assert!(table.mark_job_as_done(1, 999, JobStatus::Done).is_none());
}

#[test]
fn job_new_has_no_marks() {
    let job = Job::new(3, 4, 5, "sleep 1".to_string(), JobStatus::Stopped);
    assert_eq!((job.gid, job.pid, job.index), (3, 4, 5));
    assert_eq!(job.command, "sleep 1");
    assert_eq!(job.status, JobStatus::Stopped);
    assert!(!job.is_bg && !job.is_current && !job.is_previous);
}

#[test]
fn job_lines() {
    let mut job = Job::new(1234, 1234, 1, "sleep 10".to_string(), JobStatus::Running);
    assert_eq!(job.to_string(), "[1]   1234 Running sleep 10");
    job.is_current = true;
    assert_eq!(job.to_string(), "[1] + 1234 Running sleep 10");
    job.is_current = false;
    job.is_previous = true;
    job.status = JobStatus::Stopped;
    job.index = 12;
    assert_eq!(job.to_string(), "[12] - 1234 Stopped sleep 10");
    job.status = JobStatus::Done;
    job.pid = 0;
    assert_eq!(job.to_string(), "[12] - 0 Done sleep 10");
    job.status = JobStatus::Killed;
    job.pid = -2147483648;
    job.index = 305;
    assert_eq!(job.to_string(), "[305] - -2147483648 Killed sleep 10");
}

#[test]
fn job_clone_keeps_every_field() {
    let mut job = Job::new(1, 2, 3, "vim".to_string(), JobStatus::Stopped);
    job.is_bg = true;
    job.is_previous = true;
    let copy = job.clone();
    assert_eq!(copy.to_string(), job.to_string());
    assert_eq!((copy.gid, copy.is_bg, copy.is_current), (1, true, false));
}
