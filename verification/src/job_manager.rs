//! The job table: every process group the shell started and still tracks,
//! with its number, its state, and the marks that `fg` and `bg` go by.

use crate::text::{decimal, digits, push_decimal, push_digits};
use vstd::prelude::*;
use vstd::string::StringExecFns;

verus! {

/// What the shell last learned of a job.
#[derive(Debug, PartialEq, Eq, Clone, Copy, Structural)]
pub enum JobStatus {
    Done,
    Killed,
    Running,
    Stopped,
}

/// One job: a process group under the shell's control.
#[derive(Debug)]
pub struct Job {
    /// The process group.
    pub gid: i32,
    /// The process that stands for the job, normally the group's leader.
    pub pid: i32,
    /// The job's number, as `%N` names it.
    pub index: usize,
    /// The command line, for display.
    pub command: String,
    pub status: JobStatus,
    /// Whether the job has been stopped at some time, and so left the foreground.
    pub is_bg: bool,
    /// The job that `fg` and `bg` take when no number is given.
    pub is_current: bool,
    /// The job that was current before the current one.
    pub is_previous: bool,
}

impl Clone for Job {
    fn clone(&self) -> (job: Job)
        ensures
            job == *self,
    {
        Job {
            gid: self.gid,
            pid: self.pid,
            index: self.index,
            command: self.command.clone(),
            status: self.status,
            is_bg: self.is_bg,
            is_current: self.is_current,
            is_previous: self.is_previous,
        }
    }
}

impl Job {
    /// A job in the foreground that is neither current nor previous.
    pub fn new(gid: i32, pid: i32, index: usize, command: String, status: JobStatus) -> (job: Job)
        ensures
            job == (Job {
                gid,
                pid,
                index,
                command,
                status,
                is_bg: false,
                is_current: false,
                is_previous: false,
            }),
    {
        Job { gid, pid, index, command, status, is_bg: false, is_current: false, is_previous: false }
    }
}

/// The word that stands for a status in a job's line.
pub open spec fn status_word(status: JobStatus) -> Seq<char> {
    match status {
        JobStatus::Done => "Done"@,
        JobStatus::Killed => "Killed"@,
        JobStatus::Running => "Running"@,
        JobStatus::Stopped => "Stopped"@,
    }
}

/// The mark in a job's line: `+` for the current job, `-` for the previous
/// one, a blank for any other.
pub open spec fn mark(job: Job) -> char {
    if job.is_current {
        '+'
    } else if job.is_previous {
        '-'
    } else {
        ' '
    }
}

/// A job's line as `jobs` shows it: `[index] mark pid status command`.
pub open spec fn job_line(job: Job) -> Seq<char> {
    seq!['['] + digits(job.index as nat) + seq![']', ' ', mark(job), ' '] + decimal(job.pid as int)
        + seq![' '] + status_word(job.status) + seq![' '] + job.command@
}

impl Job {
    /// The job's line as `jobs` shows it.
    pub fn to_string(&self) -> (line: String)
        ensures
            line@ == job_line(*self),
    {
        let mut line = String::new();
        line.push('[');
        push_digits(&mut line, self.index as u64);
        line.push(']');
        line.push(' ');
        line.push(
            if self.is_current {
                '+'
            } else if self.is_previous {
                '-'
            } else {
                ' '
            },
        );
        line.push(' ');
        push_decimal(&mut line, self.pid as i64);
        line.push(' ');
        line.append(
            match self.status {
                JobStatus::Done => "Done",
                JobStatus::Killed => "Killed",
                JobStatus::Running => "Running",
                JobStatus::Stopped => "Stopped",
            },
        );
        line.push(' ');
        line.append(self.command.as_str());
        assert(line@ =~= job_line(*self));
        line
    }
}

/// Whether some job of `jobs` has the number `index`.
pub open spec fn index_in_use(jobs: Seq<Job>, index: int) -> bool {
    exists|i: int| 0 <= i < jobs.len() && (#[trigger] jobs[i]).index == index
}

/// Whether `index` is the lowest positive number that no job of `jobs` has.
pub open spec fn is_lowest_free(jobs: Seq<Job>, index: int) -> bool {
    &&& index >= 1
    &&& !index_in_use(jobs, index)
    &&& forall|k: int| 1 <= k < index ==> index_in_use(jobs, k)
}

/// The lowest positive number that no job of `jobs` has.
pub open spec fn lowest_free(jobs: Seq<Job>) -> int {
    choose|index: int| is_lowest_free(jobs, index)
}

pub open spec fn has_pid(jobs: Seq<Job>, pid: i32) -> bool {
    exists|i: int| 0 <= i < jobs.len() && (#[trigger] jobs[i]).pid == pid
}

/// Whether `pos` is the place of the first job of `jobs` with process id `pid`.
pub open spec fn is_first_with_pid(jobs: Seq<Job>, pid: i32, pos: int) -> bool {
    &&& 0 <= pos < jobs.len()
    &&& jobs[pos].pid == pid
    &&& forall|k: int| 0 <= k < pos ==> (#[trigger] jobs[k]).pid != pid
}

pub open spec fn first_with_pid(jobs: Seq<Job>, pid: i32) -> int {
    choose|pos: int| is_first_with_pid(jobs, pid, pos)
}

pub open spec fn has_index(jobs: Seq<Job>, index: usize) -> bool {
    exists|i: int| 0 <= i < jobs.len() && (#[trigger] jobs[i]).index == index
}

pub open spec fn position_of_index(jobs: Seq<Job>, index: usize) -> int {
    choose|i: int| 0 <= i < jobs.len() && (#[trigger] jobs[i]).index == index
}

pub open spec fn has_current(jobs: Seq<Job>) -> bool {
    exists|i: int| 0 <= i < jobs.len() && (#[trigger] jobs[i]).is_current
}

pub open spec fn position_of_current(jobs: Seq<Job>) -> int {
    choose|i: int| 0 <= i < jobs.len() && (#[trigger] jobs[i]).is_current
}

pub open spec fn has_previous(jobs: Seq<Job>) -> bool {
    exists|i: int| 0 <= i < jobs.len() && (#[trigger] jobs[i]).is_previous
}

pub open spec fn position_of_previous(jobs: Seq<Job>) -> int {
    choose|i: int| 0 <= i < jobs.len() && (#[trigger] jobs[i]).is_previous
}

/// Whether the job at `pos` has the highest number of all.
pub open spec fn is_highest(jobs: Seq<Job>, pos: int) -> bool {
    &&& 0 <= pos < jobs.len()
    &&& forall|k: int| 0 <= k < jobs.len() ==> (#[trigger] jobs[k]).index <= jobs[pos].index
}

pub open spec fn position_of_highest(jobs: Seq<Job>) -> int {
    choose|pos: int| is_highest(jobs, pos)
}

/// The numbers are positive and no two jobs share one; at most one job is
/// current, at most one is previous, and none is both.
pub open spec fn consistent(jobs: Seq<Job>) -> bool {
    &&& forall|i: int| 0 <= i < jobs.len() ==> (#[trigger] jobs[i]).index >= 1
    &&& forall|i: int, j: int|
        0 <= i < jobs.len() && 0 <= j < jobs.len() && (#[trigger] jobs[i]).index == (
        #[trigger] jobs[j]).index ==> i == j
    &&& forall|i: int, j: int|
        0 <= i < jobs.len() && 0 <= j < jobs.len() && (#[trigger] jobs[i]).is_current && (
        #[trigger] jobs[j]).is_current ==> i == j
    &&& forall|i: int, j: int|
        0 <= i < jobs.len() && 0 <= j < jobs.len() && (#[trigger] jobs[i]).is_previous && (
        #[trigger] jobs[j]).is_previous ==> i == j
    &&& forall|i: int|
        0 <= i < jobs.len() ==> !((#[trigger] jobs[i]).is_current && jobs[i].is_previous)
}

/// What holds of every job table: it is consistent, and while there is a job,
/// one of them is current.
pub open spec fn well_formed(jobs: Seq<Job>) -> bool {
    &&& consistent(jobs)
    &&& jobs.len() > 0 ==> has_current(jobs)
}

/// `job` after another job has taken the current mark: it is previous if it
/// was current, and not otherwise.
pub open spec fn demoted(job: Job) -> Job {
    Job { is_current: false, is_previous: job.is_current, ..job }
}

/// The table after a job for `command` has been added: the new job stands
/// last, has the lowest free number, runs and is current; the job that was
/// current is previous.
pub open spec fn with_job_added(jobs: Seq<Job>, gid: i32, pid: i32, command: String) -> Seq<Job> {
    jobs.map_values(|job: Job| demoted(job)).push(
        Job {
            gid,
            pid,
            index: lowest_free(jobs) as usize,
            command,
            status: JobStatus::Running,
            is_bg: false,
            is_current: true,
            is_previous: false,
        },
    )
}

/// A table without a current job after one has been given the mark: the
/// previous job, or, where there is none, the job with the highest number.
pub open spec fn promoted(jobs: Seq<Job>) -> Seq<Job> {
    if has_previous(jobs) {
        let p = position_of_previous(jobs);
        jobs.update(p, Job { is_current: true, is_previous: false, ..jobs[p] })
    } else {
        let h = position_of_highest(jobs);
        jobs.update(h, Job { is_current: true, ..jobs[h] })
    }
}

/// The table after the job at `pos` has been taken out. Where it was the
/// current job and others are left, one of them becomes current.
pub open spec fn with_job_removed(jobs: Seq<Job>, pos: int) -> Seq<Job> {
    let rest = jobs.remove(pos);
    if jobs[pos].is_current && rest.len() > 0 {
        promoted(rest)
    } else {
        rest
    }
}

/// The table after the job at `pos` has been brought to the foreground: it
/// runs and is current, and the job that was current is previous.
pub open spec fn brought_forward(jobs: Seq<Job>, pos: int) -> Seq<Job> {
    jobs.map_values(|job: Job| demoted(job)).update(
        pos,
        Job { status: JobStatus::Running, is_current: true, is_previous: false, ..jobs[pos] },
    )
}

/// The table after the job at `pos` has been told to go on in the background:
/// it runs, and the marks stay as they are.
pub open spec fn resumed(jobs: Seq<Job>, pos: int) -> Seq<Job> {
    jobs.update(pos, Job { status: JobStatus::Running, ..jobs[pos] })
}

/// The table after the job at `pos` has been stopped: it leaves the
/// foreground, and the marks stay as they are.
pub open spec fn suspended(jobs: Seq<Job>, pos: int) -> Seq<Job> {
    jobs.update(pos, Job { status: JobStatus::Stopped, is_bg: true, ..jobs[pos] })
}

/// The place of the job that `fg` and `bg` mean by `index`: the job with that
/// number, or the current job where no number is given.
pub open spec fn resolve(jobs: Seq<Job>, index: Option<usize>) -> Option<int> {
    match index {
        Some(n) => if has_index(jobs, n) {
            Some(position_of_index(jobs, n))
        } else {
            None
        },
        None => if has_current(jobs) {
            Some(position_of_current(jobs))
        } else {
            None
        },
    }
}

/// If every number from 1 to `m` is in use, there are at least `m` jobs.
pub proof fn lemma_used_numbers_bound(jobs: Seq<Job>, m: int)
    requires
        forall|k: int| 1 <= k <= m ==> index_in_use(jobs, k),
    ensures
        m <= jobs.len(),
    decreases jobs.len(),
{
    if m >= 1 {
        assert(index_in_use(jobs, m));
        let p = choose|p: int| 0 <= p < jobs.len() && (#[trigger] jobs[p]).index == m;
        let rest = jobs.remove(p);
        assert forall|k: int| 1 <= k <= m - 1 implies index_in_use(rest, k) by {
            assert(index_in_use(jobs, k));
            let q = choose|q: int| 0 <= q < jobs.len() && (#[trigger] jobs[q]).index == k;
            if q < p {
                assert(rest[q].index == k);
            } else {
                assert(rest[q - 1].index == k);
            }
        }
        lemma_used_numbers_bound(rest, m - 1);
    }
}

/// There is a lowest free number, and only one.
pub proof fn lemma_lowest_free(jobs: Seq<Job>)
    ensures
        is_lowest_free(jobs, lowest_free(jobs)),
        1 <= lowest_free(jobs) <= jobs.len() + 1,
        forall|index: int| is_lowest_free(jobs, index) ==> index == lowest_free(jobs),
{
    lemma_lowest_free_from(jobs, 1);
    let index = lowest_free(jobs);
    assert forall|k: int| 1 <= k <= index - 1 implies index_in_use(jobs, k) by {}
    lemma_used_numbers_bound(jobs, index - 1);
    assert forall|other: int| is_lowest_free(jobs, other) implies other == index by {
        if other < index {
            assert(index_in_use(jobs, other));
        } else if index < other {
            assert(index_in_use(jobs, index));
        }
    }
}

proof fn lemma_lowest_free_from(jobs: Seq<Job>, start: int)
    requires
        start >= 1,
        forall|k: int| 1 <= k < start ==> index_in_use(jobs, k),
    ensures
        exists|index: int| is_lowest_free(jobs, index),
    decreases jobs.len() + 1 - start,
{
    lemma_used_numbers_bound(jobs, start - 1);
    if index_in_use(jobs, start) {
        lemma_used_numbers_bound(jobs, start);
        lemma_lowest_free_from(jobs, start + 1);
    } else {
        assert(is_lowest_free(jobs, start));
    }
}


/// Adding a job keeps the table well formed.
pub proof fn lemma_added_well_formed(jobs: Seq<Job>, gid: i32, pid: i32, command: String)
    requires
        well_formed(jobs),
        jobs.len() < usize::MAX,
    ensures
        well_formed(with_job_added(jobs, gid, pid, command)),
{
    lemma_lowest_free(jobs);
    let after = with_job_added(jobs, gid, pid, command);
    let last = jobs.len() as int;
    assert(after[last].is_current);
    assert forall|i: int| 0 <= i < last implies (#[trigger] after[i]) == demoted(jobs[i]) by {}
    assert forall|i: int, j: int|
        0 <= i < after.len() && 0 <= j < after.len() && (#[trigger] after[i]).index == (
        #[trigger] after[j]).index implies i == j by {
        if i < last && j < last {
            assert(jobs[i].index == jobs[j].index);
        } else if i < last {
            assert(jobs[i].index == lowest_free(jobs));
        } else if j < last {
            assert(jobs[j].index == lowest_free(jobs));
        }
    }
    assert forall|i: int, j: int|
        0 <= i < after.len() && 0 <= j < after.len() && (#[trigger] after[i]).is_previous && (
        #[trigger] after[j]).is_previous implies i == j by {
        assert(jobs[i].is_current && jobs[j].is_current);
    }
}

/// Taking a job out keeps the table consistent.
pub proof fn lemma_remove_consistent(jobs: Seq<Job>, pos: int)
    requires
        consistent(jobs),
        0 <= pos < jobs.len(),
    ensures
        consistent(jobs.remove(pos)),
{
    let rest = jobs.remove(pos);
    assert forall|i: int| 0 <= i < rest.len() implies #[trigger] rest[i] == jobs[if i < pos {
        i
    } else {
        i + 1
    }] by {}
    assert forall|i: int, j: int|
        0 <= i < rest.len() && 0 <= j < rest.len() && (#[trigger] rest[i]).index == (
        #[trigger] rest[j]).index implies i == j by {
        let a = if i < pos { i } else { i + 1 };
        let b = if j < pos { j } else { j + 1 };
        assert(jobs[a].index == jobs[b].index);
    }
    assert forall|i: int, j: int|
        0 <= i < rest.len() && 0 <= j < rest.len() && (#[trigger] rest[i]).is_current && (
        #[trigger] rest[j]).is_current implies i == j by {
        let a = if i < pos { i } else { i + 1 };
        let b = if j < pos { j } else { j + 1 };
        assert(jobs[a].is_current && jobs[b].is_current);
    }
    assert forall|i: int, j: int|
        0 <= i < rest.len() && 0 <= j < rest.len() && (#[trigger] rest[i]).is_previous && (
        #[trigger] rest[j]).is_previous implies i == j by {
        let a = if i < pos { i } else { i + 1 };
        let b = if j < pos { j } else { j + 1 };
        assert(jobs[a].is_previous && jobs[b].is_previous);
    }
}

/// A table is never without a job of highest number, unless it is empty.
pub proof fn lemma_highest_exists(jobs: Seq<Job>)
    requires
        jobs.len() > 0,
    ensures
        is_highest(jobs, position_of_highest(jobs)),
    decreases jobs.len(),
{
    if jobs.len() == 1 {
        assert(is_highest(jobs, 0));
    } else {
        let front = jobs.drop_last();
        lemma_highest_exists(front);
        let h = position_of_highest(front);
        let last = jobs.len() - 1;
        if jobs[last].index >= front[h].index {
            assert forall|k: int| 0 <= k < jobs.len() implies (#[trigger] jobs[k]).index
                <= jobs[last].index by {
                if k < last {
                    assert(front[k].index <= front[h].index);
                }
            }
            assert(is_highest(jobs, last));
        } else {
            assert forall|k: int| 0 <= k < jobs.len() implies (#[trigger] jobs[k]).index
                <= jobs[h].index by {
                if k < last {
                    assert(front[k].index <= front[h].index);
                }
            }
            assert(is_highest(jobs, h));
        }
    }
}

/// Giving the current mark to a table that lacks it makes the table well
/// formed again.
pub proof fn lemma_promoted_well_formed(jobs: Seq<Job>)
    requires
        consistent(jobs),
        !has_current(jobs),
        jobs.len() > 0,
    ensures
        well_formed(promoted(jobs)),
{
    let after = promoted(jobs);
    if has_previous(jobs) {
        let p = position_of_previous(jobs);
        assert(after[p].is_current);
        assert forall|i: int| 0 <= i < after.len() && i != p implies !(#[trigger] after[i]).is_current
            && !after[i].is_previous by {
            assert(after[i] == jobs[i]);
            if jobs[i].is_previous {
                assert(jobs[p].is_previous);
            }
        }
        assert forall|i: int, j: int|
            0 <= i < after.len() && 0 <= j < after.len() && (#[trigger] after[i]).index == (
            #[trigger] after[j]).index implies i == j by {
            assert(jobs[i].index == jobs[j].index);
        }
    } else {
        lemma_highest_exists(jobs);
        let h = position_of_highest(jobs);
        assert(after[h].is_current);
        assert forall|i: int| 0 <= i < after.len() implies !(#[trigger] after[i]).is_previous by {
            assert(!jobs[i].is_previous);
        }
        assert forall|i: int| 0 <= i < after.len() && i != h implies !(#[trigger] after[i]).is_current by {
            assert(after[i] == jobs[i]);
        }
        assert forall|i: int, j: int|
            0 <= i < after.len() && 0 <= j < after.len() && (#[trigger] after[i]).index == (
            #[trigger] after[j]).index implies i == j by {
            assert(jobs[i].index == jobs[j].index);
        }
    }
}

/// Taking a job out keeps the table well formed.
pub proof fn lemma_removed_well_formed(jobs: Seq<Job>, pos: int)
    requires
        well_formed(jobs),
        0 <= pos < jobs.len(),
    ensures
        well_formed(with_job_removed(jobs, pos)),
{
    let rest = jobs.remove(pos);
    lemma_remove_consistent(jobs, pos);
    if rest.len() > 0 {
        if jobs[pos].is_current {
            assert(!has_current(rest)) by {
                if has_current(rest) {
                    let i = choose|i: int| 0 <= i < rest.len() && (#[trigger] rest[i]).is_current;
                    let a = if i < pos { i } else { i + 1 };
                    assert(jobs[a].is_current && jobs[pos].is_current);
                }
            }
            lemma_promoted_well_formed(rest);
        } else {
            let c = position_of_current(jobs);
            assert(jobs[c].is_current);
            if c < pos {
                assert(rest[c].is_current);
            } else {
                assert(rest[c - 1].is_current);
            }
        }
    }
}

/// Bringing a job forward keeps the table well formed.
pub proof fn lemma_brought_forward_well_formed(jobs: Seq<Job>, pos: int)
    requires
        well_formed(jobs),
        0 <= pos < jobs.len(),
    ensures
        well_formed(brought_forward(jobs, pos)),
{
    let after = brought_forward(jobs, pos);
    assert(after[pos].is_current);
    assert forall|i: int| 0 <= i < after.len() && i != pos implies (#[trigger] after[i])
        == demoted(jobs[i]) by {}
    assert forall|i: int, j: int|
        0 <= i < after.len() && 0 <= j < after.len() && (#[trigger] after[i]).index == (
        #[trigger] after[j]).index implies i == j by {
        assert(jobs[i].index == jobs[j].index);
    }
    assert forall|i: int, j: int|
        0 <= i < after.len() && 0 <= j < after.len() && (#[trigger] after[i]).is_previous && (
        #[trigger] after[j]).is_previous implies i == j by {
        assert(jobs[i].is_current && jobs[j].is_current);
    }
}

/// A change of a job's state alone keeps the table well formed.
pub proof fn lemma_state_change_well_formed(jobs: Seq<Job>, pos: int, status: JobStatus, is_bg: bool)
    requires
        well_formed(jobs),
        0 <= pos < jobs.len(),
    ensures
        well_formed(jobs.update(pos, Job { status, is_bg, ..jobs[pos] })),
{
    let after = jobs.update(pos, Job { status, is_bg, ..jobs[pos] });
    assert forall|i: int| 0 <= i < after.len() implies (#[trigger] after[i]).index == jobs[i].index
        && after[i].is_current == jobs[i].is_current && after[i].is_previous
        == jobs[i].is_previous by {}
    assert forall|i: int, j: int|
        0 <= i < after.len() && 0 <= j < after.len() && (#[trigger] after[i]).index == (
        #[trigger] after[j]).index implies i == j by {
        assert(jobs[i].index == jobs[j].index);
    }
    assert forall|i: int, j: int|
        0 <= i < after.len() && 0 <= j < after.len() && (#[trigger] after[i]).is_current && (
        #[trigger] after[j]).is_current implies i == j by {
        assert(jobs[i].is_current && jobs[j].is_current);
    }
    assert forall|i: int, j: int|
        0 <= i < after.len() && 0 <= j < after.len() && (#[trigger] after[i]).is_previous && (
        #[trigger] after[j]).is_previous implies i == j by {
        assert(jobs[i].is_previous && jobs[j].is_previous);
    }
    if jobs.len() > 0 {
        let c = position_of_current(jobs);
        assert(after[c].is_current);
    }
}


/// The job table. Its view is the jobs in table order, which is the order in
/// which they were added.
pub struct JobManager {
    jobs: Vec<Job>,
}

impl View for JobManager {
    type V = Seq<Job>;

    closed spec fn view(&self) -> Seq<Job> {
        self.jobs@
    }
}

/// The place of the first job with process id `pid`.
fn find_pid(jobs: &Vec<Job>, pid: i32) -> (found: Option<usize>)
    ensures
        match found {
            Some(pos) => is_first_with_pid(jobs@, pid, pos as int) && pos as int == first_with_pid(
                jobs@,
                pid,
            ) && has_pid(jobs@, pid),
            None => !has_pid(jobs@, pid),
        },
{
    let mut i: usize = 0;
    while i < jobs.len()
        invariant
            i <= jobs.len(),
            forall|k: int| 0 <= k < i ==> (#[trigger] jobs@[k]).pid != pid,
        decreases jobs.len() - i,
    {
        if jobs[i].pid == pid {
            proof {
                let chosen = first_with_pid(jobs@, pid);
                assert(is_first_with_pid(jobs@, pid, i as int));
                if chosen < i {
                    assert(jobs@[chosen].pid != pid);
                } else if chosen > i {
                    assert(jobs@[i as int].pid != pid);
                }
            }
            return Some(i);
        }
        i += 1;
    }
    None
}

/// The place of the job with number `index`.
fn find_index(jobs: &Vec<Job>, index: usize) -> (found: Option<usize>)
    requires
        consistent(jobs@),
    ensures
        match found {
            Some(pos) => has_index(jobs@, index) && pos as int == position_of_index(jobs@, index)
                && pos < jobs.len(),
            None => !has_index(jobs@, index),
        },
{
    let mut i: usize = 0;
    while i < jobs.len()
        invariant
            i <= jobs.len(),
            consistent(jobs@),
            forall|k: int| 0 <= k < i ==> (#[trigger] jobs@[k]).index != index,
        decreases jobs.len() - i,
    {
        if jobs[i].index == index {
            proof {
                let chosen = position_of_index(jobs@, index);
                assert(jobs@[i as int].index == jobs@[chosen].index);
            }
            return Some(i);
        }
        i += 1;
    }
    None
}

/// The place of the current job.
fn find_current(jobs: &Vec<Job>) -> (found: Option<usize>)
    requires
        consistent(jobs@),
    ensures
        match found {
            Some(pos) => has_current(jobs@) && pos as int == position_of_current(jobs@) && pos
                < jobs.len(),
            None => !has_current(jobs@),
        },
{
    let mut i: usize = 0;
    while i < jobs.len()
        invariant
            i <= jobs.len(),
            consistent(jobs@),
            forall|k: int| 0 <= k < i ==> !(#[trigger] jobs@[k]).is_current,
        decreases jobs.len() - i,
    {
        if jobs[i].is_current {
            proof {
                let chosen = position_of_current(jobs@);
                assert(jobs@[i as int].is_current && jobs@[chosen].is_current);
            }
            return Some(i);
        }
        i += 1;
    }
    None
}

/// The place of the previous job.
fn find_previous(jobs: &Vec<Job>) -> (found: Option<usize>)
    requires
        consistent(jobs@),
    ensures
        match found {
            Some(pos) => has_previous(jobs@) && pos as int == position_of_previous(jobs@) && pos
                < jobs.len(),
            None => !has_previous(jobs@),
        },
{
    let mut i: usize = 0;
    while i < jobs.len()
        invariant
            i <= jobs.len(),
            consistent(jobs@),
            forall|k: int| 0 <= k < i ==> !(#[trigger] jobs@[k]).is_previous,
        decreases jobs.len() - i,
    {
        if jobs[i].is_previous {
            proof {
                let chosen = position_of_previous(jobs@);
                assert(jobs@[i as int].is_previous && jobs@[chosen].is_previous);
            }
            return Some(i);
        }
        i += 1;
    }
    None
}

/// The place of the job with the highest number.
fn find_highest(jobs: &Vec<Job>) -> (pos: usize)
    requires
        consistent(jobs@),
        jobs@.len() > 0,
    ensures
        pos < jobs.len(),
        pos as int == position_of_highest(jobs@),
{
    let mut best: usize = 0;
    let mut i: usize = 1;
    while i < jobs.len()
        invariant
            1 <= i <= jobs.len(),
            best < i,
            forall|k: int| 0 <= k < i ==> (#[trigger] jobs@[k]).index <= jobs@[best as int].index,
        decreases jobs.len() - i,
    {
        if jobs[i].index > jobs[best].index {
            best = i;
        }
        i += 1;
    }
    proof {
        lemma_highest_exists(jobs@);
        let chosen = position_of_highest(jobs@);
        assert(jobs@[best as int].index <= jobs@[chosen].index);
        assert(jobs@[chosen].index <= jobs@[best as int].index);
    }
    best
}

/// Gives the current mark to a table that lacks it.
fn promote(jobs: &mut Vec<Job>)
    requires
        consistent(old(jobs)@),
        !has_current(old(jobs)@),
        old(jobs)@.len() > 0,
    ensures
        final(jobs)@ == promoted(old(jobs)@),
{
    match find_previous(jobs) {
        Some(p) => {
            jobs[p].is_current = true;
            jobs[p].is_previous = false;
            assert(jobs@ =~= promoted(old(jobs)@));
        },
        None => {
            let h = find_highest(jobs);
            jobs[h].is_current = true;
            assert(jobs@ =~= promoted(old(jobs)@));
        },
    }
}

/// Takes the current mark from every job, and leaves the previous mark on
/// the job that was current.
fn demote_all(jobs: &mut Vec<Job>)
    ensures
        final(jobs)@ == old(jobs)@.map_values(|job: Job| demoted(job)),
{
    let mut i: usize = 0;
    while i < jobs.len()
        invariant
            i <= jobs.len(),
            jobs@.len() == old(jobs)@.len(),
            forall|k: int| 0 <= k < i ==> (#[trigger] jobs@[k]) == demoted(old(jobs)@[k]),
            forall|k: int| i <= k < jobs@.len() ==> (#[trigger] jobs@[k]) == old(jobs)@[k],
        decreases jobs.len() - i,
    {
        let was_current = jobs[i].is_current;
        jobs[i].is_current = false;
        jobs[i].is_previous = was_current;
        i += 1;
    }
    assert(jobs@ =~= old(jobs)@.map_values(|job: Job| demoted(job)));
}

impl JobManager {
    #[verifier::type_invariant]
    spec fn inv(self) -> bool {
        well_formed(self.jobs@)
    }

    /// An empty table.
    pub fn new() -> (table: JobManager)
        ensures
            table@ == Seq::<Job>::empty(),
    {
        let table = JobManager { jobs: Vec::new() };
        assert(!has_current(table.jobs@));
        table
    }

    /// The jobs, in table order.
    pub fn get_jobs(&self) -> (jobs: &Vec<Job>)
        ensures
            jobs@ == self@,
            well_formed(self@),
    {
        proof {
            use_type_invariant(self);
        }
        &self.jobs
    }

    fn index_used(&self, index: usize) -> (used: bool)
        ensures
            used == index_in_use(self@, index as int),
    {
        let mut i: usize = 0;
        while i < self.jobs.len()
            invariant
                i <= self.jobs.len(),
                forall|k: int| 0 <= k < i ==> (#[trigger] self.jobs@[k]).index != index,
            decreases self.jobs.len() - i,
        {
            if self.jobs[i].index == index {
                return true;
            }
            i += 1;
        }
        false
    }

    /// The lowest positive number that no job has.
    fn find_available_index(&self) -> (index: usize)
        requires
            self@.len() < usize::MAX,
        ensures
            is_lowest_free(self@, index as int),
            index as int == lowest_free(self@),
    {
        let mut index: usize = 1;
        loop
            invariant
                self@.len() < usize::MAX,
                1 <= index <= self@.len() + 1,
                forall|k: int| 1 <= k < index ==> index_in_use(self@, k),
            decreases self@.len() + 1 - index,
        {
            if !self.index_used(index) {
                proof {
                    lemma_lowest_free(self@);
                }
                return index;
            }
            proof {
                lemma_used_numbers_bound(self@, index as int);
            }
            index += 1;
        }
    }

    /// Adds a job for the process `pid` of group `gid`. It gets the lowest
    /// free number, runs, and is current; the job that was current becomes
    /// the previous one.
    pub fn add_job(&mut self, gid: i32, pid: i32, command: String)
        requires
            old(self)@.len() < usize::MAX,
        ensures
            final(self)@ == with_job_added(old(self)@, gid, pid, command),
            well_formed(final(self)@),
    {
        proof {
            use_type_invariant(&*self);
            lemma_added_well_formed(self@, gid, pid, command);
        }
        let index = self.find_available_index();
        let mut jobs: Vec<Job> = Vec::new();
        std::mem::swap(&mut jobs, &mut self.jobs);
        assert(!has_current(self.jobs@));
        demote_all(&mut jobs);
        let mut job = Job::new(gid, pid, index, command, JobStatus::Running);
        job.is_current = true;
        jobs.push(job);
        self.jobs = jobs;
    }

    /// Takes the first job with process id `pid` out of the table and returns
    /// it as it stood there. Where it was the current job, the previous job
    /// becomes current, or, if there is none, the job with the highest number.
    /// Without such a job nothing changes.
    pub fn remove_job(&mut self, _gid: i32, pid: i32) -> (removed: Option<Job>)
        ensures
            match removed {
                Some(job) => has_pid(old(self)@, pid) && is_first_with_pid(
                    old(self)@,
                    pid,
                    first_with_pid(old(self)@, pid),
                ) && job == old(self)@[first_with_pid(
                    old(self)@,
                    pid,
                )] && final(self)@ == with_job_removed(
                    old(self)@,
                    first_with_pid(old(self)@, pid),
                ),
                None => !has_pid(old(self)@, pid) && final(self)@ == old(self)@,
            },
            well_formed(final(self)@),
    {
        proof {
            use_type_invariant(&*self);
        }
        let pos = match find_pid(&self.jobs, pid) {
            Some(pos) => pos,
            None => {
                return None;
            },
        };
        proof {
            lemma_removed_well_formed(self@, pos as int);
            lemma_remove_consistent(self@, pos as int);
        }
        let mut jobs: Vec<Job> = Vec::new();
        std::mem::swap(&mut jobs, &mut self.jobs);
        assert(!has_current(self.jobs@));
        let job = jobs.remove(pos);
        if job.is_current && jobs.len() > 0 {
            proof {
                let rest = jobs@;
                if has_current(rest) {
                    let i = choose|i: int| 0 <= i < rest.len() && (#[trigger] rest[i]).is_current;
                    let a = if i < pos { i } else { i + 1 };
                    assert(old(self)@[a].is_current && old(self)@[pos as int].is_current);
                }
            }
            promote(&mut jobs);
        }
        self.jobs = jobs;
        Some(job)
    }

    /// Where the job that `index` means stands in the table.
    fn resolve_position(&self, index: Option<usize>) -> (found: Option<usize>)
        ensures
            match found {
                Some(pos) => resolve(self@, index) == Some(pos as int) && pos < self@.len(),
                None => resolve(self@, index) is None,
            },
    {
        proof {
            use_type_invariant(self);
        }
        match index {
            Some(n) => find_index(&self.jobs, n),
            None => find_current(&self.jobs),
        }
    }

    /// Brings a job to the foreground: the job with number `index`, or the
    /// current job where no number is given. It runs and is current, and the
    /// job that was current is previous. Returns the job as it then stands, or
    /// `None`, with nothing changed, where there is no such job.
    pub fn fg(&mut self, index: Option<usize>) -> (job: Option<Job>)
        ensures
            match resolve(old(self)@, index) {
                Some(pos) => final(self)@ == brought_forward(old(self)@, pos) && job == Some(
                    final(self)@[pos],
                ),
                None => job is None && final(self)@ == old(self)@,
            },
            well_formed(final(self)@),
    {
        proof {
            use_type_invariant(&*self);
        }
        let pos = match self.resolve_position(index) {
            Some(pos) => pos,
            None => {
                return None;
            },
        };
        proof {
            lemma_brought_forward_well_formed(self@, pos as int);
        }
        let mut jobs: Vec<Job> = Vec::new();
        std::mem::swap(&mut jobs, &mut self.jobs);
        assert(!has_current(self.jobs@));
        demote_all(&mut jobs);
        jobs[pos].status = JobStatus::Running;
        jobs[pos].is_current = true;
        jobs[pos].is_previous = false;
        assert(jobs@ =~= brought_forward(old(self)@, pos as int));
        let job = jobs[pos].clone();
        self.jobs = jobs;
        Some(job)
    }

    /// Lets a job go on in the background: the job with number `index`, or the
    /// current job where no number is given. It runs; the marks stay as they
    /// are. Returns the job as it then stands, or `None`, with nothing
    /// changed, where there is no such job.
    pub fn bg(&mut self, index: Option<usize>) -> (job: Option<Job>)
        ensures
            match resolve(old(self)@, index) {
                Some(pos) => final(self)@ == resumed(old(self)@, pos) && job == Some(
                    final(self)@[pos],
                ),
                None => job is None && final(self)@ == old(self)@,
            },
            well_formed(final(self)@),
    {
        proof {
            use_type_invariant(&*self);
        }
        let pos = match self.resolve_position(index) {
            Some(pos) => pos,
            None => {
                return None;
            },
        };
        proof {
            lemma_state_change_well_formed(
                self@,
                pos as int,
                JobStatus::Running,
                self@[pos as int].is_bg,
            );
        }
        let mut jobs: Vec<Job> = Vec::new();
        std::mem::swap(&mut jobs, &mut self.jobs);
        assert(!has_current(self.jobs@));
        jobs[pos].status = JobStatus::Running;
        assert(jobs@ =~= resumed(old(self)@, pos as int));
        let job = jobs[pos].clone();
        self.jobs = jobs;
        Some(job)
    }

    /// Records that the process `pid` was stopped: the first job with that
    /// process id is stopped and has left the foreground. Returns the job as
    /// it then stands, or `None`, with nothing changed, where there is no such
    /// job.
    pub fn mark_suspended(&mut self, pid: i32) -> (job: Option<Job>)
        ensures
            match job {
                Some(job) => has_pid(old(self)@, pid) && is_first_with_pid(
                    old(self)@,
                    pid,
                    first_with_pid(old(self)@, pid),
                ) && final(self)@ == suspended(
                    old(self)@,
                    first_with_pid(old(self)@, pid),
                ) && job == final(self)@[first_with_pid(old(self)@, pid)],
                None => !has_pid(old(self)@, pid) && final(self)@ == old(self)@,
            },
            well_formed(final(self)@),
    {
        proof {
            use_type_invariant(&*self);
        }
        let pos = match find_pid(&self.jobs, pid) {
            Some(pos) => pos,
            None => {
                return None;
            },
        };
        proof {
            lemma_state_change_well_formed(self@, pos as int, JobStatus::Stopped, true);
        }
        let mut jobs: Vec<Job> = Vec::new();
        std::mem::swap(&mut jobs, &mut self.jobs);
        assert(!has_current(self.jobs@));
        jobs[pos].status = JobStatus::Stopped;
        jobs[pos].is_bg = true;
        assert(jobs@ =~= suspended(old(self)@, pos as int));
        let job = jobs[pos].clone();
        self.jobs = jobs;
        Some(job)
    }

    /// Records that the process `pid` is gone, with `status` as its end: the
    /// job leaves the table as in [`JobManager::remove_job`], and is returned
    /// with that status.
    pub fn mark_job_as_done(&mut self, gid: i32, pid: i32, status: JobStatus) -> (done: Option<Job>)
        ensures
            match done {
                Some(job) => has_pid(old(self)@, pid) && is_first_with_pid(
                    old(self)@,
                    pid,
                    first_with_pid(old(self)@, pid),
                ) && job == (Job {
                    status,
                    ..old(self)@[first_with_pid(old(self)@, pid)]
                }) && final(self)@ == with_job_removed(
                    old(self)@,
                    first_with_pid(old(self)@, pid),
                ),
                None => !has_pid(old(self)@, pid) && final(self)@ == old(self)@,
            },
            well_formed(final(self)@),
    {
        match self.remove_job(gid, pid) {
            Some(mut job) => {
                job.status = status;
                Some(job)
            },
            None => None,
        }
    }
}


/// Giving out the current mark changes no job's number.
pub proof fn lemma_promoted_keeps_numbers(jobs: Seq<Job>)
    requires
        jobs.len() > 0,
    ensures
        promoted(jobs).len() == jobs.len(),
        forall|i: int| 0 <= i < jobs.len() ==> (#[trigger] promoted(jobs)[i]).index == jobs[i].index,
        forall|i: int| 0 <= i < jobs.len() ==> (#[trigger] promoted(jobs)[i]).pid == jobs[i].pid,
{
    lemma_highest_exists(jobs);
}

/// The job added last is current and the one added before it is previous;
/// when the last is then taken out, the one before it is current again. This
/// is stated for a job B whose process id no other job of the table has, since
/// a job is taken out by its process id.
pub proof fn law_current_and_previous(
    jobs: Seq<Job>,
    gid_a: i32,
    pid_a: i32,
    command_a: String,
    gid_b: i32,
    pid_b: i32,
    command_b: String,
)
    requires
        well_formed(jobs),
        !has_pid(jobs, pid_b),
        pid_a != pid_b,
    ensures
        ({
            let one = with_job_added(jobs, gid_a, pid_a, command_a);
            let two = with_job_added(one, gid_b, pid_b, command_b);
            let three = with_job_removed(two, first_with_pid(two, pid_b));
            let n = jobs.len() as int;
            &&& two.len() == n + 2
            &&& two[n].pid == pid_a && two[n].is_previous && !two[n].is_current
            &&& two[n + 1].pid == pid_b && two[n + 1].is_current && !two[n + 1].is_previous
            &&& first_with_pid(two, pid_b) == n + 1
            &&& three.len() == n + 1
            &&& three[n].pid == pid_a && three[n].is_current && !three[n].is_previous
        }),
{
    let one = with_job_added(jobs, gid_a, pid_a, command_a);
    let two = with_job_added(one, gid_b, pid_b, command_b);
    let n = jobs.len() as int;
    assert(one[n].is_current && one[n].pid == pid_a);
    assert(two[n] == demoted(one[n]));
    assert forall|k: int| 0 <= k < n + 1 implies (#[trigger] two[k]).pid != pid_b by {
        assert(two[k] == demoted(one[k]));
        if k < n {
            assert(one[k] == demoted(jobs[k]));
            assert(jobs[k].pid != pid_b);
        }
    }
    assert(is_first_with_pid(two, pid_b, n + 1));
    let chosen = first_with_pid(two, pid_b);
    if chosen < n + 1 {
        assert(two[chosen].pid != pid_b);
    }
    let rest = two.remove(n + 1);
    assert(rest[n] == two[n]);
    assert(has_previous(rest));
    let p = position_of_previous(rest);
    if p != n {
        assert(rest[p] == two[p]);
        assert(two[p] == demoted(one[p]));
        assert(one[p].is_current);
        assert(one[p] == demoted(jobs[p]));
    }
}

/// Taking a job out frees its number: the next job added gets that number,
/// or a lower one that was free already.
pub proof fn law_freed_number_is_reused(jobs: Seq<Job>, pos: int)
    requires
        well_formed(jobs),
        0 <= pos < jobs.len(),
    ensures
        lowest_free(with_job_removed(jobs, pos)) == if jobs[pos].index < lowest_free(jobs) {
            jobs[pos].index as int
        } else {
            lowest_free(jobs)
        },
        lowest_free(with_job_removed(jobs, pos)) <= jobs[pos].index,
{
    let after = with_job_removed(jobs, pos);
    let rest = jobs.remove(pos);
    let freed = jobs[pos].index as int;
    lemma_lowest_free(jobs);
    lemma_lowest_free(after);
    let low = if freed < lowest_free(jobs) { freed } else { lowest_free(jobs) };
    if rest.len() > 0 {
        lemma_promoted_keeps_numbers(rest);
    }
    assert forall|i: int| 0 <= i < after.len() implies (#[trigger] after[i]).index == jobs[if i
        < pos {
        i
    } else {
        i + 1
    }].index by {
        assert(after[i].index == rest[i].index);
    }
    assert(!index_in_use(after, low)) by {
        if index_in_use(after, low) {
            let i = choose|i: int| 0 <= i < after.len() && (#[trigger] after[i]).index == low;
            let a = if i < pos { i } else { i + 1 };
            assert(jobs[a].index == low);
            assert(jobs[a].index == jobs[pos].index || index_in_use(jobs, low));
        }
    }
    assert forall|k: int| 1 <= k < low implies index_in_use(after, k) by {
        assert(index_in_use(jobs, k));
        let q = choose|q: int| 0 <= q < jobs.len() && (#[trigger] jobs[q]).index == k;
        if q < pos {
            assert(after[q].index == k);
        } else {
            assert(after[q - 1].index == k);
        }
    }
    assert(is_lowest_free(after, low));
}

/// How `fg` and `bg` find their job: without a number it is the job marked
/// current, and there is one unless the table is empty; with a number it is
/// the job of that number, and there is none exactly when no job has it.
pub proof fn law_resolution(jobs: Seq<Job>, index: Option<usize>)
    requires
        well_formed(jobs),
    ensures
        match (index, resolve(jobs, index)) {
            (None, Some(pos)) => 0 <= pos < jobs.len() && jobs[pos].is_current,
            (None, None) => jobs.len() == 0,
            (Some(n), Some(pos)) => 0 <= pos < jobs.len() && jobs[pos].index == n,
            (Some(n), None) => forall|i: int| 0 <= i < jobs.len() ==> (#[trigger] jobs[i]).index != n,
        },
{
}

} // verus!
