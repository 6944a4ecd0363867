//! The background jobs: numbering, listing, and telling which have ended.
use vstd::prelude::*;

use crate::command;
use crate::command::{Command, Job, JobStatus, JobView};
use crate::numbers;
use crate::numbers::push_decimal;
use crate::shell::{Shell, ShellView};
use crate::text;
use crate::text::{join, push_text};

verus! {

/// The highest number of a job, if there is a job.
pub open spec fn highest(jobs: Seq<JobView>) -> Option<usize>
    decreases jobs.len(),
{
    if jobs.len() == 0 {
        None
    } else {
        let last = jobs.last().job_number;
        match highest(jobs.drop_last()) {
            Some(n) if n > last => Some(n),
            _ => Some(last),
        }
    }
}

/// The highest number below the highest, if there is one.
pub open spec fn second_highest(jobs: Seq<JobView>) -> Option<usize> {
    match highest(jobs) {
        Some(top) => highest(jobs.filter(|j: JobView| j.job_number != top)),
        None => None,
    }
}

/// The sign for a job: `+` for the one with the highest number, `-` for the one with the
/// highest below it.
pub open spec fn sign_of(
    top: Option<usize>,
    second: Option<usize>,
    number: usize,
) -> Seq<char> {
    if top == Some(number) {
        "+"@
    } else if second == Some(number) {
        "-"@
    } else {
        " "@
    }
}

/// The sign for the job with this number among `jobs`.
pub open spec fn marker(jobs: Seq<JobView>, number: usize) -> Seq<char> {
    sign_of(highest(jobs), second_highest(jobs), number)
}

/// The number for the next job.
pub open spec fn next_number(jobs: Seq<JobView>) -> nat {
    match highest(jobs) {
        Some(n) => (n + 1) as nat,
        None => 1,
    }
}

/// The jobs that still run.
pub open spec fn running(jobs: Seq<JobView>) -> Seq<JobView> {
    jobs.filter(|j: JobView| j.status != JobStatus::Done)
}

/// The line that lists a job.
pub open spec fn job_line(jobs: Seq<JobView>, job: JobView) -> Seq<char> {
    let number = numbers::decimal(job.job_number as nat);
    let sign = marker(jobs, job.job_number);
    match job.status {
        JobStatus::Running => "["@ + number + "]<"@ + sign + "> Running          "@ + job.command
            + " &"@,
        JobStatus::Done => "["@ + number + "]"@ + sign + "  Done                    "@
            + job.command,
    }
}

/// The list of the jobs.
pub open spec fn jobs_text(jobs: Seq<JobView>) -> Seq<char> {
    text::joined(jobs.map_values(|j: JobView| job_line(jobs, j)), "\n"@)
}

/// The line that tells of a job that it has ended.
pub open spec fn notice(jobs: Seq<JobView>, job: JobView) -> Seq<char> {
    "["@ + numbers::decimal(job.job_number as nat) + "]"@ + marker(jobs, job.job_number)
        + " Done            "@ + job.command
}

/// Whether a job has ended and nothing has been told of it.
pub open spec fn untold(job: JobView) -> bool {
    job.status == JobStatus::Done && !job.notified
}

/// The lines that tell of the jobs that have ended, as far as nothing has been told of them.
pub open spec fn notices(jobs: Seq<JobView>) -> Seq<Seq<char>> {
    jobs.filter(|j: JobView| untold(j)).map_values(|j: JobView| notice(jobs, j))
}

/// The place of the first job with this number, or the number of jobs.
pub open spec fn numbered_place(jobs: Seq<JobView>, number: usize) -> nat
    decreases jobs.len(),
{
    if jobs.len() == 0 || jobs[0].job_number == number {
        0
    } else {
        1 + numbered_place(jobs.skip(1), number)
    }
}

/// The place of the first job with this process, or the number of jobs.
pub open spec fn process_place(jobs: Seq<JobView>, pid: u32) -> nat
    decreases jobs.len(),
{
    if jobs.len() == 0 || jobs[0].pid == pid {
        0
    } else {
        1 + process_place(jobs.skip(1), pid)
    }
}

/// The jobs when the one at `place`, if there is one, has ended.
pub open spec fn ended_at(jobs: Seq<JobView>, place: nat) -> Seq<JobView> {
    if place < jobs.len() {
        jobs.update(place as int, JobView { status: JobStatus::Done, ..jobs[place as int] })
    } else {
        jobs
    }
}

/// The jobs when the first one with this number, if there is one, runs as process `pid`.
pub open spec fn with_process(jobs: Seq<JobView>, number: usize, pid: u32) -> Seq<JobView> {
    let place = numbered_place(jobs, number);
    if place < jobs.len() {
        jobs.update(place as int, JobView { pid, ..jobs[place as int] })
    } else {
        jobs
    }
}

/// A job that has just been started.
pub open spec fn started(number: usize, pid: u32, command: Seq<char>) -> JobView {
    JobView { job_number: number, pid, command, status: JobStatus::Running, notified: false }
}

/// The line that tells of a job that it has been started.
pub open spec fn start_notice(number: nat, pid: nat) -> Seq<char> {
    "["@ + numbers::decimal(number) + "] "@ + numbers::decimal(pid)
}

/// The line that tells of a job that it has been started.
pub fn start_line(number: usize, pid: u32) -> (r: String)
    ensures
        r@ == start_notice(number as nat, pid as nat),
{
    let mut line = "[".to_string();
    push_decimal(&mut line, number);
    line.append("] ");
    push_decimal(&mut line, pid as usize);
    line
}

/// The highest of the numbers of the jobs that are not `except`.
fn highest_except(jobs: &Vec<Job>, except: Option<usize>) -> (r: Option<usize>)
    ensures
        r == highest(
            command::job_views(jobs@).filter(|j: JobView| Some(j.job_number) != except),
        ),
{
    let ghost all = command::job_views(jobs@);
    let ghost keep = |j: JobView| Some(j.job_number) != except;
    let mut r: Option<usize> = None;
    let mut i: usize = 0;
    assert(all.take(0) =~= Seq::empty());
    assert(all.take(0).filter(keep) =~= Seq::empty()) by {
        reveal_with_fuel(Seq::filter, 1);
    }
    while i < jobs.len()
        invariant
            i <= jobs@.len(),
            all == command::job_views(jobs@),
            keep == (|j: JobView| Some(j.job_number) != except),
            r == highest(all.take(i as int).filter(keep)),
        decreases jobs@.len() - i,
    {
        let number: usize = jobs[i].job_number;
        proof {
            assert(all.take(i + 1) =~= all.take(i as int).push(all[i as int]));
            all.take(i as int).lemma_filter_push(all[i as int], keep);
            let kept = all.take(i as int).filter(keep);
            if keep(all[i as int]) {
                assert(kept.push(all[i as int]).drop_last() =~= kept);
            }
        }
        let kept: bool = match except {
            Some(n) => n != number,
            None => true,
        };
        if kept {
            r = match r {
                Some(n) => if n > number {
                    Some(n)
                } else {
                    Some(number)
                },
                None => Some(number),
            };
        }
        i += 1;
    }
    assert(all.take(i as int) =~= all);
    r
}

/// The highest number and the highest below it.
fn top_numbers(jobs: &Vec<Job>) -> (r: (Option<usize>, Option<usize>))
    ensures
        r.0 == highest(command::job_views(jobs@)),
        r.1 == second_highest(command::job_views(jobs@)),
{
    let ghost all = command::job_views(jobs@);
    let top: Option<usize> = highest_except(jobs, None);
    proof {
        lemma_filter_each(all, |j: JobView| Some(j.job_number) != None::<usize>);
    }
    match top {
        None => (None, None),
        Some(n) => {
            let second: Option<usize> = highest_except(jobs, Some(n));
            proof {
                lemma_filter_same(
                    all,
                    |j: JobView| Some(j.job_number) != Some(n),
                    |j: JobView| j.job_number != n,
                );
            }
            (top, second)
        },
    }
}

proof fn lemma_filter_same<T>(s: Seq<T>, p: spec_fn(T) -> bool, q: spec_fn(T) -> bool)
    requires
        forall|x: T| #[trigger] p(x) == q(x),
    ensures
        s.filter(p) == s.filter(q),
    decreases s.len(),
{
    reveal_with_fuel(Seq::filter, 1);
    if s.len() > 0 {
        lemma_filter_same(s.drop_last(), p, q);
        assert(p(s.last()) == q(s.last()));
    }
}

/// The sign for a job, given the highest number and the highest below it.
fn sign(top: Option<usize>, second: Option<usize>, number: usize) -> (r: &'static str)
    ensures
        r@ == sign_of(top, second, number),
{
    if top == Some(number) {
        "+"
    } else if second == Some(number) {
        "-"
    } else {
        " "
    }
}

/// The list of the jobs.
pub fn list_jobs(jobs: &Vec<Job>) -> (r: String)
    ensures
        r@ == jobs_text(command::job_views(jobs@)),
{
    let ghost all = command::job_views(jobs@);
    let ghost whole = all.map_values(|j: JobView| job_line(all, j));
    let (top, second) = top_numbers(jobs);
    let mut shown: Vec<String> = Vec::new();
    let mut i: usize = 0;
    assert(text::texts(shown@) =~= whole.take(0));
    while i < jobs.len()
        invariant
            i <= jobs@.len(),
            all == command::job_views(jobs@),
            whole == all.map_values(|j: JobView| job_line(all, j)),
            top == highest(all),
            second == second_highest(all),
            text::texts(shown@) == whole.take(i as int),
        decreases jobs@.len() - i,
    {
        let mut line = "[".to_string();
        push_decimal(&mut line, jobs[i].job_number);
        match jobs[i].status {
            JobStatus::Running => {
                line.append("]<");
                line.append(sign(top, second, jobs[i].job_number));
                line.append("> Running          ");
                line.append(jobs[i].command.as_str());
                line.append(" &");
            },
            JobStatus::Done => {
                line.append("]");
                line.append(sign(top, second, jobs[i].job_number));
                line.append("  Done                    ");
                line.append(jobs[i].command.as_str());
            },
        }
        proof {
            assert(all[i as int] == jobs@[i as int]@);
            assert(line@ == job_line(all, all[i as int]));
        }
        push_text(&mut shown, line);
        i += 1;
        assert(text::texts(shown@) =~= whole.take(i as int));
    }
    assert(whole.take(i as int) =~= whole);
    join(&shown, "\n")
}

/// A copy of a job.
fn copy_job(job: &Job) -> (r: Job)
    ensures
        r@ == job@,
{
    Job {
        job_number: job.job_number,
        pid: job.pid,
        command: job.command.clone(),
        status: job.status,
        notified: job.notified,
    }
}

/// The jobs that still run.
fn running_jobs(jobs: &Vec<Job>) -> (r: Vec<Job>)
    ensures
        command::job_views(r@) == running(command::job_views(jobs@)),
{
    let ghost all = command::job_views(jobs@);
    let ghost keep = |j: JobView| j.status != JobStatus::Done;
    let mut r: Vec<Job> = Vec::new();
    let mut i: usize = 0;
    proof {
        assert(all.take(0) =~= Seq::empty());
        reveal_with_fuel(Seq::filter, 1);
        assert(command::job_views(r@) =~= all.take(0).filter(keep));
    }
    while i < jobs.len()
        invariant
            i <= jobs@.len(),
            all == command::job_views(jobs@),
            keep == (|j: JobView| j.status != JobStatus::Done),
            command::job_views(r@) == all.take(i as int).filter(keep),
        decreases jobs@.len() - i,
    {
        let ghost before = command::job_views(r@);
        proof {
            assert(all.take(i + 1) =~= all.take(i as int).push(all[i as int]));
            all.take(i as int).lemma_filter_push(all[i as int], keep);
        }
        if jobs[i].status != JobStatus::Done {
            let job: Job = copy_job(&jobs[i]);
            r.push(job);
            assert(command::job_views(r@) =~= before.push(job@));
        }
        i += 1;
    }
    assert(all.take(i as int) =~= all);
    r
}

proof fn lemma_numbered_place_is(jobs: Seq<JobView>, number: usize, k: int)
    requires
        0 <= k <= jobs.len(),
        forall|i: int| 0 <= i < k ==> (#[trigger] jobs[i]).job_number != number,
        k < jobs.len() ==> jobs[k].job_number == number,
    ensures
        numbered_place(jobs, number) == k,
    decreases jobs.len(),
{
    if k > 0 {
        let rest = jobs.skip(1);
        assert(jobs[0].job_number != number);
        assert forall|i: int| 0 <= i < k - 1 implies (#[trigger] rest[i]).job_number != number by {
            assert(rest[i] == jobs[i + 1]);
        }
        lemma_numbered_place_is(rest, number, k - 1);
    }
}

proof fn lemma_process_place_is(jobs: Seq<JobView>, pid: u32, k: int)
    requires
        0 <= k <= jobs.len(),
        forall|i: int| 0 <= i < k ==> (#[trigger] jobs[i]).pid != pid,
        k < jobs.len() ==> jobs[k].pid == pid,
    ensures
        process_place(jobs, pid) == k,
    decreases jobs.len(),
{
    if k > 0 {
        let rest = jobs.skip(1);
        assert(jobs[0].pid != pid);
        assert forall|i: int| 0 <= i < k - 1 implies (#[trigger] rest[i]).pid != pid by {
            assert(rest[i] == jobs[i + 1]);
        }
        lemma_process_place_is(rest, pid, k - 1);
    }
}

/// The place of the first job with this number, or the number of jobs.
fn find_number(jobs: &Vec<Job>, number: usize) -> (r: usize)
    ensures
        r == numbered_place(command::job_views(jobs@), number),
        r <= jobs@.len(),
{
    let ghost all = command::job_views(jobs@);
    let mut i: usize = 0;
    while i < jobs.len() && jobs[i].job_number != number
        invariant
            i <= jobs@.len(),
            all == command::job_views(jobs@),
            forall|j: int| 0 <= j < i ==> (#[trigger] all[j]).job_number != number,
        decreases jobs@.len() - i,
    {
        i += 1;
    }
    proof {
        lemma_numbered_place_is(all, number, i as int);
    }
    i
}

/// The place of the first job with this process, or the number of jobs.
fn find_process(jobs: &Vec<Job>, pid: u32) -> (r: usize)
    ensures
        r == process_place(command::job_views(jobs@), pid),
        r <= jobs@.len(),
{
    let ghost all = command::job_views(jobs@);
    let mut i: usize = 0;
    while i < jobs.len() && jobs[i].pid != pid
        invariant
            i <= jobs@.len(),
            all == command::job_views(jobs@),
            forall|j: int| 0 <= j < i ==> (#[trigger] all[j]).pid != pid,
        decreases jobs@.len() - i,
    {
        i += 1;
    }
    proof {
        lemma_process_place_is(all, pid, i as int);
    }
    i
}

/// Ends the job at `place`, if there is one.
fn end_at(jobs: &mut Vec<Job>, place: usize)
    ensures
        command::job_views(final(jobs)@) == ended_at(
            command::job_views(old(jobs)@),
            place as nat,
        ),
{
    if place < jobs.len() {
        let mut job: Job = copy_job(&jobs[place]);
        job.status = JobStatus::Done;
        jobs.set(place, job);
    }
    assert(command::job_views(jobs@) =~= ended_at(command::job_views(old(jobs)@), place as nat));
}

impl Shell {
    /// The number for the next job, if there is one left.
    pub fn next_job_number(&self) -> (r: Option<usize>)
        ensures
            r == (if next_number(self@.jobs) <= usize::MAX {
                Some(next_number(self@.jobs) as usize)
            } else {
                None
            }),
    {
        match top_numbers(&self.jobs).0 {
            Some(n) => n.checked_add(1),
            None => Some(1),
        }
    }

    /// Notes a job that has just been started, and gives it the next number.
    pub fn start_job(&mut self, pid: u32, command: String) -> (r: usize)
        requires
            next_number(old(self)@.jobs) <= usize::MAX,
        ensures
            r == next_number(old(self)@.jobs),
            final(self)@ == (ShellView {
                jobs: old(self)@.jobs.push(started(r, pid, command@)),
                ..old(self)@
            }),
    {
        let number: usize = match top_numbers(&self.jobs).0 {
            Some(n) => n + 1,
            None => 1,
        };
        let ghost before = command::job_views(self.jobs@);
        let ghost view = started(number, pid, command@);
        self.jobs.push(
            Job {
                job_number: number,
                pid,
                command,
                status: JobStatus::Running,
                notified: false,
            },
        );
        assert(command::job_views(self.jobs@) =~= before.push(view));
        number
    }

    /// Notes the process that a job runs as.
    pub fn set_job_pid(&mut self, number: usize, pid: u32)
        ensures
            final(self)@ == (ShellView {
                jobs: with_process(old(self)@.jobs, number, pid),
                ..old(self)@
            }),
    {
        let place: usize = find_number(&self.jobs, number);
        let ghost before = command::job_views(self.jobs@);
        if place < self.jobs.len() {
            let mut job: Job = copy_job(&self.jobs[place]);
            job.pid = pid;
            self.jobs.set(place, job);
        }
        assert(command::job_views(self.jobs@) =~= with_process(before, number, pid));
    }

    /// Notes that the job with this number has ended.
    pub fn finish_job(&mut self, number: usize)
        ensures
            final(self)@ == (ShellView {
                jobs: ended_at(old(self)@.jobs, numbered_place(old(self)@.jobs, number)),
                ..old(self)@
            }),
    {
        let place: usize = find_number(&self.jobs, number);
        end_at(&mut self.jobs, place);
    }

    /// Notes that the job that runs as this process has ended.
    pub fn finish_process(&mut self, pid: u32)
        ensures
            final(self)@ == (ShellView {
                jobs: ended_at(old(self)@.jobs, process_place(old(self)@.jobs, pid)),
                ..old(self)@
            }),
    {
        let place: usize = find_process(&self.jobs, pid);
        end_at(&mut self.jobs, place);
    }

    /// The list of the jobs; those that have ended are then forgotten.
    pub fn take_job_list(&mut self) -> (r: String)
        ensures
            r@ == jobs_text(old(self)@.jobs),
            final(self)@ == (ShellView { jobs: running(old(self)@.jobs), ..old(self)@ }),
    {
        let shown: String = list_jobs(&self.jobs);
        self.jobs = running_jobs(&self.jobs);
        shown
    }
}

impl Command {
    /// The lines that tell of the jobs that have ended since the last time; the jobs that have
    /// ended are then forgotten.
    pub fn print_job_noti(shell: &mut Shell) -> (r: Vec<String>)
        ensures
            text::texts(r@) == notices(old(shell)@.jobs),
            final(shell)@ == (ShellView { jobs: running(old(shell)@.jobs), ..old(shell)@ }),
    {
        let ghost all = command::job_views(shell.jobs@);
        let ghost pick = |j: JobView| untold(j);
        let ghost show = |j: JobView| notice(all, j);
        let (top, second) = top_numbers(&shell.jobs);
        let mut told: Vec<String> = Vec::new();
        let mut i: usize = 0;
        proof {
            assert(all.take(0) =~= Seq::empty());
            reveal_with_fuel(Seq::filter, 1);
            assert(text::texts(told@) =~= all.take(0).filter(pick).map_values(show));
        }
        while i < shell.jobs.len()
            invariant
                i <= shell.jobs@.len(),
                all == command::job_views(shell.jobs@),
                *shell == *old(shell),
                pick == (|j: JobView| untold(j)),
                show == (|j: JobView| notice(all, j)),
                top == highest(all),
                second == second_highest(all),
                text::texts(told@) == all.take(i as int).filter(pick).map_values(show),
            decreases shell.jobs@.len() - i,
        {
            let ghost before = all.take(i as int).filter(pick);
            let ghost view = all[i as int];
            proof {
                assert(all.take(i + 1) =~= all.take(i as int).push(view));
                all.take(i as int).lemma_filter_push(view, pick);
            }
            let job: &Job = &shell.jobs[i];
            if job.status == JobStatus::Done && !job.notified {
                let mut line = "[".to_string();
                push_decimal(&mut line, job.job_number);
                line.append("]");
                line.append(sign(top, second, job.job_number));
                line.append(" Done            ");
                line.append(job.command.as_str());
                push_text(&mut told, line);
                assert(text::texts(told@) =~= before.push(view).map_values(show));
            }
            i += 1;
        }
        assert(all.take(i as int) =~= all);
        shell.jobs = running_jobs(&shell.jobs);
        told
    }
}

proof fn lemma_highest(jobs: Seq<JobView>)
    ensures
        jobs.len() == 0 <==> highest(jobs) is None,
        highest(jobs) matches Some(top) ==> (forall|i: int|
            0 <= i < jobs.len() ==> (#[trigger] jobs[i]).job_number <= top) && (exists|i: int|
            0 <= i < jobs.len() && (#[trigger] jobs[i]).job_number == top),
    decreases jobs.len(),
{
    if jobs.len() > 0 {
        let rest = jobs.drop_last();
        lemma_highest(rest);
        let last = jobs.len() - 1;
        assert(jobs[last].job_number == jobs.last().job_number);
        assert forall|i: int| 0 <= i < jobs.len() implies (#[trigger] jobs[i]).job_number
            <= highest(jobs)->0 by {
            if i < last {
                assert(rest[i] == jobs[i]);
            }
        }
        match highest(rest) {
            Some(n) if n > jobs.last().job_number => {
                let i = choose|i: int| 0 <= i < rest.len() && (#[trigger] rest[i]).job_number == n;
                assert(jobs[i].job_number == n);
            },
            _ => {},
        }
    }
}

/// The number for the next job is above that of every job.
pub proof fn law_next_number_is_new(jobs: Seq<JobView>)
    ensures
        forall|i: int|
            0 <= i < jobs.len() ==> (#[trigger] jobs[i]).job_number < next_number(jobs),
{
    lemma_highest(jobs);
}

/// Whether the jobs stand in the order of their numbers, and no two have the same.
pub open spec fn in_order(jobs: Seq<JobView>) -> bool {
    forall|i: int, j: int|
        0 <= i < j < jobs.len() ==> (#[trigger] jobs[i]).job_number < (
        #[trigger] jobs[j]).job_number
}

/// The jobs that still run are among the jobs.
pub proof fn lemma_running_are_jobs(jobs: Seq<JobView>)
    ensures
        forall|i: int|
            0 <= i < running(jobs).len() ==> jobs.contains(#[trigger] running(jobs)[i]) && running(
                jobs,
            )[i].status != JobStatus::Done,
    decreases jobs.len(),
{
    reveal_with_fuel(Seq::filter, 1);
    let keep = |j: JobView| j.status != JobStatus::Done;
    if jobs.len() > 0 {
        let before = jobs.drop_last();
        lemma_running_are_jobs(before);
        assert forall|i: int| 0 <= i < running(jobs).len() implies jobs.contains(
            #[trigger] running(jobs)[i],
        ) && running(jobs)[i].status != JobStatus::Done by {
            if i < running(before).len() {
                assert(running(jobs)[i] == running(before)[i]);
                let k = choose|k: int| 0 <= k < before.len() && before[k] == running(before)[i];
                assert(jobs[k] == running(jobs)[i]);
            } else {
                assert(keep(jobs.last()));
                assert(jobs[jobs.len() - 1] == running(jobs)[i]);
            }
        }
    }
}

proof fn lemma_running_in_order(jobs: Seq<JobView>)
    requires
        in_order(jobs),
    ensures
        in_order(running(jobs)),
    decreases jobs.len(),
{
    reveal_with_fuel(Seq::filter, 1);
    if jobs.len() > 0 {
        let before = jobs.drop_last();
        lemma_running_in_order(before);
        lemma_running_are_jobs(before);
        let after = running(jobs);
        assert forall|i: int, j: int| 0 <= i < j < after.len() implies (
        #[trigger] after[i]).job_number < (#[trigger] after[j]).job_number by {
            assert(after[i] == running(before)[i]);
            if j < running(before).len() {
                assert(after[j] == running(before)[j]);
            } else {
                assert(before.contains(running(before)[i]));
                let k = choose|k: int| 0 <= k < before.len() && before[k] == running(before)[i];
                assert(jobs[k] == after[i]);
                assert(jobs[jobs.len() - 1] == after[j]);
            }
        }
    }
}

/// The jobs stay in order whatever happens to them: when one is started, gets its process or
/// ends, and when those that have ended are forgotten.
pub proof fn law_jobs_stay_in_order(
    jobs: Seq<JobView>,
    number: usize,
    pid: u32,
    command: Seq<char>,
    place: nat,
)
    requires
        in_order(jobs),
    ensures
        number == next_number(jobs) ==> in_order(jobs.push(started(number, pid, command))),
        in_order(with_process(jobs, number, pid)),
        in_order(ended_at(jobs, place)),
        in_order(running(jobs)),
{
    law_next_number_is_new(jobs);
    lemma_running_in_order(jobs);
}

/// Where the jobs stand in order, a number belongs to one job, and the job with the number of
/// one of them is that one.
pub proof fn law_number_finds_its_job(jobs: Seq<JobView>, place: int)
    requires
        in_order(jobs),
        0 <= place < jobs.len(),
    ensures
        numbered_place(jobs, jobs[place].job_number) == place,
{
    assert forall|i: int| 0 <= i < place implies (#[trigger] jobs[i]).job_number
        != jobs[place].job_number by {
        assert(jobs[i].job_number < jobs[place].job_number);
    }
    lemma_numbered_place_is(jobs, jobs[place].job_number, place);
}

proof fn lemma_highest_in_order(jobs: Seq<JobView>)
    requires
        in_order(jobs),
        jobs.len() > 0,
    ensures
        highest(jobs) == Some(jobs.last().job_number),
{
    lemma_highest(jobs);
    let top = highest(jobs)->0;
    let i = choose|i: int| 0 <= i < jobs.len() && (#[trigger] jobs[i]).job_number == top;
    assert(jobs[jobs.len() - 1].job_number <= top);
    if i < jobs.len() - 1 {
        assert(jobs[i].job_number < jobs[jobs.len() - 1].job_number);
    }
}

/// Where the jobs stand in order, the last one has the sign `+`, the one before it the sign
/// `-`, and no other has a sign.
pub proof fn law_signs_mark_the_last_jobs(jobs: Seq<JobView>, place: int)
    requires
        in_order(jobs),
        0 <= place < jobs.len(),
    ensures
        marker(jobs, jobs[place].job_number) == (if place == jobs.len() - 1 {
            "+"@
        } else if place == jobs.len() - 2 {
            "-"@
        } else {
            " "@
        }),
{
    lemma_highest_in_order(jobs);
    let top = jobs.last().job_number;
    let other = |j: JobView| j.job_number != top;
    let before = jobs.drop_last();
    assert(jobs.filter(other) == before) by {
        assert(jobs =~= before.push(jobs.last()));
        before.lemma_filter_push(jobs.last(), other);
        lemma_filter_each(before, other);
    }
    if before.len() > 0 {
        assert(in_order(before)) by {
            assert forall|i: int, j: int| 0 <= i < j < before.len() implies (
            #[trigger] before[i]).job_number < (#[trigger] before[j]).job_number by {
                assert(before[i] == jobs[i] && before[j] == jobs[j]);
            }
        }
        lemma_highest_in_order(before);
        assert(before.last() == jobs[jobs.len() - 2]);
    }
    if place < jobs.len() - 1 {
        assert(jobs[place].job_number < jobs[jobs.len() - 1].job_number);
    }
    if place < jobs.len() - 2 {
        assert(jobs[place].job_number < jobs[jobs.len() - 2].job_number);
    }
}

proof fn lemma_filter_each<T>(s: Seq<T>, p: spec_fn(T) -> bool)
    requires
        forall|i: int| 0 <= i < s.len() ==> p(#[trigger] s[i]),
    ensures
        s.filter(p) == s,
    decreases s.len(),
{
    reveal_with_fuel(Seq::filter, 1);
    if s.len() > 0 {
        let before = s.drop_last();
        assert forall|i: int| 0 <= i < before.len() implies p(#[trigger] before[i]) by {
            assert(before[i] == s[i]);
        }
        lemma_filter_each(before, p);
        assert(p(s[s.len() - 1]));
        assert(before.push(s.last()) =~= s);
    } else {
        assert(s.filter(p) =~= s);
    }
}

proof fn lemma_filter_none<T>(s: Seq<T>, p: spec_fn(T) -> bool)
    requires
        forall|i: int| 0 <= i < s.len() ==> !p(#[trigger] s[i]),
    ensures
        s.filter(p) == Seq::<T>::empty(),
    decreases s.len(),
{
    reveal_with_fuel(Seq::filter, 1);
    if s.len() > 0 {
        let before = s.drop_last();
        assert forall|i: int| 0 <= i < before.len() implies !p(#[trigger] before[i]) by {
            assert(before[i] == s[i]);
        }
        lemma_filter_none(before, p);
        assert(!p(s[s.len() - 1]));
    }
}

proof fn lemma_filter_has<T>(s: Seq<T>, p: spec_fn(T) -> bool, i: int)
    requires
        0 <= i < s.len(),
        p(s[i]),
    ensures
        s.filter(p).contains(s[i]),
    decreases s.len(),
{
    reveal_with_fuel(Seq::filter, 1);
    let before = s.drop_last();
    if i < before.len() {
        assert(before[i] == s[i]);
        lemma_filter_has(before, p, i);
        let k = choose|k: int|
            0 <= k < before.filter(p).len() && before.filter(p)[k] == s[i];
        assert(s.filter(p)[k] == s[i]);
    } else {
        assert(s.filter(p)[before.filter(p).len() as int] == s[i]);
    }
}

/// When the jobs that have ended have been told of, each that has not ended is still there, none
/// that has ended is, and there is nothing to tell until another one ends.
pub proof fn law_ended_jobs_are_told_once(jobs: Seq<JobView>)
    ensures
        forall|i: int|
            0 <= i < jobs.len() && jobs[i].status != JobStatus::Done ==> running(jobs).contains(
                #[trigger] jobs[i],
            ),
        forall|i: int|
            0 <= i < running(jobs).len() ==> (#[trigger] running(jobs)[i]).status
                != JobStatus::Done,
        notices(running(jobs)) == Seq::<Seq<char>>::empty(),
        running(running(jobs)) == running(jobs),
{
    let keep = |j: JobView| j.status != JobStatus::Done;
    lemma_running_are_jobs(jobs);
    assert forall|i: int|
        0 <= i < jobs.len() && jobs[i].status != JobStatus::Done implies running(jobs).contains(
        #[trigger] jobs[i],
    ) by {
        lemma_filter_has(jobs, keep, i);
    }
    lemma_filter_none(running(jobs), |j: JobView| untold(j));
    lemma_filter_each(running(jobs), keep);
    assert(notices(running(jobs)) =~= Seq::empty());
}

/// A job that has ended is told of.
pub proof fn law_ended_job_is_told(jobs: Seq<JobView>, place: nat)
    requires
        place < jobs.len(),
        !jobs[place as int].notified,
    ensures
        ({
            let after = ended_at(jobs, place);
            notices(after).contains(notice(after, after[place as int]))
        }),
{
    let after = ended_at(jobs, place);
    let pick = |j: JobView| untold(j);
    lemma_filter_has(after, pick, place as int);
    let k = choose|k: int|
        0 <= k < after.filter(pick).len() && after.filter(pick)[k] == after[place as int];
    assert(notices(after)[k] == notice(after, after[place as int]));
}

/// Ending a job changes nothing but that this job is done.
pub proof fn law_ending_a_job(jobs: Seq<JobView>, place: nat)
    requires
        place < jobs.len(),
    ensures
        ended_at(jobs, place).len() == jobs.len(),
        forall|i: int|
            0 <= i < jobs.len() && i != place ==> #[trigger] ended_at(jobs, place)[i] == jobs[i],
        ({
            let before = jobs[place as int];
            let after = ended_at(jobs, place)[place as int];
            &&& after.status == JobStatus::Done
            &&& after.job_number == before.job_number
            &&& after.pid == before.pid
            &&& after.command == before.command
            &&& after.notified == before.notified
        }),
{
}

/// Giving a job its process changes nothing but the process of the first job with that number;
/// without such a job nothing changes.
pub proof fn law_giving_a_job_its_process(jobs: Seq<JobView>, place: int, number: usize, pid: u32)
    ensures
        0 <= place < jobs.len() && jobs[place].job_number == number && (forall|i: int|
            0 <= i < place ==> (#[trigger] jobs[i]).job_number != number) ==> with_process(
            jobs,
            number,
            pid,
        ) == jobs.update(place, JobView { pid, ..jobs[place] }),
        (forall|i: int| 0 <= i < jobs.len() ==> (#[trigger] jobs[i]).job_number != number)
            ==> with_process(jobs, number, pid) == jobs,
{
    if 0 <= place < jobs.len() && jobs[place].job_number == number && (forall|i: int|
        0 <= i < place ==> (#[trigger] jobs[i]).job_number != number) {
        lemma_numbered_place_is(jobs, number, place);
    }
    if forall|i: int| 0 <= i < jobs.len() ==> (#[trigger] jobs[i]).job_number != number {
        lemma_numbered_place_is(jobs, number, jobs.len() as int);
    }
}

/// The job that a process or a number belongs to is the first one with it; without one there is
/// no such place, and nothing ends.
pub proof fn law_finding_jobs(jobs: Seq<JobView>, place: int, number: usize, pid: u32)
    requires
        0 <= place <= jobs.len(),
    ensures
        (place < jobs.len() ==> jobs[place].pid == pid) && (forall|i: int|
            0 <= i < place ==> (#[trigger] jobs[i]).pid != pid) ==> process_place(jobs, pid)
            == place,
        (place < jobs.len() ==> jobs[place].job_number == number) && (forall|i: int|
            0 <= i < place ==> (#[trigger] jobs[i]).job_number != number) ==> numbered_place(
            jobs,
            number,
        ) == place,
        ended_at(jobs, jobs.len()) == jobs,
{
    if (place < jobs.len() ==> jobs[place].pid == pid) && (forall|i: int|
        0 <= i < place ==> (#[trigger] jobs[i]).pid != pid) {
        lemma_process_place_is(jobs, pid, place);
    }
    if (place < jobs.len() ==> jobs[place].job_number == number) && (forall|i: int|
        0 <= i < place ==> (#[trigger] jobs[i]).job_number != number) {
        lemma_numbered_place_is(jobs, number, place);
    }
}

/// The first job has the number one, and the next one has the number behind the highest.
pub proof fn law_numbers_follow(jobs: Seq<JobView>)
    ensures
        jobs.len() == 0 ==> next_number(jobs) == 1,
        jobs.len() > 0 ==> exists|i: int|
            0 <= i < jobs.len() && (#[trigger] jobs[i]).job_number + 1 == next_number(jobs),
{
    lemma_highest(jobs);
}

/// A job that has just been started runs, has the process and the name that it was given, and
/// nothing has been told of it.
pub proof fn law_started_jobs_run(number: usize, pid: u32, command: Seq<char>)
    ensures
        started(number, pid, command).job_number == number,
        started(number, pid, command).pid == pid,
        started(number, pid, command).command == command,
        started(number, pid, command).status == JobStatus::Running,
        !started(number, pid, command).notified,
{
}

/// Whether a text ends with another.
pub open spec fn ends_with(s: Seq<char>, end: Seq<char>) -> bool {
    end.len() <= s.len() && s.skip(s.len() - end.len()) == end
}

/// The line of a job begins with its number and its sign, says whether it runs or is done, and
/// ends with its command; that of one that runs has a `&` behind it.
pub proof fn law_lines_of_jobs(jobs: Seq<JobView>, job: JobView)
    ensures
        job.status == JobStatus::Running ==> text::begins_with(
            job_line(jobs, job),
            "["@ + numbers::decimal(job.job_number as nat) + "]<"@ + marker(jobs, job.job_number)
                + "> Running "@,
        ) && ends_with(job_line(jobs, job), " "@ + job.command + " &"@) && job_line(
            jobs,
            job,
        ).len() == numbers::decimal(job.job_number as nat).len() + job.command.len() + 25,
        job.status == JobStatus::Done ==> text::begins_with(
            job_line(jobs, job),
            "["@ + numbers::decimal(job.job_number as nat) + "]"@ + marker(jobs, job.job_number)
                + "  Done "@,
        ) && ends_with(job_line(jobs, job), " "@ + job.command) && job_line(jobs, job).len()
            == numbers::decimal(job.job_number as nat).len() + job.command.len() + 29,
{
    let line = job_line(jobs, job);
    let number = numbers::decimal(job.job_number as nat);
    let sign = marker(jobs, job.job_number);
    assert(sign.len() == 1) by {
        reveal_strlit("+");
        reveal_strlit("-");
        reveal_strlit(" ");
    }
    reveal_strlit("[");
    reveal_strlit(" ");
    if job.status == JobStatus::Running {
        reveal_strlit("]<");
        reveal_strlit("> Running          ");
        reveal_strlit("> Running ");
        reveal_strlit(" &");
        let begin = "["@ + number + "]<"@ + sign + "> Running "@;
        let end = " "@ + job.command + " &"@;
        assert(line.take(begin.len() as int) =~= begin);
        assert(line.skip(line.len() - end.len()) =~= end);
    } else {
        reveal_strlit("]");
        reveal_strlit("  Done                    ");
        reveal_strlit("  Done ");
        let begin = "["@ + number + "]"@ + sign + "  Done "@;
        let end = " "@ + job.command;
        assert(line.take(begin.len() as int) =~= begin);
        assert(line.skip(line.len() - end.len()) =~= end);
    }
}

/// The line that tells of a job begins with its number and its sign, says that it is done, and
/// ends with its command; the one for a job that has been started holds its number and its
/// process.
pub proof fn law_lines_that_tell_of_jobs(jobs: Seq<JobView>, job: JobView)
    ensures
        text::begins_with(
            notice(jobs, job),
            "["@ + numbers::decimal(job.job_number as nat) + "]"@ + marker(jobs, job.job_number)
                + " Done "@,
        ),
        ends_with(notice(jobs, job), " "@ + job.command),
        notice(jobs, job).len() == numbers::decimal(job.job_number as nat).len()
            + job.command.len() + 20,
        text::begins_with(
            start_notice(job.job_number as nat, job.pid as nat),
            "["@ + numbers::decimal(job.job_number as nat) + "]"@,
        ),
        ends_with(
            start_notice(job.job_number as nat, job.pid as nat),
            " "@ + numbers::decimal(job.pid as nat),
        ),
        start_notice(job.job_number as nat, job.pid as nat).len() == numbers::decimal(
            job.job_number as nat,
        ).len() + numbers::decimal(job.pid as nat).len() + 3,
{
    let number = numbers::decimal(job.job_number as nat);
    let pid = numbers::decimal(job.pid as nat);
    let sign = marker(jobs, job.job_number);
    assert(sign.len() == 1) by {
        reveal_strlit("+");
        reveal_strlit("-");
        reveal_strlit(" ");
    }
    reveal_strlit("[");
    reveal_strlit("]");
    reveal_strlit("] ");
    reveal_strlit(" ");
    reveal_strlit(" Done            ");
    reveal_strlit(" Done ");
    let line = notice(jobs, job);
    let begin = "["@ + number + "]"@ + sign + " Done "@;
    let end = " "@ + job.command;
    assert(line.take(begin.len() as int) =~= begin);
    assert(line.skip(line.len() - end.len()) =~= end);
    let start = start_notice(job.job_number as nat, job.pid as nat);
    let first = "["@ + number + "]"@;
    assert(start.take(first.len() as int) =~= first);
    assert(start.skip(start.len() - (" "@ + pid).len()) =~= " "@ + pid);
}

/// The list of the jobs has a line for each job, in the order of the jobs.
pub proof fn law_list_of_jobs(jobs: Seq<JobView>)
    ensures
        exists|shown: Seq<Seq<char>>|
            #![trigger text::joined(shown, "\n"@)]
            shown.len() == jobs.len() && jobs_text(jobs) == text::joined(shown, "\n"@) && forall|
                i: int,
            |
                0 <= i < jobs.len() ==> #[trigger] shown[i] == job_line(jobs, jobs[i]),
{
    let shown = jobs.map_values(|j: JobView| job_line(jobs, j));
    assert(jobs_text(jobs) == text::joined(shown, "\n"@));
}

proof fn lemma_filter_from<T>(s: Seq<T>, p: spec_fn(T) -> bool, i: int) -> (k: int)
    requires
        0 <= i < s.filter(p).len(),
    ensures
        0 <= k < s.len(),
        s[k] == s.filter(p)[i],
        p(s[k]),
    decreases s.len(),
{
    reveal_with_fuel(Seq::filter, 1);
    let before = s.drop_last();
    if i < before.filter(p).len() {
        let k = lemma_filter_from(before, p, i);
        assert(before[k] == s[k]);
        k
    } else {
        s.len() - 1
    }
}

/// Only of jobs that are done, and of which nothing has been told, something is told.
pub proof fn law_only_ended_jobs_are_told(jobs: Seq<JobView>, i: int)
    requires
        0 <= i < notices(jobs).len(),
    ensures
        exists|k: int|
            0 <= k < jobs.len() && (#[trigger] jobs[k]).status == JobStatus::Done
                && !jobs[k].notified && notices(jobs)[i] == notice(jobs, jobs[k]),
{
    let pick = |j: JobView| untold(j);
    let k = lemma_filter_from(jobs, pick, i);
    assert(jobs[k].status == JobStatus::Done);
}

} // verus!
