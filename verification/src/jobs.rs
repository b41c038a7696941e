//! The job table: the processes that run in the background, how they are
//! listed, and how those that have ended leave the table.

use crate::decimal::{decimal, push_decimal};
use vstd::prelude::*;
use vstd::string::*;

verus! {

/// A process that the shell started: its process identifier and the handle
/// through which its state is asked for.
pub struct Job<H> {
    pub pid: u32,
    pub handle: H,
}

/// What one non-blocking check of a process's state found.
pub enum Status {
    /// The process has not ended yet.
    Running,
    /// The process has ended.
    Exited,
    /// The state could not be asked for; the text says why.
    Failed(String),
}

/// A `Status`, with the text of a failure as a sequence of characters.
pub ghost enum StatusView {
    Running,
    Exited,
    Failed(Seq<char>),
}

impl View for Status {
    type V = StatusView;

    open spec fn view(&self) -> StatusView {
        match self {
            Status::Running => StatusView::Running,
            Status::Exited => StatusView::Exited,
            Status::Failed(message) => StatusView::Failed(message@),
        }
    }
}

impl DeepView for Status {
    type V = StatusView;

    open spec fn deep_view(&self) -> StatusView {
        self@
    }
}

/// The line that lists a job: its index in brackets, then its process
/// identifier.
pub open spec fn job_line(index: nat, pid: u32) -> Seq<char> {
    "["@ + decimal(index) + "] "@ + decimal(pid as nat)
}

/// The line that reports a job that has ended.
pub open spec fn done_line(index: nat, pid: u32) -> Seq<char> {
    job_line(index, pid) + " done"@
}

/// The line that announces a job that was sent to the background.
pub open spec fn started_line(pid: u32) -> Seq<char> {
    "["@ + decimal(pid as nat) + "]"@
}

/// The diagnostic for a state that could not be asked for.
pub open spec fn poll_failure(message: Seq<char>) -> Seq<char> {
    "Error collecting background process state "@ + message
}

/// One line for each job, numbered from 1 in the order of the table.
pub open spec fn listed<H>(jobs: Seq<Job<H>>) -> Seq<Seq<char>> {
    Seq::new(jobs.len(), |i: int| job_line((i + 1) as nat, jobs[i].pid))
}

/// Whether the check of the job at position `i` found that it has ended. A
/// job for which `statuses` holds nothing has not.
pub open spec fn ended(statuses: Seq<StatusView>, i: int) -> bool {
    0 <= i < statuses.len() && statuses[i] is Exited
}

/// Those of the first `n` jobs that have not ended, in their order.
pub open spec fn running<H>(jobs: Seq<Job<H>>, statuses: Seq<StatusView>, n: int) -> Seq<Job<H>>
    decreases n,
{
    if n <= 0 {
        Seq::empty()
    } else if ended(statuses, n - 1) {
        running(jobs, statuses, n - 1)
    } else {
        running(jobs, statuses, n - 1).push(jobs[n - 1])
    }
}

/// Those of the first `n` jobs that have ended, in their order.
pub open spec fn finished<H>(jobs: Seq<Job<H>>, statuses: Seq<StatusView>, n: int) -> Seq<Job<H>>
    decreases n,
{
    if n <= 0 {
        Seq::empty()
    } else if ended(statuses, n - 1) {
        finished(jobs, statuses, n - 1).push(jobs[n - 1])
    } else {
        finished(jobs, statuses, n - 1)
    }
}

/// One line for each of the first `n` jobs that has ended, with the index
/// that the job had in the table before any left it.
pub open spec fn done_lines<H>(jobs: Seq<Job<H>>, statuses: Seq<StatusView>, n: int) -> Seq<
    Seq<char>,
>
    decreases n,
{
    if n <= 0 {
        Seq::empty()
    } else if ended(statuses, n - 1) {
        done_lines(jobs, statuses, n - 1).push(done_line(n as nat, jobs[n - 1].pid))
    } else {
        done_lines(jobs, statuses, n - 1)
    }
}

/// One diagnostic for each of the first `n` jobs whose state could not be
/// asked for.
pub open spec fn failure_lines(statuses: Seq<StatusView>, n: int) -> Seq<Seq<char>>
    decreases n,
{
    if n <= 0 {
        Seq::empty()
    } else if n <= statuses.len() && statuses[n - 1] is Failed {
        failure_lines(statuses, n - 1).push(poll_failure(statuses[n - 1]->Failed_0))
    } else {
        failure_lines(statuses, n - 1)
    }
}

/// Whether `job` is among the first `n` of `jobs` at a position whose check
/// found that the job has ended, if `gone`, or did not find so, if not.
pub open spec fn among<H>(
    jobs: Seq<Job<H>>,
    statuses: Seq<StatusView>,
    n: int,
    job: Job<H>,
    gone: bool,
) -> bool {
    exists|i: int| 0 <= i < n && #[trigger] ended(statuses, i) == gone && jobs[i] == job
}

/// What a poll leaves of the first `n` jobs: every job is either left or
/// gone; those that are left are the ones that were not found ended, those
/// that are gone the ones that were; and each job that has ended is
/// reported once.
pub proof fn lemma_running_shape<H>(jobs: Seq<Job<H>>, statuses: Seq<StatusView>, n: int)
    requires
        0 <= n <= jobs.len(),
    ensures
        running(jobs, statuses, n).len() + finished(jobs, statuses, n).len() == n,
        finished(jobs, statuses, n).len() == done_lines(jobs, statuses, n).len(),
        forall|k: int|
            0 <= k < running(jobs, statuses, n).len() ==> among(
                jobs,
                statuses,
                n,
                #[trigger] running(jobs, statuses, n)[k],
                false,
            ),
        forall|k: int|
            0 <= k < finished(jobs, statuses, n).len() ==> among(
                jobs,
                statuses,
                n,
                #[trigger] finished(jobs, statuses, n)[k],
                true,
            ),
        forall|i: int|
            0 <= i < n && !ended(statuses, i) ==> running(jobs, statuses, n).contains(
                #[trigger] jobs[i],
            ),
        forall|i: int|
            0 <= i < n && ended(statuses, i) ==> finished(jobs, statuses, n).contains(
                #[trigger] jobs[i],
            ),
    decreases n,
{
    if n > 0 {
        lemma_running_shape(jobs, statuses, n - 1);
        let before = running(jobs, statuses, n - 1);
        let now = running(jobs, statuses, n);
        let gone_before = finished(jobs, statuses, n - 1);
        let gone = finished(jobs, statuses, n);
        assert forall|k: int| 0 <= k < now.len() implies among(
            jobs,
            statuses,
            n,
            #[trigger] now[k],
            false,
        ) by {
            if k < before.len() {
                assert(now[k] == before[k]);
                assert(among(jobs, statuses, n - 1, before[k], false));
                let i = choose|i: int|
                    0 <= i < n - 1 && #[trigger] ended(statuses, i) == false && jobs[i]
                        == before[k];
                assert(ended(statuses, i) == false && jobs[i] == now[k]);
            } else {
                assert(ended(statuses, n - 1) == false && jobs[n - 1] == now[k]);
            }
        }
        assert forall|k: int| 0 <= k < gone.len() implies among(
            jobs,
            statuses,
            n,
            #[trigger] gone[k],
            true,
        ) by {
            if k < gone_before.len() {
                assert(gone[k] == gone_before[k]);
                assert(among(jobs, statuses, n - 1, gone_before[k], true));
                let i = choose|i: int|
                    0 <= i < n - 1 && #[trigger] ended(statuses, i) == true && jobs[i]
                        == gone_before[k];
                assert(ended(statuses, i) == true && jobs[i] == gone[k]);
            } else {
                assert(ended(statuses, n - 1) == true && jobs[n - 1] == gone[k]);
            }
        }
        assert forall|i: int| 0 <= i < n && !ended(statuses, i) implies now.contains(
            #[trigger] jobs[i],
        ) by {
            if i < n - 1 {
                let k = choose|k: int| 0 <= k < before.len() && before[k] == jobs[i];
                assert(now[k] == jobs[i]);
            } else {
                assert(now[now.len() - 1] == jobs[i]);
            }
        }
        assert forall|i: int| 0 <= i < n && ended(statuses, i) implies gone.contains(
            #[trigger] jobs[i],
        ) by {
            if i < n - 1 {
                let k = choose|k: int| 0 <= k < gone_before.len() && gone_before[k] == jobs[i];
                assert(gone[k] == jobs[i]);
            } else {
                assert(gone[gone.len() - 1] == jobs[i]);
            }
        }
    }
}

/// A poll keeps the order of the jobs: a job that has not ended stands,
/// after the poll, behind as many jobs as stood before it and have not
/// ended either.
pub proof fn lemma_running_order<H>(jobs: Seq<Job<H>>, statuses: Seq<StatusView>, n: int, i: int)
    requires
        0 <= i < n <= jobs.len(),
        !ended(statuses, i),
    ensures
        running(jobs, statuses, i).len() < running(jobs, statuses, n).len(),
        running(jobs, statuses, n)[running(jobs, statuses, i).len() as int] == jobs[i],
    decreases n,
{
    if i < n - 1 {
        lemma_running_order(jobs, statuses, n - 1, i);
    }
}

/// The reports of a poll keep the order of the jobs, and name each job
/// that has ended by the index it had before the poll, counted from 1.
pub proof fn lemma_done_lines_order<H>(
    jobs: Seq<Job<H>>,
    statuses: Seq<StatusView>,
    n: int,
    i: int,
)
    requires
        0 <= i < n <= jobs.len(),
        ended(statuses, i),
    ensures
        done_lines(jobs, statuses, i).len() < done_lines(jobs, statuses, n).len(),
        done_lines(jobs, statuses, n)[done_lines(jobs, statuses, i).len() as int] == done_line(
            (i + 1) as nat,
            jobs[i].pid,
        ),
    decreases n,
{
    if i < n - 1 {
        lemma_done_lines_order(jobs, statuses, n - 1, i);
    }
}

/// After a poll the jobs that are left are listed under the indexes 1, 2
/// and so on, without a gap, in the order they had before: a job that has
/// not ended is listed under one more than the number of jobs that stood
/// before it and have not ended either.
pub proof fn theorem_jobs_are_renumbered<H>(jobs: Seq<Job<H>>, statuses: Seq<StatusView>, i: int)
    requires
        0 <= i < jobs.len(),
        !ended(statuses, i),
    ensures
        ({
            let left = running(jobs, statuses, jobs.len() as int);
            let rank = running(jobs, statuses, i).len() as int;
            &&& listed(left).len() == left.len()
            &&& left.len() <= jobs.len()
            &&& rank < left.len()
            &&& rank <= i
            &&& listed(left)[rank] == job_line((rank + 1) as nat, jobs[i].pid)
        }),
{
    lemma_running_order(jobs, statuses, jobs.len() as int, i);
    lemma_running_shape(jobs, statuses, jobs.len() as int);
    lemma_running_shape(jobs, statuses, i);
}

/// A poll that finds none of the first `n` jobs ended leaves them all, and
/// reports nothing.
pub proof fn lemma_all_running<H>(jobs: Seq<Job<H>>, statuses: Seq<StatusView>, n: int)
    requires
        0 <= n <= jobs.len(),
        forall|i: int| 0 <= i < n ==> !ended(statuses, i),
    ensures
        running(jobs, statuses, n) == jobs.take(n),
        finished(jobs, statuses, n) == Seq::<Job<H>>::empty(),
        done_lines(jobs, statuses, n) == Seq::<Seq<char>>::empty(),
    decreases n,
{
    if n > 0 {
        lemma_all_running(jobs, statuses, n - 1);
        assert(jobs.take(n) =~= jobs.take(n - 1).push(jobs[n - 1]));
    } else {
        assert(jobs.take(0) =~= Seq::<Job<H>>::empty());
    }
}

/// The jobs that left the table, and what is to be said of the poll.
pub struct Reaped<H> {
    /// The jobs that have ended, in the order they had in the table.
    pub finished: Vec<Job<H>>,
    /// One line for each job that has ended.
    pub reports: Vec<String>,
    /// One diagnostic for each job whose state could not be asked for.
    pub diagnostics: Vec<String>,
}

/// The processes that run in the background, in the order in which they
/// were sent there.
pub struct JobTable<H> {
    jobs: Vec<Job<H>>,
}

impl<H> View for JobTable<H> {
    type V = Seq<Job<H>>;

    closed spec fn view(&self) -> Seq<Job<H>> {
        self.jobs@
    }
}

/// The line that lists the job with process identifier `pid` under `index`.
pub fn format_job(index: u64, pid: u32) -> (line: String)
    ensures
        line@ == job_line(index as nat, pid),
{
    let mut line = String::from_str("[");
    push_decimal(&mut line, index);
    line.append("] ");
    push_decimal(&mut line, pid as u64);
    line
}

/// The line that announces that the process `pid` runs in the background.
pub fn format_started(pid: u32) -> (line: String)
    ensures
        line@ == started_line(pid),
{
    let mut line = String::from_str("[");
    push_decimal(&mut line, pid as u64);
    line.append("]");
    line
}

/// The line that reports that the job listed under `index` has ended.
pub fn format_done(index: u64, pid: u32) -> (line: String)
    ensures
        line@ == done_line(index as nat, pid),
{
    let mut line = format_job(index, pid);
    line.append(" done");
    line
}

/// The diagnostic for a process whose state could not be asked for;
/// `message` says why.
pub fn format_poll_failure(message: &str) -> (line: String)
    ensures
        line@ == poll_failure(message@),
{
    let mut line = String::from_str("Error collecting background process state ");
    line.append(message);
    line
}

impl<H> JobTable<H> {
    /// A table without jobs.
    pub fn new() -> (r: JobTable<H>)
        ensures
            r@ == Seq::<Job<H>>::empty(),
    {
        JobTable { jobs: Vec::new() }
    }

    /// The number of jobs.
    pub fn len(&self) -> (n: usize)
        ensures
            n == self@.len(),
    {
        self.jobs.len()
    }

    /// The process identifier of the job at position `i`.
    pub fn pid(&self, i: usize) -> (pid: u32)
        requires
            i < self@.len(),
        ensures
            pid == self@[i as int].pid,
    {
        self.jobs[i].pid
    }

    /// The handle of the job at position `i`, to ask for the job's state.
    pub fn handle_mut(&mut self, i: usize) -> (handle: &mut H)
        requires
            i < old(self)@.len(),
        ensures
            *handle == old(self)@[i as int].handle,
            final(self)@ == old(self)@.update(
                i as int,
                Job { pid: old(self)@[i as int].pid, handle: *final(handle) },
            ),
    {
        &mut self.jobs[i].handle
    }

    /// Records `job` as running in the background if the first check of its
    /// state found it running. A process that has ended by then, or whose
    /// state could not be asked for, is handed back and leaves no job.
    pub fn record(&mut self, job: Job<H>, status: &Status) -> (r: Option<Job<H>>)
        ensures
            status@ is Running ==> r is None && final(self)@ == old(self)@.push(job),
            !(status@ is Running) ==> r == Some(job) && final(self)@ == old(self)@,
    {
        match status {
            Status::Running => {
                self.jobs.push(job);
                None
            },
            _ => Some(job),
        }
    }

    /// The lines that list the jobs: `[index] pid`, the index counted
    /// from 1 in the order of the table.
    pub fn list(&self) -> (lines: Vec<String>)
        ensures
            lines.deep_view() == listed(self@),
    {
        let mut lines: Vec<String> = Vec::new();
        let mut i: usize = 0;
        while i < self.jobs.len()
            invariant
                i <= self.jobs.len(),
                lines.deep_view() == listed(self@).take(i as int),
            decreases self.jobs.len() - i,
        {
            let line = format_job(i as u64 + 1, self.jobs[i].pid);
            let ghost before = lines.deep_view();
            lines.push(line);
            assert(lines.deep_view() =~= before.push(line@));
            assert(lines.deep_view() =~= listed(self@).take(i + 1));
            i += 1;
        }
        assert(lines.deep_view() =~= listed(self@));
        lines
    }

    /// Takes out of the table the jobs that have ended. `statuses` holds, for
    /// each job in the order of the table, what the check of its state
    /// found. A job whose state could not be asked for stays, with a
    /// diagnostic; so does one for which `statuses` holds nothing.
    pub fn reap(&mut self, statuses: &Vec<Status>) -> (r: Reaped<H>)
        ensures
            final(self)@ == running(old(self)@, statuses.deep_view(), old(self)@.len() as int),
            r.finished@ == finished(old(self)@, statuses.deep_view(), old(self)@.len() as int),
            r.reports.deep_view() == done_lines(
                old(self)@,
                statuses.deep_view(),
                old(self)@.len() as int,
            ),
            r.diagnostics.deep_view() == failure_lines(
                statuses.deep_view(),
                old(self)@.len() as int,
            ),
    {
        let mut all: Vec<Job<H>> = Vec::new();
        std::mem::swap(&mut self.jobs, &mut all);
        let ghost jobs = all@;
        let count = all.len();
        let ghost found = statuses.deep_view();
        let mut gone: Vec<Job<H>> = Vec::new();
        let mut reports: Vec<String> = Vec::new();
        let mut diagnostics: Vec<String> = Vec::new();
        let mut i: usize = 0;
        for job in it: all.into_iter()
            invariant
                it.seq() == jobs,
                i == it.index(),
                jobs.len() == count,
                found == statuses.deep_view(),
                self.jobs@ == running(jobs, found, i as int),
                gone@ == finished(jobs, found, i as int),
                reports.deep_view() == done_lines(jobs, found, i as int),
                diagnostics.deep_view() == failure_lines(found, i as int),
        {
            assert(job == jobs[i as int]);
            let mut stays = true;
            if i < statuses.len() {
                assert(found[i as int] == statuses[i as int]@);
                match &statuses[i] {
                    Status::Running => {},
                    Status::Exited => {
                        stays = false;
                    },
                    Status::Failed(message) => {
                        let line = format_poll_failure(message.as_str());
                        let ghost before = diagnostics.deep_view();
                        diagnostics.push(line);
                        assert(diagnostics.deep_view() =~= before.push(line@));
                    },
                }
            }
            if stays {
                self.jobs.push(job);
            } else {
                let line = format_done(i as u64 + 1, job.pid);
                let ghost before = reports.deep_view();
                reports.push(line);
                assert(reports.deep_view() =~= before.push(line@));
                gone.push(job);
            }
            i += 1;
        }
        Reaped { finished: gone, reports, diagnostics }
    }
}

} // verus!
