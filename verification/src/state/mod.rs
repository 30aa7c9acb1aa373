//! The job manager: three queues of jobs, the loop that runs foreground
//! jobs, the reaper of background jobs, and the builtins `fg`, `bg` and
//! `jobs`.

use vstd::prelude::*;
use crate::state::jobs::builder::Environment;
use crate::state::jobs::builder;
use crate::state::jobs::{BuiltinHandler, Configuration, Error, Job, Run, Status, WaitState};
use crate::syntax::ast::{Expr, ExprView};
use crate::sys::Os;
use crate::sys;
use crate::text;

pub mod control;
pub mod drive;
pub mod jobs;

verus! {

/// A place in a queue: a job, and a ticket that no other place in any
/// queue shares. A job keeps its ticket while the manager moves it from
/// queue to queue: when `fg` and `bg` move it, when the reaper looks at
/// it, and when the foreground loop runs a job of programs only. A job
/// that comes from outside, or comes back after a builtin has run in
/// between, gets a new ticket.
pub struct Slot {
    pub ticket: Ghost<nat>,
    pub job: Job,
}

/// The jobs of a queue, in order.
pub open spec fn jobs_of(queue: Seq<Slot>) -> Seq<Job> {
    Seq::new(queue.len(), |i: int| queue[i].job)
}

/// No ticket occurs twice in the queue.
pub open spec fn unique(queue: Seq<Slot>) -> bool {
    forall|i: int, j: int| 0 <= i < j < queue.len() ==> queue[i].ticket@ != queue[j].ticket@
}

/// No ticket occurs in both queues.
pub open spec fn apart(a: Seq<Slot>, b: Seq<Slot>) -> bool {
    forall|i: int, j: int| 0 <= i < a.len() && 0 <= j < b.len() ==> a[i].ticket@ != b[j].ticket@
}

/// Every ticket of the queue has been issued.
pub open spec fn issued(queue: Seq<Slot>, next: nat) -> bool {
    forall|i: int| 0 <= i < queue.len() ==> (#[trigger] queue[i]).ticket@ < next
}

/// Every job of the queue is stopped.
pub open spec fn all_stopped(queue: Seq<Slot>) -> bool {
    forall|i: int| 0 <= i < queue.len() ==> (#[trigger] queue[i]).job.status.is_stopped()
}

/// Every job of the queue runs.
pub open spec fn all_running(queue: Seq<Slot>) -> bool {
    forall|i: int| 0 <= i < queue.len() ==> (#[trigger] queue[i]).job.status.is_running()
}

/// No job of the queue has been started.
pub open spec fn none_started(queue: Seq<Slot>) -> bool {
    forall|i: int| 0 <= i < queue.len() ==> (#[trigger] queue[i]).job.status is NotStarted
}

/// In every job of the queue that has not been started, nothing has been
/// started.
pub open spec fn idle_are_fresh(queue: Seq<Slot>) -> bool {
    forall|i: int|
        0 <= i < queue.len() ==> ((#[trigger] queue[i]).job.status is NotStarted
            ==> queue[i].job.fresh())
}

/// The job manager. `H` carries out the builtins that are not about jobs.
pub struct ShellState<H> {
    /// Jobs running in the background.
    pub background_jobs: Vec<Slot>,
    /// Jobs waiting to run in the foreground, first in first out.
    pub foreground_jobs: Vec<Slot>,
    /// Jobs that were stopped.
    pub stopped_jobs: Vec<Slot>,
    /// The process the foreground loop is waiting for.
    pub current_job_pid: Option<i32>,
    /// Processes that were killed because their job was given up while
    /// they were alive.
    pub killed: Vec<i32>,
    /// The next ticket to issue.
    pub next_ticket: Ghost<nat>,
    /// Carries out the builtins that are not about jobs.
    pub host: H,
}

/// What a job runs, as text: a command's name or path and its arguments
/// with single spaces between them, the two sides of a pipeline with
/// ` | ` between them.
pub open spec fn command_line(job: Job) -> Seq<char>
    decreases job,
{
    match job.configuration {
        Configuration::External(path, args, _) => text::joined(
            seq![path@] + text::views(args@),
            seq![' '],
        ),
        Configuration::Builtin(name, args, _) => text::joined(seq![name@] + text::views(args@), seq![' ']),
        Configuration::Pipeline(l, r) => command_line(*l) + seq![' ', '|', ' '] + command_line(*r),
    }
}

/// What a job runs, as text, see [`command_line`].
pub fn describe(job: &Job) -> (r: String)
    ensures
        r@ == command_line(*job),
    decreases job.height(),
{
    match &job.configuration {
        Configuration::External(path, args, _) => {
            let mut parts: Vec<String> = Vec::new();
            parts.push(path.clone());
            let mut rest = text::clone_strings(args.as_slice());
            parts.append(&mut rest);
            assert(text::views(parts@) =~= seq![path@] + text::views(args@));
            proof {
                reveal_strlit(" ");
                assert(" "@ =~= seq![' ']);
            }
            text::join(parts.as_slice(), " ")
        },
        Configuration::Builtin(name, args, _) => {
            let mut parts: Vec<String> = Vec::new();
            parts.push(name.clone());
            let mut rest = text::clone_strings(args.as_slice());
            parts.append(&mut rest);
            assert(text::views(parts@) =~= seq![name@] + text::views(args@));
            proof {
                reveal_strlit(" ");
                assert(" "@ =~= seq![' ']);
            }
            text::join(parts.as_slice(), " ")
        },
        Configuration::Pipeline(l, r) => {
            let mut s = describe(l);
            let right = describe(r);
            proof {
                reveal_strlit(" | ");
                assert(" | "@ =~= seq![' ', '|', ' ']);
            }
            s.append(" | ");
            s.append(right.as_str());
            s
        },
    }
}

/// The place of the first job of the queue whose process id is `pid`.
pub open spec fn first_with_pid(queue: Seq<Slot>, pid: i32) -> Option<int>
    decreases queue.len(),
{
    if queue.len() == 0 {
        None
    } else if queue[0].job.status.spec_pid() == Some(pid) {
        Some(0)
    } else {
        match first_with_pid(queue.drop_first(), pid) {
            Some(i) => Some(i + 1),
            None => None,
        }
    }
}

/// A place found in a queue lies in it, and the job there has the pid.
pub proof fn lemma_first_with_pid(queue: Seq<Slot>, pid: i32)
    ensures
        first_with_pid(queue, pid) matches Some(i) ==> 0 <= i < queue.len()
            && queue[i].job.status.spec_pid() == Some(pid),
    decreases queue.len(),
{
    if queue.len() > 0 && queue[0].job.status.spec_pid() != Some(pid) {
        lemma_first_with_pid(queue.drop_first(), pid);
    }
}

/// The place of the first job of the queue whose process id is `pid`.
pub fn find_job_by_pid(queue: &[Slot], pid: i32) -> (r: Option<usize>)
    ensures
        match r {
            Some(i) => first_with_pid(queue@, pid) == Some(i as int) && i < queue@.len(),
            None => first_with_pid(queue@, pid) is None,
        },
{
    let mut i: usize = 0;
    assert(queue@.skip(0) =~= queue@);
    while i < queue.len()
        invariant
            i <= queue.len(),
            first_with_pid(queue@, pid) == match first_with_pid(queue@.skip(i as int), pid) {
                Some(k) => Some(k + i),
                None => None,
            },
        decreases queue.len() - i,
    {
        assert(queue@.skip(i as int).drop_first() =~= queue@.skip(i + 1));
        assert(queue@.skip(i as int)[0] == queue@[i as int]);
        match queue[i].job.status.pid() {
            Some(p) => {
                if p == pid {
                    return Some(i);
                }
            },
            None => {},
        }
        i += 1;
    }
    None
}

/// The greatest process id among the started jobs of the queue.
pub open spec fn greatest_pid(queue: Seq<Slot>) -> Option<i32>
    decreases queue.len(),
{
    if queue.len() == 0 {
        None
    } else {
        let before = greatest_pid(queue.drop_last());
        match queue.last().job.status.spec_pid() {
            None => before,
            Some(p) => match before {
                None => Some(p),
                Some(m) => if p > m {
                    Some(p)
                } else {
                    Some(m)
                },
            },
        }
    }
}

/// The greatest process id among the started jobs of the queue, `None`
/// where none has been started.
pub fn max_job_pid(queue: &[Slot]) -> (r: Option<i32>)
    ensures
        r == greatest_pid(queue@),
{
    let mut max: Option<i32> = None;
    let mut i: usize = 0;
    assert(queue@.take(0) =~= Seq::<Slot>::empty());
    while i < queue.len()
        invariant
            i <= queue.len(),
            max == greatest_pid(queue@.take(i as int)),
        decreases queue.len() - i,
    {
        assert(queue@.take(i + 1).drop_last() =~= queue@.take(i as int));
        assert(queue@.take(i + 1).last() == queue@[i as int]);
        match queue[i].job.status.pid() {
            None => {},
            Some(p) => {
                max = match max {
                    None => Some(p),
                    Some(m) => if p > m {
                        Some(p)
                    } else {
                        Some(m)
                    },
                };
            },
        }
        i += 1;
    }
    assert(queue@.take(queue.len() as int) =~= queue@);
    max
}

/// Which job `fg` or `bg` is about: the one named by the argument where it
/// is a number; without an argument the stopped job with the greatest
/// process id, and for `fg`, where nothing is stopped, the background job
/// with the greatest process id.
pub open spec fn target_pid(
    foreground: bool,
    argument: Option<Seq<char>>,
    stopped: Seq<Slot>,
    background: Seq<Slot>,
) -> Option<i32> {
    match argument {
        Some(a) => text::parsed_decimal(a),
        None => match greatest_pid(stopped) {
            Some(p) => Some(p),
            None => if foreground {
                greatest_pid(background)
            } else {
                None
            },
        },
    }
}

impl<H: BuiltinHandler> ShellState<H> {
    /// No ticket occurs twice, within a queue or across queues, and every
    /// ticket has been issued: a job is in at most one place.
    pub open spec fn queues_disjoint(&self) -> bool {
        &&& unique(self.foreground_jobs@)
        &&& unique(self.background_jobs@)
        &&& unique(self.stopped_jobs@)
        &&& apart(self.foreground_jobs@, self.background_jobs@)
        &&& apart(self.foreground_jobs@, self.stopped_jobs@)
        &&& apart(self.background_jobs@, self.stopped_jobs@)
        &&& issued(self.foreground_jobs@, self.next_ticket@)
        &&& issued(self.background_jobs@, self.next_ticket@)
        &&& issued(self.stopped_jobs@, self.next_ticket@)
    }

    /// What the manager holds of itself between calls: a job is in at most
    /// one place; every background job is on record as running and every
    /// job in the queue of stopped jobs as stopped; a job that waits to
    /// run and has not been started is untouched throughout; and the host
    /// is ready.
    pub open spec fn wf(&self) -> bool {
        &&& self.queues_disjoint()
        &&& all_running(self.background_jobs@)
        &&& all_stopped(self.stopped_jobs@)
        &&& idle_are_fresh(self.foreground_jobs@)
        &&& self.host.ready()
    }

    /// A manager without jobs.
    pub fn new(host: H) -> (state: ShellState<H>)
        requires
            host.ready(),
        ensures
            state.wf(),
            state.foreground_jobs@.len() == 0,
            state.background_jobs@.len() == 0,
            state.stopped_jobs@.len() == 0,
            state.current_job_pid is None,
            state.host == host,
    {
        ShellState {
            background_jobs: Vec::new(),
            foreground_jobs: Vec::new(),
            stopped_jobs: Vec::new(),
            current_job_pid: None,
            killed: Vec::new(),
            next_ticket: Ghost(0),
            host,
        }
    }

    fn issue(&mut self, job: Job) -> (slot: Slot)
        requires
            old(self).wf(),
        ensures
            final(self).wf(),
            slot.job == job,
            slot.ticket@ < final(self).next_ticket@,
            slot.ticket@ == old(self).next_ticket@,
            final(self).foreground_jobs == old(self).foreground_jobs,
            final(self).background_jobs == old(self).background_jobs,
            final(self).stopped_jobs == old(self).stopped_jobs,
            final(self).current_job_pid == old(self).current_job_pid,
            final(self).killed == old(self).killed,
            final(self).host == old(self).host,
    {
        let slot = Slot { ticket: Ghost(self.next_ticket@), job };
        self.next_ticket = Ghost(self.next_ticket@ + 1);
        slot
    }

    /// Puts a job at the end of the queue of stopped jobs.
    pub fn push_stopped(&mut self, job: Job)
        requires
            old(self).wf(),
            job.status.is_stopped(),
        ensures
            final(self).wf(),
            jobs_of(final(self).stopped_jobs@) == jobs_of(old(self).stopped_jobs@).push(job),
            final(self).foreground_jobs == old(self).foreground_jobs,
            final(self).background_jobs == old(self).background_jobs,
            final(self).current_job_pid == old(self).current_job_pid,
            final(self).killed == old(self).killed,
            final(self).host == old(self).host,
    {
        let slot = self.issue(job);
        self.stopped_jobs.push(slot);
        assert(jobs_of(self.stopped_jobs@) =~= jobs_of(old(self).stopped_jobs@).push(job));
    }

    /// Puts a job that runs at the end of the queue of background jobs.
    pub fn push_background(&mut self, job: Job)
        requires
            old(self).wf(),
            job.status.is_running(),
        ensures
            final(self).wf(),
            jobs_of(final(self).background_jobs@) == jobs_of(old(self).background_jobs@).push(job),
            final(self).foreground_jobs == old(self).foreground_jobs,
            final(self).stopped_jobs == old(self).stopped_jobs,
            final(self).current_job_pid == old(self).current_job_pid,
            final(self).killed == old(self).killed,
            final(self).host == old(self).host,
            all_running(old(self).background_jobs@) && job.status.is_running() ==> all_running(
                final(self).background_jobs@,
            ),
    {
        let slot = self.issue(job);
        self.background_jobs.push(slot);
        assert(jobs_of(self.background_jobs@) =~= jobs_of(old(self).background_jobs@).push(job));
    }

    /// Puts a job at the end of the queue of jobs that wait to run.
    pub fn push_foreground(&mut self, job: Job)
        requires
            old(self).wf(),
            job.status is NotStarted ==> job.fresh(),
        ensures
            final(self).wf(),
            jobs_of(final(self).foreground_jobs@) == jobs_of(old(self).foreground_jobs@).push(job),
            final(self).background_jobs == old(self).background_jobs,
            final(self).stopped_jobs == old(self).stopped_jobs,
            final(self).current_job_pid == old(self).current_job_pid,
            final(self).killed == old(self).killed,
            final(self).host == old(self).host,
            none_started(old(self).foreground_jobs@) && job.status is NotStarted ==> none_started(
                final(self).foreground_jobs@,
            ),
    {
        let slot = self.issue(job);
        self.foreground_jobs.push(slot);
        assert(jobs_of(self.foreground_jobs@) =~= jobs_of(old(self).foreground_jobs@).push(job));
    }

    /// Puts a job at the head of the queue of jobs that wait to run.
    pub fn push_foreground_first(&mut self, job: Job)
        requires
            old(self).wf(),
            job.status is NotStarted ==> job.fresh(),
        ensures
            final(self).wf(),
            jobs_of(final(self).foreground_jobs@) == seq![job] + jobs_of(old(self).foreground_jobs@),
            final(self).background_jobs == old(self).background_jobs,
            final(self).stopped_jobs == old(self).stopped_jobs,
            final(self).current_job_pid == old(self).current_job_pid,
            final(self).killed == old(self).killed,
            final(self).host == old(self).host,
    {
        let slot = self.issue(job);
        let ghost before = self.foreground_jobs@;
        self.foreground_jobs.insert(0, slot);
        assert(self.foreground_jobs@ =~= seq![slot] + before);
        assert(forall|i: int| 1 <= i < self.foreground_jobs@.len() ==> self.foreground_jobs@[i] == before[i - 1]);
        assert(jobs_of(self.foreground_jobs@) =~= seq![job] + jobs_of(before));
    }

    /// Puts a stopped job at place `index` of the queue of stopped jobs.
    pub fn put_stopped(&mut self, index: usize, job: Job)
        requires
            old(self).wf(),
            job.status.is_stopped(),
            index <= old(self).stopped_jobs@.len(),
        ensures
            final(self).wf(),
            jobs_of(final(self).stopped_jobs@) == jobs_of(old(self).stopped_jobs@).insert(index as int, job),
            final(self).foreground_jobs == old(self).foreground_jobs,
            final(self).background_jobs == old(self).background_jobs,
            final(self).current_job_pid == old(self).current_job_pid,
            final(self).killed == old(self).killed,
            final(self).host == old(self).host,
    {
        let slot = self.issue(job);
        let ghost before = self.stopped_jobs@;
        self.stopped_jobs.insert(index, slot);
        assert(self.stopped_jobs@ =~= before.insert(index as int, slot));
        assert(forall|i: int| 0 <= i < index ==> self.stopped_jobs@[i] == before[i]);
        assert(forall|i: int| index < i < self.stopped_jobs@.len() ==> self.stopped_jobs@[i] == before[i - 1]);
        assert(jobs_of(self.stopped_jobs@) =~= jobs_of(before).insert(index as int, job));
    }

    /// Takes the job at the head of the queue of jobs that wait to run.
    fn take_foreground(&mut self) -> (r: Option<Job>)
        requires
            old(self).wf(),
        ensures
            final(self).wf(),
            match r {
                Some(job) => {
                    &&& old(self).foreground_jobs@.len() > 0
                    &&& job == old(self).foreground_jobs@[0].job
                    &&& jobs_of(final(self).foreground_jobs@) == jobs_of(old(self).foreground_jobs@).drop_first()
                    &&& (job.status is NotStarted ==> job.fresh())
                },
                None => old(self).foreground_jobs@.len() == 0 && final(self).foreground_jobs
                    == old(self).foreground_jobs,
            },
            final(self).background_jobs == old(self).background_jobs,
            final(self).stopped_jobs == old(self).stopped_jobs,
            final(self).current_job_pid == old(self).current_job_pid,
            final(self).killed == old(self).killed,
            final(self).host == old(self).host,
            final(self).next_ticket == old(self).next_ticket,
    {
        if self.foreground_jobs.len() == 0 {
            None
        } else {
            let ghost before = self.foreground_jobs@;
            let slot = self.foreground_jobs.remove(0);
            assert(self.foreground_jobs@ =~= before.drop_first());
            assert(forall|i: int| 0 <= i < self.foreground_jobs@.len() ==> self.foreground_jobs@[i] == before[i + 1]);
            assert(jobs_of(self.foreground_jobs@) =~= jobs_of(before).drop_first());
            Some(slot.job)
        }
    }

    /// Takes the job at the head of the queue of jobs that wait to run,
    /// with its ticket.
    pub(crate) fn take_foreground_slot(&mut self) -> (r: Option<(Job, Ghost<nat>)>)
        requires
            old(self).wf(),
        ensures
            final(self).wf(),
            match r {
                Some((job, ticket)) => {
                    &&& old(self).foreground_jobs@.len() > 0
                    &&& job == old(self).foreground_jobs@[0].job
                    &&& ticket@ == old(self).foreground_jobs@[0].ticket@
                    &&& final(self).free(ticket@)
                    &&& final(self).foreground_jobs@ == old(self).foreground_jobs@.drop_first()
                    &&& jobs_of(final(self).foreground_jobs@) == jobs_of(old(self).foreground_jobs@).drop_first()
                    &&& (job.status is NotStarted ==> job.fresh())
                },
                None => old(self).foreground_jobs@.len() == 0 && final(self).foreground_jobs
                    == old(self).foreground_jobs,
            },
            final(self).background_jobs == old(self).background_jobs,
            final(self).stopped_jobs == old(self).stopped_jobs,
            final(self).current_job_pid == old(self).current_job_pid,
            final(self).killed == old(self).killed,
            final(self).host == old(self).host,
            final(self).next_ticket == old(self).next_ticket,
    {
        if self.foreground_jobs.len() == 0 {
            None
        } else {
            let ghost before = self.foreground_jobs@;
            let slot = self.foreground_jobs.remove(0);
            proof {
                assert(self.foreground_jobs@ =~= before.drop_first());
                assert(forall|i: int| 0 <= i < self.foreground_jobs@.len() ==> self.foreground_jobs@[i] == before[i + 1]);
                assert(jobs_of(self.foreground_jobs@) =~= jobs_of(before).drop_first());
                assert(before[0] == slot);
            }
            Some((slot.job, slot.ticket))
        }
    }

    /// The ticket a job that comes back to a queue goes under: the ticket
    /// it had where `keep` says so, else a new one.
    pub(crate) fn keep_or_issue(&mut self, Ghost(ticket): Ghost<nat>, Ghost(keep): Ghost<bool>) -> (r: Ghost<nat>)
        requires
            old(self).wf(),
            keep ==> old(self).free(ticket),
        ensures
            final(self).wf(),
            final(self).free(r@),
            keep ==> r@ == ticket && final(self).next_ticket == old(self).next_ticket,
            final(self).foreground_jobs == old(self).foreground_jobs,
            final(self).background_jobs == old(self).background_jobs,
            final(self).stopped_jobs == old(self).stopped_jobs,
            final(self).current_job_pid == old(self).current_job_pid,
            final(self).killed == old(self).killed,
            final(self).host == old(self).host,
    {
        let r = Ghost(
            if keep {
                ticket
            } else {
                self.next_ticket@
            },
        );
        self.next_ticket = Ghost(
            if keep {
                self.next_ticket@
            } else {
                self.next_ticket@ + 1
            },
        );
        r
    }

    /// Puts a stopped job at the end of the queue of stopped jobs, under
    /// the ticket it had where `keep` says so.
    pub(crate) fn push_stopped_under(&mut self, job: Job, Ghost(ticket): Ghost<nat>, Ghost(keep): Ghost<bool>)
        requires
            old(self).wf(),
            job.status.is_stopped(),
            keep ==> old(self).free(ticket),
        ensures
            final(self).wf(),
            jobs_of(final(self).stopped_jobs@) == jobs_of(old(self).stopped_jobs@).push(job),
            final(self).stopped_jobs@.len() == old(self).stopped_jobs@.len() + 1,
            final(self).stopped_jobs@.drop_last() == old(self).stopped_jobs@,
            final(self).stopped_jobs@.last().job == job,
            keep ==> final(self).stopped_jobs@.last().ticket@ == ticket && final(self).next_ticket == old(
                self,
            ).next_ticket,
            final(self).foreground_jobs == old(self).foreground_jobs,
            final(self).background_jobs == old(self).background_jobs,
            final(self).current_job_pid == old(self).current_job_pid,
            final(self).killed == old(self).killed,
            final(self).host == old(self).host,
    {
        let under = self.keep_or_issue(Ghost(ticket), Ghost(keep));
        let end = self.stopped_jobs.len();
        self.put_stopped_as(end, job, under);
        proof {
            assert(self.stopped_jobs@ =~= old(self).stopped_jobs@.push((Slot { ticket: under, job })));
            assert(self.stopped_jobs@.drop_last() =~= old(self).stopped_jobs@);
            assert(jobs_of(self.stopped_jobs@) =~= jobs_of(old(self).stopped_jobs@).push(job));
        }
    }

    /// Issues a ticket for a job that comes to the manager from outside.
    pub(crate) fn fresh_ticket(&mut self) -> (ticket: Ghost<nat>)
        requires
            old(self).wf(),
        ensures
            final(self).wf(),
            final(self).free(ticket@),
            ticket@ == old(self).next_ticket@,
            final(self).foreground_jobs == old(self).foreground_jobs,
            final(self).background_jobs == old(self).background_jobs,
            final(self).stopped_jobs == old(self).stopped_jobs,
            final(self).current_job_pid == old(self).current_job_pid,
            final(self).killed == old(self).killed,
            final(self).host == old(self).host,
    {
        let ticket = Ghost(self.next_ticket@);
        self.next_ticket = Ghost(self.next_ticket@ + 1);
        ticket
    }

    /// The ticket has been issued and is in no queue: the ticket of a job
    /// that the manager has in hand while it moves it.
    pub open spec fn free(&self, ticket: nat) -> bool {
        &&& ticket < self.next_ticket@
        &&& !holds_ticket(self.foreground_jobs@, ticket)
        &&& !holds_ticket(self.background_jobs@, ticket)
        &&& !holds_ticket(self.stopped_jobs@, ticket)
    }

    /// Takes the job at place `index` of the queue of stopped jobs, with
    /// its ticket.
    pub(crate) fn take_stopped_slot(&mut self, index: usize) -> (r: (Job, Ghost<nat>))
        requires
            old(self).wf(),
            index < old(self).stopped_jobs@.len(),
        ensures
            final(self).wf(),
            r.0 == old(self).stopped_jobs@[index as int].job,
            r.1@ == old(self).stopped_jobs@[index as int].ticket@,
            r.0.status.is_stopped(),
            final(self).free(r.1@),
            final(self).stopped_jobs@ == old(self).stopped_jobs@.remove(index as int),
            jobs_of(final(self).stopped_jobs@) == jobs_of(old(self).stopped_jobs@).remove(index as int),
            final(self).foreground_jobs == old(self).foreground_jobs,
            final(self).background_jobs == old(self).background_jobs,
            final(self).current_job_pid == old(self).current_job_pid,
            final(self).killed == old(self).killed,
            final(self).host == old(self).host,
            final(self).next_ticket == old(self).next_ticket,
    {
        let ghost before = self.stopped_jobs@;
        let slot = self.stopped_jobs.remove(index);
        proof {
            assert(self.stopped_jobs@ =~= before.remove(index as int));
            assert(forall|i: int| 0 <= i < index ==> self.stopped_jobs@[i] == before[i]);
            assert(forall|i: int| index <= i < self.stopped_jobs@.len() ==> self.stopped_jobs@[i] == before[i + 1]);
            assert(jobs_of(self.stopped_jobs@) =~= jobs_of(before).remove(index as int));
            assert(before[index as int] == slot);
        }
        (slot.job, slot.ticket)
    }

    /// Takes the job at place `index` of the queue of background jobs,
    /// with its ticket.
    pub(crate) fn take_background_slot(&mut self, index: usize) -> (r: (Job, Ghost<nat>))
        requires
            old(self).wf(),
            index < old(self).background_jobs@.len(),
        ensures
            final(self).wf(),
            r.0 == old(self).background_jobs@[index as int].job,
            r.1@ == old(self).background_jobs@[index as int].ticket@,
            r.0.status.is_running(),
            final(self).free(r.1@),
            final(self).background_jobs@ == old(self).background_jobs@.remove(index as int),
            jobs_of(final(self).background_jobs@) == jobs_of(old(self).background_jobs@).remove(index as int),
            final(self).foreground_jobs == old(self).foreground_jobs,
            final(self).stopped_jobs == old(self).stopped_jobs,
            final(self).current_job_pid == old(self).current_job_pid,
            final(self).killed == old(self).killed,
            final(self).host == old(self).host,
            final(self).next_ticket == old(self).next_ticket,
    {
        let ghost before = self.background_jobs@;
        let slot = self.background_jobs.remove(index);
        proof {
            assert(self.background_jobs@ =~= before.remove(index as int));
            assert(forall|i: int| 0 <= i < index ==> self.background_jobs@[i] == before[i]);
            assert(forall|i: int| index <= i < self.background_jobs@.len() ==> self.background_jobs@[i] == before[i + 1]);
            assert(jobs_of(self.background_jobs@) =~= jobs_of(before).remove(index as int));
            assert(before[index as int] == slot);
        }
        (slot.job, slot.ticket)
    }

    /// Puts a job that the manager has in hand at the head of the queue
    /// of jobs that wait to run, under the ticket it had.
    pub(crate) fn put_foreground_first_as(&mut self, job: Job, Ghost(ticket): Ghost<nat>)
        requires
            old(self).wf(),
            old(self).free(ticket),
            job.status is NotStarted ==> job.fresh(),
        ensures
            final(self).wf(),
            final(self).foreground_jobs@ == seq![(Slot { ticket: Ghost(ticket), job })] + old(self).foreground_jobs@,
            jobs_of(final(self).foreground_jobs@) == seq![job] + jobs_of(old(self).foreground_jobs@),
            final(self).background_jobs == old(self).background_jobs,
            final(self).stopped_jobs == old(self).stopped_jobs,
            final(self).current_job_pid == old(self).current_job_pid,
            final(self).killed == old(self).killed,
            final(self).host == old(self).host,
            final(self).next_ticket == old(self).next_ticket,
    {
        let slot = Slot { ticket: Ghost(ticket), job };
        let ghost before = self.foreground_jobs@;
        self.foreground_jobs.insert(0, slot);
        proof {
            assert(self.foreground_jobs@ =~= seq![slot] + before);
            assert(forall|i: int| 1 <= i < self.foreground_jobs@.len() ==> self.foreground_jobs@[i] == before[i - 1]);
            assert(jobs_of(self.foreground_jobs@) =~= seq![job] + jobs_of(before));
            assert(forall|i: int| 0 <= i < before.len() ==> holds_ticket(before, (#[trigger] before[i]).ticket@));
        }
    }

    /// Puts a job that the manager has in hand at the end of the queue of
    /// background jobs, under the ticket it had.
    pub(crate) fn put_background_as(&mut self, job: Job, Ghost(ticket): Ghost<nat>)
        requires
            old(self).wf(),
            old(self).free(ticket),
            job.status.is_running(),
        ensures
            final(self).wf(),
            final(self).background_jobs@ == old(self).background_jobs@.push((Slot { ticket: Ghost(ticket), job })),
            jobs_of(final(self).background_jobs@) == jobs_of(old(self).background_jobs@).push(job),
            final(self).foreground_jobs == old(self).foreground_jobs,
            final(self).stopped_jobs == old(self).stopped_jobs,
            final(self).current_job_pid == old(self).current_job_pid,
            final(self).killed == old(self).killed,
            final(self).host == old(self).host,
            final(self).next_ticket == old(self).next_ticket,
    {
        let slot = Slot { ticket: Ghost(ticket), job };
        let ghost before = self.background_jobs@;
        self.background_jobs.push(slot);
        proof {
            assert(jobs_of(self.background_jobs@) =~= jobs_of(before).push(job));
            assert(forall|i: int| 0 <= i < before.len() ==> holds_ticket(before, (#[trigger] before[i]).ticket@));
            assert(forall|i: int|
                0 <= i < old(self).foreground_jobs@.len() ==> holds_ticket(
                    old(self).foreground_jobs@,
                    (#[trigger] old(self).foreground_jobs@[i]).ticket@,
                ));
            assert(forall|i: int|
                0 <= i < old(self).stopped_jobs@.len() ==> holds_ticket(
                    old(self).stopped_jobs@,
                    (#[trigger] old(self).stopped_jobs@[i]).ticket@,
                ));
        }
    }

    /// Puts a stopped job that the manager has in hand at place `index`
    /// of the queue of stopped jobs, under the ticket it had.
    pub(crate) fn put_stopped_as(&mut self, index: usize, job: Job, Ghost(ticket): Ghost<nat>)
        requires
            old(self).wf(),
            old(self).free(ticket),
            job.status.is_stopped(),
            index <= old(self).stopped_jobs@.len(),
        ensures
            final(self).wf(),
            final(self).stopped_jobs@ == old(self).stopped_jobs@.insert(
                index as int,
                (Slot { ticket: Ghost(ticket), job }),
            ),
            jobs_of(final(self).stopped_jobs@) == jobs_of(old(self).stopped_jobs@).insert(index as int, job),
            final(self).foreground_jobs == old(self).foreground_jobs,
            final(self).background_jobs == old(self).background_jobs,
            final(self).current_job_pid == old(self).current_job_pid,
            final(self).killed == old(self).killed,
            final(self).host == old(self).host,
            final(self).next_ticket == old(self).next_ticket,
    {
        let slot = Slot { ticket: Ghost(ticket), job };
        let ghost before = self.stopped_jobs@;
        self.stopped_jobs.insert(index, slot);
        proof {
            assert(self.stopped_jobs@ =~= before.insert(index as int, slot));
            assert(forall|i: int| 0 <= i < index ==> self.stopped_jobs@[i] == before[i]);
            assert(forall|i: int| index < i < self.stopped_jobs@.len() ==> self.stopped_jobs@[i] == before[i - 1]);
            assert(jobs_of(self.stopped_jobs@) =~= jobs_of(before).insert(index as int, job));
            assert(forall|i: int| 0 <= i < before.len() ==> holds_ticket(before, (#[trigger] before[i]).ticket@));
            assert(forall|i: int|
                0 <= i < old(self).foreground_jobs@.len() ==> holds_ticket(
                    old(self).foreground_jobs@,
                    (#[trigger] old(self).foreground_jobs@[i]).ticket@,
                ));
            assert(forall|i: int|
                0 <= i < old(self).background_jobs@.len() ==> holds_ticket(
                    old(self).background_jobs@,
                    (#[trigger] old(self).background_jobs@[i]).ticket@,
                ));
        }
    }

    /// Gives a job up: what is alive of it is killed, and the processes
    /// that took the signal are noted after those noted before.
    fn give_up(&mut self, job: Job)
        requires
            old(self).wf(),
        ensures
            final(self).wf(),
            final(self).next_ticket == old(self).next_ticket,
            final(self).killed@.len() >= old(self).killed@.len(),
            final(self).killed@.take(old(self).killed@.len() as int) == old(self).killed@,
            forall|k: int|
                old(self).killed@.len() <= k < final(self).killed@.len() ==> job.spec_live_pids().contains(
                    #[trigger] final(self).killed@[k],
                ),
            final(self).foreground_jobs == old(self).foreground_jobs,
            final(self).background_jobs == old(self).background_jobs,
            final(self).stopped_jobs == old(self).stopped_jobs,
            final(self).current_job_pid == old(self).current_job_pid,
            final(self).host == old(self).host,
    {
        let mut killed = job.finalise();
        let ghost taken = killed@;
        self.killed.append(&mut killed);
        assert(self.killed@.take(old(self).killed@.len() as int) =~= old(self).killed@);
        assert forall|k: int| old(self).killed@.len() <= k < self.killed@.len() implies job.spec_live_pids().contains(
            #[trigger] self.killed@[k],
        ) by {
            assert(self.killed@[k] == taken[k - old(self).killed@.len()]);
        }
    }
}


/// A ticket is in the queue.
pub open spec fn holds_ticket(queue: Seq<Slot>, ticket: nat) -> bool {
    exists|i: int| 0 <= i < queue.len() && (#[trigger] queue[i]).ticket@ == ticket
}

/// In a well-formed manager a place is in at most one of the three queues,
/// and in that queue once.
pub proof fn law_queues_disjoint<H: BuiltinHandler>(state: ShellState<H>, ticket: nat)
    requires
        state.wf(),
    ensures
        !(holds_ticket(state.foreground_jobs@, ticket) && holds_ticket(state.background_jobs@, ticket)),
        !(holds_ticket(state.foreground_jobs@, ticket) && holds_ticket(state.stopped_jobs@, ticket)),
        !(holds_ticket(state.background_jobs@, ticket) && holds_ticket(state.stopped_jobs@, ticket)),
        forall|i: int, j: int|
            0 <= i < state.foreground_jobs@.len() && 0 <= j < state.foreground_jobs@.len()
                && state.foreground_jobs@[i].ticket@ == ticket && state.foreground_jobs@[j].ticket@
                == ticket ==> i == j,
        forall|i: int, j: int|
            0 <= i < state.background_jobs@.len() && 0 <= j < state.background_jobs@.len()
                && state.background_jobs@[i].ticket@ == ticket && state.background_jobs@[j].ticket@
                == ticket ==> i == j,
        forall|i: int, j: int|
            0 <= i < state.stopped_jobs@.len() && 0 <= j < state.stopped_jobs@.len()
                && state.stopped_jobs@[i].ticket@ == ticket && state.stopped_jobs@[j].ticket@
                == ticket ==> i == j,
{
    assert forall|i: int, j: int|
        0 <= i < state.foreground_jobs@.len() && 0 <= j < state.foreground_jobs@.len()
            && state.foreground_jobs@[i].ticket@ == ticket && state.foreground_jobs@[j].ticket@
            == ticket implies i == j by {
        if i < j {
            assert(state.foreground_jobs@[i].ticket@ != state.foreground_jobs@[j].ticket@);
        } else if j < i {
            assert(state.foreground_jobs@[j].ticket@ != state.foreground_jobs@[i].ticket@);
        }
    }
    assert forall|i: int, j: int|
        0 <= i < state.background_jobs@.len() && 0 <= j < state.background_jobs@.len()
            && state.background_jobs@[i].ticket@ == ticket && state.background_jobs@[j].ticket@
            == ticket implies i == j by {
        if i < j {
            assert(state.background_jobs@[i].ticket@ != state.background_jobs@[j].ticket@);
        } else if j < i {
            assert(state.background_jobs@[j].ticket@ != state.background_jobs@[i].ticket@);
        }
    }
    assert forall|i: int, j: int|
        0 <= i < state.stopped_jobs@.len() && 0 <= j < state.stopped_jobs@.len()
            && state.stopped_jobs@[i].ticket@ == ticket && state.stopped_jobs@[j].ticket@
            == ticket implies i == j by {
        if i < j {
            assert(state.stopped_jobs@[i].ticket@ != state.stopped_jobs@[j].ticket@);
        } else if j < i {
            assert(state.stopped_jobs@[j].ticket@ != state.stopped_jobs@[i].ticket@);
        }
    }
}

} // verus!
