//! Driving jobs: taking in a command, running the foreground jobs, and
//! reaping the background jobs.

use vstd::prelude::*;
use crate::state::jobs::builder::Environment;
use crate::state::jobs::builder;
use crate::state::jobs::run::{lemma_same_plan_reflexive, lemma_same_plan_transitive};
use crate::state::jobs::{BuiltinHandler, Configuration, Error, Job, Run, Status, WaitState};
use crate::state::ShellState;
use crate::state;
use crate::syntax::ast::Expr;
use crate::sys::Os;
use crate::sys;

verus! {

/// Takes the terminal back for the shell where it is known to be in
/// other hands.
pub fn restore_terminal(os: &mut Os)
    ensures
        final(os).ledger() == old(os).ledger(),
        final(os).terminal_group() is Some ==> final(os).terminal_is_shells(),
{
    match os.last_terminal_group() {
        None => {},
        Some(group) => {
            let ours = match os.last_shell_group() {
                Some(own) => own == group,
                None => false,
            };
            if !ours {
                let _ = os.reclaim_terminal();
            }
        },
    }
}

/// What waiting for a foreground job came to.
#[derive(Debug)]
pub enum Waited {
    /// The job has stopped, has ended or could not be waited for: it is
    /// in its place, and this is what the foreground loop makes of it.
    Settled(Result<(), Error>),
    /// The job still runs: it is handed back to be waited for again.
    Running(Job),
}

/// What getting a foreground job ready came to.
#[derive(Debug)]
pub enum Prepared {
    /// The job runs in the foreground: it is handed back to be waited
    /// for.
    Wait(Job),
    /// The job could not be started or resumed, or had ended already: it
    /// is in its place, and this is what the foreground loop makes of
    /// it.
    Settled(Result<(), Error>),
}

/// Every job holds programs only.
pub open spec fn programs_only(jobs: Seq<Job>) -> bool {
    forall|i: int| 0 <= i < jobs.len() ==> (#[trigger] jobs[i]).all_external()
}

/// What the foreground loop can leave of the jobs `jobs` it has run: the
/// jobs `halted` that it added to the stopped jobs are taken from `jobs`
/// in their order, no job twice, each with the plan it had and stopped.
/// The other jobs were given up.
pub open spec fn settled(jobs: Seq<Job>, halted: Seq<Job>) -> bool
    decreases jobs.len(),
{
    if jobs.len() == 0 {
        halted.len() == 0
    } else {
        ||| {
            &&& halted.len() > 0
            &&& halted.last().same_plan(&jobs.last())
            &&& halted.last().status.is_stopped()
            &&& settled(jobs.drop_last(), halted.drop_last())
        }
        ||| settled(jobs.drop_last(), halted)
    }
}

/// What one look of the reaper leaves of the background jobs `jobs`:
/// `kept`, the jobs that stay in the background, and `halted`, the jobs
/// that go to the stopped jobs, are taken from `jobs` in their order, no
/// job twice. A job on record as running is asked of the kernel: it
/// stays, running, or goes, stopped, with the plan it had, or it is
/// given up. A job on record as stopped goes as it is. Any other job is
/// given up.
pub open spec fn reaped(jobs: Seq<Job>, kept: Seq<Job>, halted: Seq<Job>) -> bool
    decreases jobs.len(),
{
    if jobs.len() == 0 {
        kept.len() == 0 && halted.len() == 0
    } else if jobs.last().status.is_running() {
        ||| {
            &&& kept.len() > 0
            &&& kept.last().same_plan(&jobs.last())
            &&& kept.last().status.is_running()
            &&& reaped(jobs.drop_last(), kept.drop_last(), halted)
        }
        ||| {
            &&& halted.len() > 0
            &&& halted.last().same_plan(&jobs.last())
            &&& halted.last().status.is_stopped()
            &&& reaped(jobs.drop_last(), kept, halted.drop_last())
        }
        ||| reaped(jobs.drop_last(), kept, halted)
    } else if jobs.last().status.is_stopped() {
        &&& halted.len() > 0
        &&& halted.last() == jobs.last()
        &&& reaped(jobs.drop_last(), kept, halted.drop_last())
    } else {
        reaped(jobs.drop_last(), kept, halted)
    }
}

impl<H: BuiltinHandler> ShellState<H> {
    /// Takes the next job that waits to run in the foreground, `None`
    /// where none waits.
    pub fn get_next_job(&mut self) -> (r: Option<Job>)
        requires
            old(self).wf(),
        ensures
            final(self).wf(),
            match r {
                Some(job) => {
                    &&& old(self).foreground_jobs@.len() > 0
                    &&& job == old(self).foreground_jobs@[0].job
                    &&& state::jobs_of(final(self).foreground_jobs@) == state::jobs_of(
                        old(self).foreground_jobs@,
                    ).drop_first()
                    &&& (job.status is NotStarted ==> job.fresh())
                },
                None => old(self).foreground_jobs@.len() == 0 && final(self).foreground_jobs
                    == old(self).foreground_jobs,
            },
            final(self).background_jobs == old(self).background_jobs,
            final(self).stopped_jobs == old(self).stopped_jobs,
    {
        self.take_foreground()
    }

    /// Puts a job that was just started in the background in its place: a
    /// job that runs becomes the last of the background jobs; a job that
    /// has ended already, as a builtin has, is given up.
    pub fn place_started(&mut self, job: Job)
        requires
            old(self).wf(),
        ensures
            final(self).wf(),
            final(self).foreground_jobs == old(self).foreground_jobs,
            final(self).stopped_jobs == old(self).stopped_jobs,
            final(self).current_job_pid == old(self).current_job_pid,
            if job.status.is_running() {
                state::jobs_of(final(self).background_jobs@) == state::jobs_of(old(self).background_jobs@).push(
                    job,
                ) && final(self).killed == old(self).killed
            } else {
                final(self).background_jobs == old(self).background_jobs
            },
            state::all_running(old(self).background_jobs@) ==> state::all_running(final(self).background_jobs@),
    {
        match job.status {
            Status::Started(_, _, WaitState::StillAlive) | Status::Started(_, _, WaitState::Continued) => {
                self.push_background(job);
            },
            _ => {
                self.give_up(job);
            },
        }
    }

    /// Puts a foreground job in its place after a wait: a job that has
    /// stopped becomes the last of the stopped jobs; a job that has
    /// exited or was killed is given up; a job that could not be waited
    /// for is given up, with [`Error::Wait`]; a job that still runs is
    /// handed back.
    pub fn place_waited(&mut self, job: Job, report: Result<WaitState, Error>) -> (r: Waited)
        requires
            old(self).wf(),
            report matches Ok(w) ==> job.status matches Status::Started(_, _, now) && now == w,
        ensures
            final(self).wf(),
            final(self).foreground_jobs == old(self).foreground_jobs,
            final(self).background_jobs == old(self).background_jobs,
            final(self).current_job_pid == old(self).current_job_pid,
            match report {
                Ok(WaitState::Stopped(_)) => r matches Waited::Settled(Ok(_)) && state::jobs_of(
                    final(self).stopped_jobs@,
                ) == state::jobs_of(old(self).stopped_jobs@).push(job) && final(self).killed == old(self).killed,
                Ok(WaitState::Exited(_)) => r matches Waited::Settled(Ok(_)) && final(self).stopped_jobs == old(
                    self,
                ).stopped_jobs,
                Ok(WaitState::Signaled(_)) => r matches Waited::Settled(Ok(_)) && final(self).stopped_jobs
                    == old(self).stopped_jobs,
                Ok(_) => r == Waited::Running(job) && final(self).stopped_jobs == old(self).stopped_jobs
                    && final(self).killed == old(self).killed,
                Err(_) => r matches Waited::Settled(Err(e)) && e is Wait && final(self).stopped_jobs == old(
                    self,
                ).stopped_jobs,
            },
    {
        self.place_waited_as(job, report, Ghost(0), Ghost(false))
    }

    /// Puts a foreground job in its place as [`ShellState::place_waited`]
    /// says; a job that has stopped goes under the ticket it had where
    /// `keep` says so.
    pub(crate) fn place_waited_as(
        &mut self,
        job: Job,
        report: Result<WaitState, Error>,
        Ghost(ticket): Ghost<nat>,
        Ghost(keep): Ghost<bool>,
    ) -> (r: Waited)
        requires
            old(self).wf(),
            report matches Ok(w) ==> job.status matches Status::Started(_, _, now) && now == w,
            keep ==> old(self).free(ticket),
        ensures
            keep ==> final(self).next_ticket == old(self).next_ticket,
            report matches Ok(WaitState::Stopped(_)) ==> final(self).stopped_jobs@.len() > 0 && final(self).stopped_jobs@.drop_last() == old(self).stopped_jobs@ && (keep ==> final(self).stopped_jobs@.last().ticket@
                == ticket),
            final(self).wf(),
            final(self).foreground_jobs == old(self).foreground_jobs,
            final(self).background_jobs == old(self).background_jobs,
            final(self).current_job_pid == old(self).current_job_pid,
            match report {
                Ok(WaitState::Stopped(_)) => r matches Waited::Settled(Ok(_)) && state::jobs_of(
                    final(self).stopped_jobs@,
                ) == state::jobs_of(old(self).stopped_jobs@).push(job) && final(self).killed == old(self).killed,
                Ok(WaitState::Exited(_)) => r matches Waited::Settled(Ok(_)) && final(self).stopped_jobs == old(
                    self,
                ).stopped_jobs,
                Ok(WaitState::Signaled(_)) => r matches Waited::Settled(Ok(_)) && final(self).stopped_jobs
                    == old(self).stopped_jobs,
                Ok(_) => r == Waited::Running(job) && final(self).stopped_jobs == old(self).stopped_jobs
                    && final(self).killed == old(self).killed,
                Err(_) => r matches Waited::Settled(Err(e)) && e is Wait && final(self).stopped_jobs == old(
                    self,
                ).stopped_jobs,
            },
    {
        match report {
            Ok(WaitState::Stopped(_)) => {
                self.push_stopped_under(job, Ghost(ticket), Ghost(keep));
                Waited::Settled(Ok(()))
            },
            Ok(WaitState::Exited(_)) => {
                self.give_up(job);
                Waited::Settled(Ok(()))
            },
            Ok(WaitState::Signaled(_)) => {
                self.give_up(job);
                Waited::Settled(Ok(()))
            },
            Ok(_) => Waited::Running(job),
            Err(_) => {
                self.give_up(job);
                Waited::Settled(Err(Error::Wait))
            },
        }
    }

    /// Puts a background job in its place after the reaper has looked at
    /// it: a job that runs becomes the last of the background jobs, a job
    /// that has stopped the last of the stopped jobs; any other job, and
    /// a job that could not be looked at, is given up.
    pub fn place_reaped(&mut self, job: Job, report: Result<WaitState, Error>)
        requires
            old(self).wf(),
            report matches Ok(w) ==> job.status matches Status::Started(_, _, now) && now == w,
        ensures
            final(self).wf(),
            final(self).foreground_jobs == old(self).foreground_jobs,
            final(self).current_job_pid == old(self).current_job_pid,
            match report {
                Ok(WaitState::StillAlive) => state::jobs_of(final(self).background_jobs@) == state::jobs_of(
                    old(self).background_jobs@,
                ).push(job) && final(self).stopped_jobs == old(self).stopped_jobs && final(self).killed == old(
                    self,
                ).killed,
                Ok(WaitState::Continued) => state::jobs_of(final(self).background_jobs@) == state::jobs_of(
                    old(self).background_jobs@,
                ).push(job) && final(self).stopped_jobs == old(self).stopped_jobs && final(self).killed == old(
                    self,
                ).killed,
                Ok(WaitState::Stopped(_)) => state::jobs_of(final(self).stopped_jobs@) == state::jobs_of(
                    old(self).stopped_jobs@,
                ).push(job) && final(self).background_jobs == old(self).background_jobs && final(self).killed
                    == old(self).killed,
                _ => final(self).background_jobs == old(self).background_jobs && final(self).stopped_jobs
                    == old(self).stopped_jobs,
            },
            state::all_running(old(self).background_jobs@) ==> state::all_running(final(self).background_jobs@),
    {
        let ticket = self.fresh_ticket();
        self.place_reaped_as(job, report, ticket);
    }

    /// Puts a background job that the reaper has in hand in its place, as
    /// [`ShellState::place_reaped`] says, under the ticket it had.
    pub(crate) fn place_reaped_as(&mut self, job: Job, report: Result<WaitState, Error>, Ghost(ticket): Ghost<nat>)
        requires
            old(self).wf(),
            old(self).free(ticket),
            report matches Ok(w) ==> job.status matches Status::Started(_, _, now) && now == w,
        ensures
            final(self).wf(),
            final(self).foreground_jobs == old(self).foreground_jobs,
            final(self).current_job_pid == old(self).current_job_pid,
            final(self).next_ticket == old(self).next_ticket,
            final(self).killed@.len() >= old(self).killed@.len(),
            final(self).killed@.take(old(self).killed@.len() as int) == old(self).killed@,
            match report {
                Ok(WaitState::StillAlive) => final(self).background_jobs@ == old(self).background_jobs@.push(
                    (state::Slot { ticket: Ghost(ticket), job }),
                ) && final(self).stopped_jobs == old(self).stopped_jobs && final(self).killed == old(self).killed,
                Ok(WaitState::Continued) => final(self).background_jobs@ == old(self).background_jobs@.push(
                    (state::Slot { ticket: Ghost(ticket), job }),
                ) && final(self).stopped_jobs == old(self).stopped_jobs && final(self).killed == old(self).killed,
                Ok(WaitState::Stopped(_)) => final(self).stopped_jobs@ == old(self).stopped_jobs@.push(
                    (state::Slot { ticket: Ghost(ticket), job }),
                ) && final(self).background_jobs == old(self).background_jobs && final(self).killed == old(
                    self,
                ).killed,
                _ => final(self).background_jobs == old(self).background_jobs && final(self).stopped_jobs
                    == old(self).stopped_jobs,
            },
    {
        match report {
            Ok(WaitState::StillAlive) => {
                self.put_background_as(job, Ghost(ticket));
            },
            Ok(WaitState::Continued) => {
                self.put_background_as(job, Ghost(ticket));
            },
            Ok(WaitState::Stopped(_)) => {
                let end = self.stopped_jobs.len();
                self.put_stopped_as(end, job, Ghost(ticket));
                assert(self.stopped_jobs@ =~= old(self).stopped_jobs@.push(
                    (state::Slot { ticket: Ghost(ticket), job }),
                ));
            },
            _ => {
                self.give_up(job);
            },
        }
    }

    /// Queues a job that has been built. A job that is no background job
    /// becomes the last of the jobs that wait to run in the foreground,
    /// untouched. A background job is started at once and put in its
    /// place as [`ShellState::place_started`] says; where it cannot be
    /// started it is given up. A job that holds programs only leaves the
    /// other queues as they are.
    pub fn enqueue(&mut self, job: Job, os: &mut Os) -> (r: Run<Result<(), Error>>)
        requires
            old(self).wf(),
            job.fresh(),
        ensures
            final(self).wf(),
            !job.background ==> {
                &&& r matches Run::Done(Ok(_))
                &&& state::jobs_of(final(self).foreground_jobs@) == state::jobs_of(old(self).foreground_jobs@).push(
                    job,
                )
                &&& final(self).background_jobs == old(self).background_jobs
                &&& final(self).stopped_jobs == old(self).stopped_jobs
                &&& *final(os) == *old(os)
            },
            job.background ==> match r {
                Run::Child(image) => job.is_image_of(image) && job.wired(image, None, None),
                Run::Done(res) => {
                    &&& final(os).ledger() == old(os).ledger()
                    &&& final(os).terminal_group() == old(os).terminal_group()
                    &&& (res matches Err(e) ==> Job::launch_error(&job, e))
                    &&& (job.configuration is Builtin ==> res is Ok)
                    &&& (job.all_external() ==> {
                        &&& final(self).foreground_jobs == old(self).foreground_jobs
                        &&& final(self).stopped_jobs == old(self).stopped_jobs
                        &&& match res {
                            Ok(_) => {
                                &&& final(self).background_jobs@.len() > 0
                                &&& state::jobs_of(final(self).background_jobs@).drop_last() == state::jobs_of(
                                    old(self).background_jobs@,
                                )
                                &&& final(self).background_jobs@.last().job.same_plan(&job)
                                &&& final(self).background_jobs@.last().job.begun()
                                &&& final(self).background_jobs@.last().job.led(None)
                                &&& final(self).background_jobs@.last().job.status.is_running()
                                &&& final(self).killed == old(self).killed
                            },
                            Err(_) => final(self).background_jobs == old(self).background_jobs,
                        }
                    })
                },
            },
    {
        let mut job = job;
        if job.background {
            let started = match job.run(self, os) {
                Run::Child(image) => {
                    return Run::Child(image);
                },
                Run::Done(res) => res,
            };
            match started {
                Ok(_) => {
                    proof {
                        if job.all_external() {
                            lemma_begun_runs(job);
                        }
                    }
                    let ghost had = state::jobs_of(self.background_jobs@);
                    self.place_started(job);
                    proof {
                        if job.status.is_running() {
                            assert(state::jobs_of(self.background_jobs@).drop_last() =~= had);
                            assert(state::jobs_of(self.background_jobs@).last() == job);
                        }
                    }
                    Run::Done(Ok(()))
                },
                Err(e) => {
                    self.give_up(job);
                    Run::Done(Err(e))
                },
            }
        } else {
            self.push_foreground(job);
            Run::Done(Ok(()))
        }
    }

    /// What starting the background job `job` makes of the queues: an
    /// error is one of starting the job; and a job of programs only leaves
    /// the other queues as they are and is, where it started, the last of
    /// the background jobs, running, each program in a group as
    /// [`Job::led`] says.
    pub open spec fn sent_back(before: &Self, after: &Self, job: Job, res: Result<(), Error>) -> bool {
        &&& (res matches Err(e) ==> Job::launch_error(&job, e))
        &&& (job.all_external() ==> {
            &&& state::jobs_of(after.foreground_jobs@) == state::jobs_of(before.foreground_jobs@)
            &&& state::jobs_of(after.stopped_jobs@) == state::jobs_of(before.stopped_jobs@)
            &&& match res {
                Ok(_) => {
                    &&& after.background_jobs@.len() > 0
                    &&& state::jobs_of(after.background_jobs@).drop_last() == state::jobs_of(
                        before.background_jobs@,
                    )
                    &&& after.background_jobs@.last().job.same_plan(&job)
                    &&& after.background_jobs@.last().job.begun()
                    &&& after.background_jobs@.last().job.led(None)
                    &&& after.background_jobs@.last().job.status.is_running()
                },
                Err(_) => state::jobs_of(after.background_jobs@) == state::jobs_of(before.background_jobs@),
            }
        })
    }

    /// Builds the job an expression describes and queues it, see
    /// [`Job::from_expr`] and [`ShellState::enqueue`].
    ///
    /// In the calling process no descriptor obtained on the way is still
    /// held at return. A process is created only for a sub-shell or for a
    /// background job, and only a background job can fail to start. An
    /// expression without a sub-shell that asks for no background job
    /// adds the job it describes to the jobs that wait to run and leaves
    /// everything else as it is; where it cannot be built, nothing
    /// changes. A background job of programs only becomes the last of the
    /// background jobs, running, and leaves the other queues as they are.
    pub fn enqueue_job(&mut self, expr: &Expr, env: &Environment, os: &mut Os) -> (r: Run<
        Result<(), Error>,
    >)
        requires
            old(self).wf(),
        ensures
            final(self).wf(),
            r matches Run::Done(res) ==> {
                &&& final(os).ledger() == old(os).ledger()
                &&& match res {
                    Ok(_) => !builder::in_background(expr@) ==> {
                        &&& final(self).foreground_jobs@.len() > 0
                        &&& builder::built(expr@, *env, final(self).foreground_jobs@.last().job)
                        &&& (!builder::has_subshell(expr@) ==> {
                            &&& state::jobs_of(final(self).foreground_jobs@).drop_last() == state::jobs_of(
                                old(self).foreground_jobs@,
                            )
                            &&& state::jobs_of(final(self).background_jobs@) == state::jobs_of(
                                old(self).background_jobs@,
                            )
                            &&& state::jobs_of(final(self).stopped_jobs@) == state::jobs_of(
                                old(self).stopped_jobs@,
                            )
                        })
                    },
                    Err(e) => {
                        &&& builder::refused(expr@, *env, e) || builder::in_background(expr@)
                        &&& (!builder::has_subshell(expr@) && !builder::in_background(expr@) ==> {
                            &&& state::jobs_of(final(self).foreground_jobs@) == state::jobs_of(
                                old(self).foreground_jobs@,
                            )
                            &&& state::jobs_of(final(self).background_jobs@) == state::jobs_of(
                                old(self).background_jobs@,
                            )
                            &&& state::jobs_of(final(self).stopped_jobs@) == state::jobs_of(
                                old(self).stopped_jobs@,
                            )
                        })
                    },
                }
            },
            r is Child ==> builder::has_subshell(expr@) || builder::in_background(expr@),
            !builder::has_subshell(expr@) && !builder::in_background(expr@) ==> r is Done && *final(os) == *old(os),
            !builder::has_subshell(expr@) && r is Done ==> final(os).terminal_group() == old(os).terminal_group(),
            builder::in_background(expr@) && !builder::has_subshell(expr@) ==> (r matches Run::Done(res) ==> {
                ||| {
                    &&& res matches Err(e) && builder::refused(expr@, *env, e)
                    &&& state::jobs_of(final(self).foreground_jobs@) == state::jobs_of(old(self).foreground_jobs@)
                    &&& state::jobs_of(final(self).background_jobs@) == state::jobs_of(old(self).background_jobs@)
                    &&& state::jobs_of(final(self).stopped_jobs@) == state::jobs_of(old(self).stopped_jobs@)
                }
                ||| exists|job: Job| #[trigger]
                    builder::built(expr@, *env, job) && Self::sent_back(old(self), final(self), job, res)
            }),
    {
        let made = match Job::from_expr(expr, self, env, os) {
            Run::Child(image) => {
                return Run::Child(image);
            },
            Run::Done(res) => res,
        };
        proof {
            if !builder::has_subshell(expr@) {
                assert(self.held()[0] == old(self).held()[0]);
                assert(self.held()[1] == old(self).held()[1]);
                assert(self.held()[2] == old(self).held()[2]);
            }
        }
        match made {
            Err(e) => Run::Done(Err(e)),
            Ok(job) => {
                let ghost queued = state::jobs_of(self.foreground_jobs@);
                let ghost before = *self;
                let r = self.enqueue(job, os);
                proof {
                    if !job.background {
                        assert(state::jobs_of(self.foreground_jobs@).drop_last() =~= queued);
                        assert(state::jobs_of(self.foreground_jobs@).last() == job);
                    }
                    if builder::in_background(expr@) && !builder::has_subshell(expr@) && r is Done {
                        assert(builder::built(expr@, *env, job));
                        assert(Self::sent_back(old(self), self, job, r->Done_0));
                    }
                }
                r
            },
        }
    }

    /// The errors running the foreground jobs can end in: a job that could
    /// not be started, or a wait or a signal that failed.
    pub open spec fn drive_error(e: Error) -> bool {
        e is Wait || e is Fork || e is StringEncoding || e is LeftPipe || e is RightPipe || e is Pipe
    }

    /// Gets a job ready to be waited for in the foreground: starts it if
    /// it has not been started, notes its process as the current one,
    /// gives its group the terminal, and resumes it if it is stopped. A
    /// job that cannot be started is given up, with the error; a job that
    /// cannot be resumed becomes the last of the stopped jobs, with
    /// [`Error::Wait`]; a job that is neither running nor stopped then,
    /// as a builtin that has run, is given up.
    ///
    /// A process is created only to start a job that has not been
    /// started, and the image returned in it is that of one of the job's
    /// programs. A job that is handed back runs. A job that holds
    /// programs only leaves the queues as they are, but that it becomes
    /// the last of the stopped jobs where it cannot be resumed.
    pub fn prepare(&mut self, job: Job, os: &mut Os) -> (r: Run<Prepared>)
        requires
            old(self).wf(),
            job.status is NotStarted ==> job.fresh(),
        ensures
            final(self).wf(),
            r matches Run::Done(_) ==> final(os).ledger() == old(os).ledger(),
            r matches Run::Done(Prepared::Settled(Err(e))) ==> Self::drive_error(e),
            r matches Run::Done(Prepared::Wait(back)) ==> back.status.is_running(),
            r matches Run::Child(image) ==> job.status is NotStarted && job.is_image_of(image),
            match job.status {
                Status::Started(pid, _, w) => {
                    &&& !w.is_running() && !(w is Stopped) ==> {
                        &&& r matches Run::Done(Prepared::Settled(Ok(_)))
                        &&& final(self).foreground_jobs == old(self).foreground_jobs
                        &&& final(self).background_jobs == old(self).background_jobs
                        &&& final(self).stopped_jobs == old(self).stopped_jobs
                    }
                    &&& r is Done ==> final(self).current_job_pid == Some(pid)
                    &&& w.is_running() ==> r == Run::Done(Prepared::Wait(job)) && final(self).foreground_jobs
                        == old(self).foreground_jobs && final(self).background_jobs == old(
                        self,
                    ).background_jobs && final(self).stopped_jobs == old(self).stopped_jobs
                },
                Status::NotStarted => true,
            },
            job.all_external() ==> (r matches Run::Done(prepared) ==> {
                &&& final(self).foreground_jobs == old(self).foreground_jobs
                &&& final(self).background_jobs == old(self).background_jobs
                &&& match prepared {
                    Prepared::Wait(back) => back.same_plan(&job) && final(self).stopped_jobs == old(
                        self,
                    ).stopped_jobs,
                    Prepared::Settled(_) => final(self).stopped_jobs == old(self).stopped_jobs || {
                        &&& final(self).stopped_jobs@.len() > 0
                        &&& state::jobs_of(final(self).stopped_jobs@).drop_last() == state::jobs_of(
                            old(self).stopped_jobs@,
                        )
                        &&& final(self).stopped_jobs@.last().job.same_plan(&job)
                        &&& final(self).stopped_jobs@.last().job.status.is_stopped()
                    },
                }
            }),
    {
        self.prepare_as(job, os, Ghost(0), Ghost(false))
    }

    /// Gets a job ready as [`ShellState::prepare`] says; a job that
    /// cannot be resumed goes to the stopped jobs under the ticket it had
    /// where `keep` says so.
    pub(crate) fn prepare_as(
        &mut self,
        job: Job,
        os: &mut Os,
        Ghost(ticket): Ghost<nat>,
        Ghost(keep): Ghost<bool>,
    ) -> (r: Run<Prepared>)
        requires
            old(self).wf(),
            job.status is NotStarted ==> job.fresh(),
            keep ==> old(self).free(ticket) && job.all_external(),
        ensures
            keep ==> (r is Done ==> final(self).next_ticket == old(self).next_ticket),
            keep ==> (r is Done ==> final(self).stopped_jobs == old(self).stopped_jobs || (final(self).stopped_jobs@.len() > 0 && final(self).stopped_jobs@.drop_last() == old(self).stopped_jobs@
                && final(self).stopped_jobs@.last().ticket@ == ticket)),
            final(self).wf(),
            r matches Run::Done(_) ==> final(os).ledger() == old(os).ledger(),
            r matches Run::Done(Prepared::Settled(Err(e))) ==> Self::drive_error(e),
            r matches Run::Done(Prepared::Wait(back)) ==> back.status.is_running(),
            r matches Run::Child(image) ==> job.status is NotStarted && job.is_image_of(image),
            match job.status {
                Status::Started(pid, _, w) => {
                    &&& !w.is_running() && !(w is Stopped) ==> {
                        &&& r matches Run::Done(Prepared::Settled(Ok(_)))
                        &&& final(self).foreground_jobs == old(self).foreground_jobs
                        &&& final(self).background_jobs == old(self).background_jobs
                        &&& final(self).stopped_jobs == old(self).stopped_jobs
                    }
                    &&& r is Done ==> final(self).current_job_pid == Some(pid)
                    &&& w.is_running() ==> r == Run::Done(Prepared::Wait(job)) && final(self).foreground_jobs
                        == old(self).foreground_jobs && final(self).background_jobs == old(
                        self,
                    ).background_jobs && final(self).stopped_jobs == old(self).stopped_jobs
                },
                Status::NotStarted => true,
            },
            job.all_external() ==> (r matches Run::Done(prepared) ==> {
                &&& final(self).foreground_jobs == old(self).foreground_jobs
                &&& final(self).background_jobs == old(self).background_jobs
                &&& match prepared {
                    Prepared::Wait(back) => back.same_plan(&job) && final(self).stopped_jobs == old(
                        self,
                    ).stopped_jobs,
                    Prepared::Settled(_) => final(self).stopped_jobs == old(self).stopped_jobs || {
                        &&& final(self).stopped_jobs@.len() > 0
                        &&& state::jobs_of(final(self).stopped_jobs@).drop_last() == state::jobs_of(
                            old(self).stopped_jobs@,
                        )
                        &&& final(self).stopped_jobs@.last().job.same_plan(&job)
                        &&& final(self).stopped_jobs@.last().job.status.is_stopped()
                    },
                }
            }),
    {
        let ghost given = job;
        let mut job = job;
        proof {
            lemma_same_plan_reflexive(given);
        }
        match job.status {
            Status::NotStarted => {
                let started = match job.run(self, os) {
                    Run::Child(image) => {
                        return Run::Child(image);
                    },
                    Run::Done(res) => res,
                };
                match started {
                    Ok(_) => {},
                    Err(e) => {
                        self.give_up(job);
                        return Run::Done(Prepared::Settled(Err(e)));
                    },
                }
            },
            Status::Started(_, _, _) => {},
        }
        match job.status {
            Status::NotStarted => {
                self.give_up(job);
                Run::Done(Prepared::Settled(Err(Error::Wait)))
            },
            Status::Started(pid, _, state) => {
                self.current_job_pid = Some(pid);
                if !job.in_foreground(os) {
                    let _ = job.set_foreground(os);
                }
                match state {
                    WaitState::StillAlive | WaitState::Continued => Run::Done(Prepared::Wait(job)),
                    WaitState::Stopped(_) => {
                        let ghost before = job;
                        match job.cont(false) {
                            Ok(_) => {
                                proof {
                                    lemma_same_plan_transitive(job, before, given);
                                }
                                Run::Done(Prepared::Wait(job))
                            },
                            Err(_) => {
                                proof {
                                    lemma_same_plan_transitive(job, before, given);
                                }
                                let ghost halted = state::jobs_of(self.stopped_jobs@);
                                self.push_stopped_under(job, Ghost(ticket), Ghost(keep));
                                proof {
                                    assert(state::jobs_of(self.stopped_jobs@).drop_last() =~= halted);
                                    assert(state::jobs_of(self.stopped_jobs@).last() == job);
                                }
                                Run::Done(Prepared::Settled(Err(Error::Wait)))
                            },
                        }
                    },
                    _ => {
                        self.give_up(job);
                        Run::Done(Prepared::Settled(Ok(())))
                    },
                }
            },
        }
    }

    /// Runs one job in the foreground until it has ended or stopped: gets
    /// it ready as [`ShellState::prepare`] says, waits for it, and puts it
    /// in its place as [`ShellState::place_waited`] says, again and again
    /// while it still runs.
    ///
    /// A process is created only to start a job that has not been
    /// started, and the image returned in it is that of one of the job's
    /// programs. A job that is on record as neither running nor stopped
    /// is given up at once: the queues stay as they are, and its process
    /// is the one on record as the current one. A job that holds programs
    /// only leaves the queues as they are, but that it becomes the last
    /// of the stopped jobs where it has stopped.
    #[verifier::loop_isolation(false)]
    fn settle(&mut self, job: Job, os: &mut Os, Ghost(ticket): Ghost<nat>) -> (r: Run<Result<(), Error>>)
        requires
            old(self).wf(),
            job.status is NotStarted ==> job.fresh(),
            job.all_external() ==> old(self).free(ticket),
        ensures
            job.all_external() ==> (r matches Run::Done(_) ==> final(self).stopped_jobs == old(self).stopped_jobs
                || (final(self).stopped_jobs@.len() > 0 && final(self).stopped_jobs@.drop_last() == old(
                self,
            ).stopped_jobs@ && final(self).stopped_jobs@.last().ticket@ == ticket)),
            final(self).wf(),
            r matches Run::Done(res) ==> {
                &&& final(os).ledger() == old(os).ledger()
                &&& (res matches Err(e) ==> Self::drive_error(e))
            },
            r matches Run::Child(image) ==> job.status is NotStarted && job.is_image_of(image),
            match job.status {
                Status::Started(pid, _, w) => !w.is_running() && !(w is Stopped) ==> {
                    &&& r matches Run::Done(Ok(_))
                    &&& final(self).current_job_pid == Some(pid)
                    &&& final(self).foreground_jobs == old(self).foreground_jobs
                    &&& final(self).background_jobs == old(self).background_jobs
                    &&& final(self).stopped_jobs == old(self).stopped_jobs
                },
                Status::NotStarted => true,
            },
            job.all_external() ==> (r matches Run::Done(_) ==> {
                &&& final(self).foreground_jobs == old(self).foreground_jobs
                &&& final(self).background_jobs == old(self).background_jobs
                &&& (final(self).stopped_jobs == old(self).stopped_jobs || {
                    &&& final(self).stopped_jobs@.len() > 0
                    &&& state::jobs_of(final(self).stopped_jobs@).drop_last() == state::jobs_of(
                        old(self).stopped_jobs@,
                    )
                    &&& final(self).stopped_jobs@.last().job.same_plan(&job)
                    &&& final(self).stopped_jobs@.last().job.status.is_stopped()
                })
            }),
    {
        let ghost given = job;
        let mut job = job;
        let mut spins: u64 = 0;
        proof {
            lemma_same_plan_reflexive(given);
        }
        while spins < u64::MAX
            invariant
                self.wf(),
                job.status is NotStarted ==> job.fresh(),
                os.ledger() == old(os).ledger(),
                spins == 0 ==> job == given && self.foreground_jobs == old(self).foreground_jobs
                    && self.background_jobs == old(self).background_jobs && self.stopped_jobs == old(
                    self,
                ).stopped_jobs,
                job.status is NotStarted ==> job == given,
                spins > 0 ==> !(given.status matches Status::Started(_, _, w) && !w.is_running() && !(w
                    is Stopped)),
                given.all_external() ==> job.same_plan(&given) && job.all_external() && self.foreground_jobs
                    == old(self).foreground_jobs && self.background_jobs == old(self).background_jobs
                    && self.stopped_jobs == old(self).stopped_jobs && self.next_ticket == old(self).next_ticket,
            decreases u64::MAX - spins,
        {
            spins += 1;
            let ghost before = job;
            let waiting = match self.prepare_as(job, os, Ghost(ticket), Ghost(given.all_external())) {
                Run::Child(image) => {
                    return Run::Child(image);
                },
                Run::Done(Prepared::Settled(res)) => {
                    proof {
                        if given.all_external() && self.stopped_jobs != old(self).stopped_jobs {
                            lemma_same_plan_transitive(self.stopped_jobs@.last().job, before, given);
                        }
                    }
                    return Run::Done(res);
                },
                Run::Done(Prepared::Wait(back)) => back,
            };
            let mut waiting = waiting;
            proof {
                if given.all_external() {
                    lemma_same_plan_transitive(waiting, before, given);
                }
            }
            let ghost ready = waiting;
            let report = waiting.wait(sys::WaitHow::Changed, os);
            proof {
                if given.all_external() {
                    lemma_same_plan_transitive(waiting, ready, given);
                }
            }
            let ghost halted = state::jobs_of(self.stopped_jobs@);
            let ghost reported = report;
            match self.place_waited_as(waiting, report, Ghost(ticket), Ghost(given.all_external())) {
                Waited::Settled(res) => {
                    proof {
                        if reported matches Ok(WaitState::Stopped(_)) {
                            assert(state::jobs_of(self.stopped_jobs@).drop_last() =~= halted);
                            assert(state::jobs_of(self.stopped_jobs@).last() == waiting);
                        }
                    }
                    return Run::Done(res);
                },
                Waited::Running(back) => {
                    job = back;
                    proof {
                        if given.all_external() {
                            lemma_same_plan_external(job, given);
                        }
                    }
                },
            }
        }
        self.give_up(job);
        Run::Done(Err(Error::Wait))
    }

    /// Runs the jobs that wait to run in the foreground, first in first
    /// out, each until it has ended or stopped, until none waits; a job
    /// that `fg` puts in the queue on the way is run as well. Stops at the
    /// first job that cannot be started or waited for.
    ///
    /// At return in the calling process no descriptor obtained on the way
    /// is still held, and whenever the terminal's foreground group is
    /// known, it is the shell's own. With no job waiting nothing is run
    /// and the queues stay as they are. Where the jobs that wait hold
    /// programs only, the jobs are taken one by one from the head of the
    /// queue; the background jobs stay as they are; and the stopped jobs
    /// are those there were, followed by those of the jobs run that have
    /// stopped, see [`settled`], each under the ticket it had. A job that
    /// failed is no longer waiting.
    pub fn run_foreground_jobs(&mut self, os: &mut Os) -> (r: Run<Result<(), Error>>)
        requires
            old(self).wf(),
        ensures
            final(self).wf(),
            r matches Run::Done(res) ==> {
                &&& final(os).ledger() == old(os).ledger()
                &&& (final(os).terminal_group() is Some ==> final(os).terminal_is_shells())
                &&& final(self).current_job_pid is None
                &&& (res is Ok ==> final(self).foreground_jobs@.len() == 0)
                &&& (res matches Err(e) ==> Self::drive_error(e))
            },
            old(self).foreground_jobs@.len() == 0 ==> {
                &&& r matches Run::Done(Ok(_))
                &&& final(self).foreground_jobs == old(self).foreground_jobs
                &&& final(self).background_jobs == old(self).background_jobs
                &&& final(self).stopped_jobs == old(self).stopped_jobs
                &&& final(self).killed == old(self).killed
            },
            programs_only(state::jobs_of(old(self).foreground_jobs@)) ==> (r matches Run::Done(res) ==> {
                let run = old(self).foreground_jobs@.len() - final(self).foreground_jobs@.len();
                let had = old(self).stopped_jobs@.len() as int;
                &&& 0 <= run
                &&& (res is Err ==> run >= 1)
                &&& state::jobs_of(final(self).foreground_jobs@) == state::jobs_of(old(self).foreground_jobs@).skip(
                    run,
                )
                &&& final(self).foreground_jobs@ == old(self).foreground_jobs@.skip(run)
                &&& final(self).stopped_jobs@.take(had) == old(self).stopped_jobs@
                &&& (forall|k: int|
                    had <= k < final(self).stopped_jobs@.len() ==> state::holds_ticket(
                        old(self).foreground_jobs@,
                        (#[trigger] final(self).stopped_jobs@[k]).ticket@,
                    ))
                &&& final(self).background_jobs == old(self).background_jobs
                &&& final(self).stopped_jobs@.len() >= had
                &&& state::jobs_of(final(self).stopped_jobs@).take(had) == state::jobs_of(old(self).stopped_jobs@)
                &&& settled(
                    state::jobs_of(old(self).foreground_jobs@).take(run),
                    state::jobs_of(final(self).stopped_jobs@).skip(had),
                )
            }),
    {
        let ghost jobs = state::jobs_of(old(self).foreground_jobs@);
        let ghost had = old(self).stopped_jobs@.len() as int;
        let ghost plain = programs_only(jobs);
        let mut rounds: u64 = 0;
        proof {
            assert(self.foreground_jobs@.skip(0) =~= self.foreground_jobs@);
            assert(self.stopped_jobs@.take(had) =~= old(self).stopped_jobs@);
            assert(jobs.skip(0) =~= jobs);
            assert(jobs.take(0) =~= Seq::<Job>::empty());
            assert(state::jobs_of(self.stopped_jobs@).take(had) =~= state::jobs_of(old(self).stopped_jobs@));
            assert(state::jobs_of(self.stopped_jobs@).skip(had) =~= Seq::<Job>::empty());
        }
        while rounds < u64::MAX
            invariant
                self.wf(),
                os.ledger() == old(os).ledger(),
                jobs == state::jobs_of(old(self).foreground_jobs@),
                had == old(self).stopped_jobs@.len(),
                plain == programs_only(jobs),
                old(self).foreground_jobs@.len() == 0 ==> {
                    &&& rounds == 0
                    &&& self.foreground_jobs == old(self).foreground_jobs
                    &&& self.background_jobs == old(self).background_jobs
                    &&& self.stopped_jobs == old(self).stopped_jobs
                    &&& self.killed == old(self).killed
                },
                plain ==> {
                    &&& rounds <= jobs.len()
                    &&& self.foreground_jobs@.len() == jobs.len() - rounds
                    &&& state::jobs_of(self.foreground_jobs@) == jobs.skip(rounds as int)
                    &&& self.foreground_jobs@ == old(self).foreground_jobs@.skip(rounds as int)
                    &&& self.stopped_jobs@.take(had) == old(self).stopped_jobs@
                    &&& (forall|k: int|
                        had <= k < self.stopped_jobs@.len() ==> state::holds_ticket(
                            old(self).foreground_jobs@,
                            (#[trigger] self.stopped_jobs@[k]).ticket@,
                        ))
                    &&& self.background_jobs == old(self).background_jobs
                    &&& self.stopped_jobs@.len() >= had
                    &&& state::jobs_of(self.stopped_jobs@).take(had) == state::jobs_of(old(self).stopped_jobs@)
                    &&& settled(jobs.take(rounds as int), state::jobs_of(self.stopped_jobs@).skip(had))
                },
            decreases u64::MAX - rounds,
        {
            let ghost queue = self.foreground_jobs@;
            let ghost halted = state::jobs_of(self.stopped_jobs@);
            let ghost seats = self.stopped_jobs@;
            match self.take_foreground_slot() {
                None => {
                    self.current_job_pid = None;
                    restore_terminal(os);
                    return Run::Done(Ok(()));
                },
                Some((job, ticket)) => {
                    proof {
                        if plain {
                            assert(state::jobs_of(queue).len() == queue.len());
                            assert(state::jobs_of(queue)[0] == job);
                            assert(jobs.skip(rounds as int)[0] == jobs[rounds as int]);
                            assert(job == jobs[rounds as int]);
                            assert(state::jobs_of(self.foreground_jobs@) =~= jobs.skip(rounds + 1));
                            assert(self.foreground_jobs@ =~= old(self).foreground_jobs@.skip(rounds + 1));
                            assert(state::jobs_of(self.foreground_jobs@).len() == self.foreground_jobs@.len());
                            assert(jobs.take(rounds + 1).drop_last() =~= jobs.take(rounds as int));
                            assert(jobs.take(rounds + 1).last() == job);
                        }
                    }
                    self.current_job_pid = None;
                    proof {
                        if plain {
                            assert(queue[0] == old(self).foreground_jobs@[rounds as int]);
                            assert(state::holds_ticket(old(self).foreground_jobs@, ticket@));
                        }
                    }
                    let outcome = self.settle(job, os, ticket);
                    proof {
                        if plain && outcome is Done {
                            assert(self.stopped_jobs@.take(had) =~= old(self).stopped_jobs@);
                            assert forall|k: int| had <= k < self.stopped_jobs@.len() implies state::holds_ticket(
                                old(self).foreground_jobs@,
                                (#[trigger] self.stopped_jobs@[k]).ticket@,
                            ) by {
                                if k < seats.len() {
                                    assert(self.stopped_jobs@[k] == seats[k]);
                                }
                            }
                        }
                    }
                    proof {
                        if plain && outcome is Done {
                            let now = state::jobs_of(self.stopped_jobs@);
                            assert(now.len() == self.stopped_jobs@.len());
                            assert(halted.len() >= had);
                            if self.stopped_jobs == old(self).stopped_jobs || now == halted {
                            }
                            if now.len() == halted.len() + 1 {
                                assert(now.take(had) =~= halted.take(had));
                                assert(now.skip(had).drop_last() =~= halted.skip(had));
                                assert(now.skip(had).last() == now.last());
                            }
                        }
                    }
                    rounds += 1;
                    let settled = match outcome {
                        Run::Child(image) => {
                            return Run::Child(image);
                        },
                        Run::Done(res) => res,
                    };
                    match settled {
                        Ok(_) => {},
                        Err(e) => {
                            self.current_job_pid = None;
                            restore_terminal(os);
                            return Run::Done(Err(e));
                        },
                    }
                },
            }
        }
        self.current_job_pid = None;
        restore_terminal(os);
        Run::Done(Err(Error::Wait))
    }

    /// Looks after the background jobs once: asks the kernel, without
    /// waiting, what has become of each job that is on record as running,
    /// first job first, and puts each job in its place as
    /// [`ShellState::place_reaped`] says. Afterwards every background job
    /// runs; the background jobs and the jobs that were added to the
    /// stopped jobs are jobs that were in the background, in the order
    /// they had there, see [`reaped`], each under the ticket it had. The
    /// processes noted as killed are those noted before, followed by
    /// those of jobs that were given up.
    pub fn background_reaper(&mut self)
        requires
            old(self).wf(),
        ensures
            final(self).wf(),
            state::all_running(final(self).background_jobs@),
            final(self).background_jobs@.len() <= old(self).background_jobs@.len(),
            final(self).stopped_jobs@.len() >= old(self).stopped_jobs@.len(),
            state::jobs_of(final(self).stopped_jobs@).take(old(self).stopped_jobs@.len() as int)
                == state::jobs_of(old(self).stopped_jobs@),
            reaped(
                state::jobs_of(old(self).background_jobs@),
                state::jobs_of(final(self).background_jobs@),
                state::jobs_of(final(self).stopped_jobs@).skip(old(self).stopped_jobs@.len() as int),
            ),
            final(self).foreground_jobs == old(self).foreground_jobs,
            final(self).current_job_pid == old(self).current_job_pid,
            final(self).stopped_jobs@.take(old(self).stopped_jobs@.len() as int) == old(self).stopped_jobs@,
            final(self).killed@.len() >= old(self).killed@.len(),
            final(self).killed@.take(old(self).killed@.len() as int) == old(self).killed@,
            forall|k: int|
                0 <= k < final(self).background_jobs@.len() ==> state::holds_ticket(
                    old(self).background_jobs@,
                    (#[trigger] final(self).background_jobs@[k]).ticket@,
                ),
            forall|k: int|
                old(self).stopped_jobs@.len() <= k < final(self).stopped_jobs@.len() ==> state::holds_ticket(
                    old(self).background_jobs@,
                    (#[trigger] final(self).stopped_jobs@[k]).ticket@,
                ),
    {
        let ghost jobs = state::jobs_of(old(self).background_jobs@);
        let ghost halted = state::jobs_of(old(self).stopped_jobs@);
        let ghost n = old(self).stopped_jobs@.len() as int;
        let mut pending: Vec<state::Slot> = Vec::new();
        core::mem::swap(&mut pending, &mut self.background_jobs);
        let ghost mut done: int = 0;
        proof {
            assert(pending@.skip(0) =~= pending@);
            assert(self.stopped_jobs@.take(n) =~= old(self).stopped_jobs@);
            assert forall|k: int| 0 <= k < pending@.len() implies self.free((#[trigger] pending@[k]).ticket@) by {
                let t = pending@[k].ticket@;
                if state::holds_ticket(self.foreground_jobs@, t) {
                }
                if state::holds_ticket(self.stopped_jobs@, t) {
                }
            }
            assert(jobs.skip(0) =~= jobs);
            assert(state::jobs_of(self.stopped_jobs@).take(n) =~= halted);
            assert(state::jobs_of(self.stopped_jobs@).skip(n) =~= Seq::<Job>::empty());
            assert(jobs.take(0) =~= Seq::<Job>::empty());
        }
        while pending.len() > 0
            invariant
                self.wf(),
                state::all_running(self.background_jobs@),
                0 <= done <= jobs.len(),
                n == old(self).stopped_jobs@.len(),
                jobs == state::jobs_of(old(self).background_jobs@),
                halted == state::jobs_of(old(self).stopped_jobs@),
                state::jobs_of(pending@) == jobs.skip(done),
                pending@ == old(self).background_jobs@.skip(done),
                self.killed@.len() >= old(self).killed@.len(),
                self.killed@.take(old(self).killed@.len() as int) == old(self).killed@,
                state::unique(pending@),
                forall|k: int| 0 <= k < pending@.len() ==> self.free((#[trigger] pending@[k]).ticket@),
                self.stopped_jobs@.take(n) == old(self).stopped_jobs@,
                forall|k: int|
                    0 <= k < self.background_jobs@.len() ==> state::holds_ticket(
                        old(self).background_jobs@,
                        (#[trigger] self.background_jobs@[k]).ticket@,
                    ),
                forall|k: int|
                    n <= k < self.stopped_jobs@.len() ==> state::holds_ticket(
                        old(self).background_jobs@,
                        (#[trigger] self.stopped_jobs@[k]).ticket@,
                    ),
                self.background_jobs@.len() + pending@.len() <= old(self).background_jobs@.len(),
                self.stopped_jobs@.len() >= n,
                state::jobs_of(self.stopped_jobs@).take(n) == halted,
                reaped(
                    jobs.take(done),
                    state::jobs_of(self.background_jobs@),
                    state::jobs_of(self.stopped_jobs@).skip(n),
                ),
                self.foreground_jobs == old(self).foreground_jobs,
                self.current_job_pid == old(self).current_job_pid,
            decreases pending.len(),
        {
            let ghost kept = state::jobs_of(self.background_jobs@);
            let ghost stopped = state::jobs_of(self.stopped_jobs@);
            let ghost waiting = pending@;
            proof {
                assert(state::jobs_of(waiting).len() == waiting.len());
                assert(jobs.skip(done).len() == jobs.len() - done);
                assert(state::jobs_of(waiting)[0] == waiting[0].job);
                assert(jobs.skip(done)[0] == jobs[done]);
            }
            let ghost seats = self.background_jobs@;
            let ghost seats_stopped = self.stopped_jobs@;
            let slot = pending.remove(0);
            let ghost ticket = slot.ticket@;
            let mut job = slot.job;
            let ghost before = job;
            proof {
                assert(slot == waiting[0]);
                assert(waiting[0] == old(self).background_jobs@[done]);
                assert(state::holds_ticket(old(self).background_jobs@, ticket));
                assert(before == jobs[done]);
                assert(pending@ =~= waiting.remove(0));
                assert(pending@ =~= old(self).background_jobs@.skip(done + 1));
                assert(forall|k: int| 0 <= k < pending@.len() ==> pending@[k] == waiting[k + 1]);
                assert(state::jobs_of(pending@) =~= state::jobs_of(waiting).remove(0));
                assert(state::jobs_of(pending@) =~= jobs.skip(done + 1));
                assert(jobs.take(done + 1).drop_last() =~= jobs.take(done));
                assert(jobs.take(done + 1).last() == before);
                assert(state::jobs_of(self.background_jobs@).len() == self.background_jobs@.len());
                assert(stopped.len() == self.stopped_jobs@.len());
            }
            let report: Result<WaitState, Error> = match job.status {
                Status::Started(_, _, WaitState::StillAlive) | Status::Started(_, _, WaitState::Continued) => {
                    job.wait_without_restore(sys::WaitHow::Glance)
                },
                Status::Started(_, _, w) => Ok(w),
                Status::NotStarted => Err(Error::Wait),
            };
            let ghost noted = self.killed@;
            self.place_reaped_as(job, report, Ghost(ticket));
            proof {
                assert(self.killed@.take(old(self).killed@.len() as int) =~= noted.take(
                    old(self).killed@.len() as int,
                )) by {
                    assert(self.killed@.take(noted.len() as int) == noted);
                    assert forall|x: int| 0 <= x < old(self).killed@.len() implies self.killed@[x] == noted[x] by {
                        assert(self.killed@.take(noted.len() as int)[x] == self.killed@[x]);
                    }
                }
                assert(self.stopped_jobs@.take(n) =~= old(self).stopped_jobs@);
                assert forall|k: int| 0 <= k < pending@.len() implies self.free((#[trigger] pending@[k]).ticket@) by {
                    let t = pending@[k].ticket@;
                    assert(pending@[k] == waiting[k + 1]);
                    assert(t != ticket);
                    if state::holds_ticket(self.background_jobs@, t) {
                        let x = choose|x: int| 0 <= x < self.background_jobs@.len() && (#[trigger] self.background_jobs@[x]).ticket@ == t;
                        if x < seats.len() {
                            assert(self.background_jobs@[x] == seats[x]);
                            assert(state::holds_ticket(seats, t));
                        }
                    }
                    if state::holds_ticket(self.stopped_jobs@, t) {
                        let x = choose|x: int| 0 <= x < self.stopped_jobs@.len() && (#[trigger] self.stopped_jobs@[x]).ticket@ == t;
                        if x < seats_stopped.len() {
                            assert(self.stopped_jobs@[x] == seats_stopped[x]);
                            assert(state::holds_ticket(seats_stopped, t));
                        }
                    }
                }
                assert forall|k: int| 0 <= k < self.background_jobs@.len() implies state::holds_ticket(
                    old(self).background_jobs@,
                    (#[trigger] self.background_jobs@[k]).ticket@,
                ) by {
                    if k < seats.len() {
                        assert(self.background_jobs@[k] == seats[k]);
                    }
                }
                assert forall|k: int| n <= k < self.stopped_jobs@.len() implies state::holds_ticket(
                    old(self).background_jobs@,
                    (#[trigger] self.stopped_jobs@[k]).ticket@,
                ) by {
                    if k < seats_stopped.len() {
                        assert(self.stopped_jobs@[k] == seats_stopped[k]);
                    }
                }
                done = done + 1;
                let now_kept = state::jobs_of(self.background_jobs@);
                let now_stopped = state::jobs_of(self.stopped_jobs@);
                assert(now_kept.len() == self.background_jobs@.len());
                assert(now_stopped.len() == self.stopped_jobs@.len());
                if now_kept.len() == kept.len() + 1 {
                    assert(now_kept.drop_last() =~= kept);
                    assert(now_kept.last() == job);
                }
                if now_stopped.len() == stopped.len() + 1 {
                    assert(now_stopped.take(n) =~= stopped.take(n));
                    assert(now_stopped.skip(n) =~= stopped.skip(n).push(job));
                    assert(now_stopped.skip(n).drop_last() =~= stopped.skip(n));
                    assert(now_stopped.skip(n).last() == job);
                }
            }
        }
        proof {
            assert(state::jobs_of(pending@).len() == 0);
            assert(jobs.take(done) =~= jobs);
        }
    }
}

/// Jobs with the same plan hold programs only together.
pub proof fn lemma_same_plan_external(a: Job, b: Job)
    requires
        a.same_plan(&b),
    ensures
        a.all_external() == b.all_external(),
    decreases a,
{
    match (a.configuration, b.configuration) {
        (Configuration::Pipeline(l, r), Configuration::Pipeline(left, right)) => {
            lemma_same_plan_external(*l, *left);
            lemma_same_plan_external(*r, *right);
        },
        _ => {},
    }
}

/// A job of programs only that has just been started runs.
pub proof fn lemma_begun_runs(job: Job)
    requires
        job.begun(),
        job.all_external(),
    ensures
        job.status.is_running(),
    decreases job,
{
    match job.configuration {
        Configuration::Pipeline(l, r) => {
            lemma_begun_runs(*r);
        },
        _ => {},
    }
}

} // verus!
