//! Job control: the builtins `fg`, `bg` and `jobs`.

use vstd::prelude::*;
use crate::state::jobs::{BuiltinHandler, Job, Status, WaitState};
use crate::state::{ShellState, Slot};
use crate::state;
use crate::text;

verus! {

/// The word the `jobs` report uses for a status.
pub open spec fn status_word(status: Status) -> Seq<char> {
    match status {
        Status::NotStarted => "waiting"@,
        Status::Started(_, _, WaitState::StillAlive) => "running"@,
        Status::Started(_, _, WaitState::Continued) => "running"@,
        Status::Started(_, _, WaitState::Stopped(_)) => "stopped"@,
        Status::Started(_, _, WaitState::Exited(_)) => "exited"@,
        Status::Started(_, _, WaitState::Signaled(_)) => "killed"@,
        Status::Started(_, _, WaitState::PtraceEvent) => "traced"@,
    }
}

/// The line of the `jobs` report for the job at place `index` of a queue:
/// two spaces, the place, a colon, the status word and what the job runs.
pub open spec fn report_line(index: nat, job: Job) -> Seq<char> {
    "  "@ + text::decimal_nat(index) + ": "@ + status_word(job.status) + " "@ + state::command_line(
        job,
    )
}

/// The lines of the `jobs` report for a queue.
pub open spec fn report_lines(queue: Seq<Slot>) -> Seq<Seq<char>> {
    Seq::new(queue.len(), |i: int| report_line(i as nat, queue[i].job))
}

/// The `jobs` report: a heading and a line for each background job, then
/// a heading and a line for each stopped job.
pub open spec fn report(background: Seq<Slot>, stopped: Seq<Slot>) -> Seq<Seq<char>> {
    seq!["background: "@] + report_lines(background) + seq!["stopped: "@] + report_lines(stopped)
}

fn word_for(status: Status) -> (r: String)
    ensures
        r@ == status_word(status),
{
    match status {
        Status::NotStarted => "waiting".to_owned(),
        Status::Started(_, _, WaitState::StillAlive) => "running".to_owned(),
        Status::Started(_, _, WaitState::Continued) => "running".to_owned(),
        Status::Started(_, _, WaitState::Stopped(_)) => "stopped".to_owned(),
        Status::Started(_, _, WaitState::Exited(_)) => "exited".to_owned(),
        Status::Started(_, _, WaitState::Signaled(_)) => "killed".to_owned(),
        Status::Started(_, _, WaitState::PtraceEvent) => "traced".to_owned(),
    }
}

fn line_for(index: usize, job: &Job) -> (r: String)
    ensures
        r@ == report_line(index as nat, *job),
{
    let mut r = "  ".to_owned();
    let place = text::decimal_u64(index as u64);
    r.append(place.as_str());
    r.append(": ");
    let word = word_for(job.status);
    r.append(word.as_str());
    r.append(" ");
    let command = state::describe(job);
    r.append(command.as_str());
    r
}

fn add_lines(lines: &mut Vec<String>, queue: &[Slot])
    ensures
        text::views(final(lines)@) == text::views(old(lines)@) + report_lines(queue@),
{
    let ghost before = text::views(lines@);
    let mut i: usize = 0;
    assert(text::views(lines@) =~= before + report_lines(queue@).take(0));
    while i < queue.len()
        invariant
            i <= queue.len(),
            text::views(lines@) == before + report_lines(queue@).take(i as int),
        decreases queue.len() - i,
    {
        let line = line_for(i, &queue[i].job);
        let ghost had = text::views(lines@);
        lines.push(line);
        assert(text::views(lines@) =~= had.push(line@));
        assert(report_lines(queue@).take(i + 1) =~= report_lines(queue@).take(i as int).push(
            report_line(i as nat, queue@[i as int].job),
        ));
        assert(text::views(lines@) =~= before + report_lines(queue@).take(i + 1));
        i += 1;
    }
    assert(report_lines(queue@).take(queue.len() as int) =~= report_lines(queue@));
}

impl<H: BuiltinHandler> ShellState<H> {
    /// The `jobs` report, see [`report`].
    pub fn jobs(&self) -> (lines: Vec<String>)
        ensures
            text::views(lines@) == report(self.background_jobs@, self.stopped_jobs@),
    {
        let mut lines: Vec<String> = Vec::new();
        lines.push("background: ".to_owned());
        assert(text::views(lines@) =~= seq!["background: "@]);
        add_lines(&mut lines, self.background_jobs.as_slice());
        let ghost upper = text::views(lines@);
        lines.push("stopped: ".to_owned());
        assert(text::views(lines@) =~= upper + seq!["stopped: "@]);
        add_lines(&mut lines, self.stopped_jobs.as_slice());
        lines
    }

    /// Has the host write one line to standard error.
    fn complain(&mut self, message: String)
        requires
            old(self).wf(),
        ensures
            final(self).wf(),
            final(self).foreground_jobs == old(self).foreground_jobs,
            final(self).background_jobs == old(self).background_jobs,
            final(self).stopped_jobs == old(self).stopped_jobs,
            final(self).current_job_pid == old(self).current_job_pid,
    {
        let mut words: Vec<String> = Vec::new();
        words.push(message);
        let _ = self.host.handle_builtin("echo-stderr", words.as_slice());
    }

    /// What `fg` makes of the queues, see [`ShellState::fg`]. The job
    /// moves with its ticket.
    pub open spec fn fg_outcome(before: &Self, after: &Self, argument: Option<Seq<char>>, code: i8) -> bool {
        &&& ({
            let target = state::target_pid(
                true,
                argument,
                before.stopped_jobs@,
                before.background_jobs@,
            );
            match target {
                None => code == -1,
                Some(pid) => match state::first_with_pid(before.stopped_jobs@, pid) {
                    Some(i) => {
                        &&& code == 0
                        &&& after.foreground_jobs@ == seq![before.stopped_jobs@[i]] + before.foreground_jobs@
                        &&& state::jobs_of(after.foreground_jobs@) == seq![
                            before.stopped_jobs@[i].job,
                        ] + state::jobs_of(before.foreground_jobs@)
                        &&& state::jobs_of(after.stopped_jobs@) == state::jobs_of(
                            before.stopped_jobs@,
                        ).remove(i)
                        &&& after.background_jobs == before.background_jobs
                    },
                    None => match state::first_with_pid(before.background_jobs@, pid) {
                        Some(i) => {
                            &&& code == 0
                            &&& after.foreground_jobs@ == seq![before.background_jobs@[i]] + before.foreground_jobs@
                            &&& state::jobs_of(after.foreground_jobs@) == seq![
                                before.background_jobs@[i].job,
                            ] + state::jobs_of(before.foreground_jobs@)
                            &&& state::jobs_of(after.background_jobs@) == state::jobs_of(
                                before.background_jobs@,
                            ).remove(i)
                            &&& after.stopped_jobs == before.stopped_jobs
                        },
                        None => code == -1,
                    },
                },
            }
        })
        &&& code == -1 ==> {
            &&& after.foreground_jobs == before.foreground_jobs
            &&& after.background_jobs == before.background_jobs
            &&& after.stopped_jobs == before.stopped_jobs
        }
    }

    /// What `bg` makes of the queues, see [`ShellState::bg`]. The job
    /// keeps its ticket.
    pub open spec fn bg_outcome(before: &Self, after: &Self, argument: Option<Seq<char>>, code: i8) -> bool {
        &&& after.foreground_jobs == before.foreground_jobs
        &&& code == 0 || code == -1
        &&& ({
            let target = state::target_pid(
                false,
                argument,
                before.stopped_jobs@,
                before.background_jobs@,
            );
            match target {
                None => code == -1,
                Some(pid) => match state::first_with_pid(before.stopped_jobs@, pid) {
                    None => code == -1,
                    Some(i) => {
                        let job = before.stopped_jobs@[i].job;
                        if code == 0 {
                            &&& state::jobs_of(after.stopped_jobs@) == state::jobs_of(
                                before.stopped_jobs@,
                            ).remove(i)
                            &&& after.background_jobs@.len() > 0
                            &&& state::jobs_of(after.background_jobs@).drop_last() == state::jobs_of(
                                before.background_jobs@,
                            )
                            &&& Job::continued(&job, &after.background_jobs@.last().job, Ok(()))
                            &&& after.background_jobs@.last().ticket@ == before.stopped_jobs@[i].ticket@
                        } else {
                            &&& i < after.stopped_jobs@.len()
                            &&& state::jobs_of(after.stopped_jobs@) == state::jobs_of(
                                before.stopped_jobs@,
                            ).update(i, after.stopped_jobs@[i].job)
                            &&& Job::continued(
                                &job,
                                &after.stopped_jobs@[i].job,
                                Err(crate::state::jobs::Error::Wait),
                            )
                            &&& after.stopped_jobs@[i].ticket@ == before.stopped_jobs@[i].ticket@
                        }
                    },
                },
            }
        })
        &&& code == 0 ==> {
            &&& after.background_jobs@.len() == before.background_jobs@.len() + 1
            &&& after.background_jobs@.last().job.status.is_running()
            &&& after.stopped_jobs@.len() + 1 == before.stopped_jobs@.len()
            &&& (state::all_running(before.background_jobs@) ==> state::all_running(
                after.background_jobs@,
            ))
        }
        &&& code == -1 ==> {
            &&& after.background_jobs == before.background_jobs
            &&& after.stopped_jobs@.len() == before.stopped_jobs@.len()
        }
    }

    /// The builtin `fg`: puts a job at the head of the jobs that wait to
    /// run in the foreground. The job is the one [`state::target_pid`]
    /// names, taken from the stopped jobs or, where it is not among them,
    /// from the background jobs. Returns 0 when a job was moved, -1 when
    /// there is no such job; the queues are then as they were.
    pub fn fg(&mut self, argument: Option<&str>) -> (code: i8)
        requires
            old(self).wf(),
        ensures
            final(self).wf(),
            Self::fg_outcome(
                old(self),
                final(self),
                match argument {
                    Some(a) => Some(a@),
                    None => None,
                },
                code,
            ),
    {
        let target = match argument {
            Some(a) => text::parse_decimal(a),
            None => match state::max_job_pid(self.stopped_jobs.as_slice()) {
                Some(p) => Some(p),
                None => state::max_job_pid(self.background_jobs.as_slice()),
            },
        };
        match target {
            None => {
                self.complain("error: no such job".to_owned());
                -1
            },
            Some(pid) => {
                proof {
                    state::lemma_first_with_pid(self.stopped_jobs@, pid);
                    state::lemma_first_with_pid(self.background_jobs@, pid);
                }
                match state::find_job_by_pid(self.stopped_jobs.as_slice(), pid) {
                    Some(i) => {
                        let (job, ticket) = self.take_stopped_slot(i);
                        self.put_foreground_first_as(job, ticket);
                        0
                    },
                    None => match state::find_job_by_pid(self.background_jobs.as_slice(), pid) {
                        Some(i) => {
                            let (job, ticket) = self.take_background_slot(i);
                            self.put_foreground_first_as(job, ticket);
                            0
                        },
                        None => {
                            self.complain("error: no such job".to_owned());
                            -1
                        },
                    },
                }
            },
        }
    }

    /// The builtin `bg`: resumes a stopped job in the background. The job
    /// is the one [`state::target_pid`] names and is taken from the
    /// stopped jobs. Returns 0 when the job was resumed and is now the last
    /// of the background jobs; -1 when there is no such job among the
    /// stopped jobs, and nothing has changed, or when the job could not be
    /// resumed: it is then still stopped and in its place among the stopped
    /// jobs.
    pub fn bg(&mut self, argument: Option<&str>) -> (code: i8)
        requires
            old(self).wf(),
        ensures
            final(self).wf(),
            Self::bg_outcome(
                old(self),
                final(self),
                match argument {
                    Some(a) => Some(a@),
                    None => None,
                },
                code,
            ),
    {
        let target = match argument {
            Some(a) => text::parse_decimal(a),
            None => state::max_job_pid(self.stopped_jobs.as_slice()),
        };
        match target {
            None => {
                self.complain("error: no such job".to_owned());
                -1
            },
            Some(pid) => {
                match state::find_job_by_pid(self.stopped_jobs.as_slice(), pid) {
                    None => {
                        let mut message = "error: job ".to_owned();
                        let number = text::decimal(pid);
                        message.append(number.as_str());
                        message.append(" has not stopped");
                        self.complain(message);
                        -1
                    },
                    Some(i) => {
                        let (mut job, ticket) = self.take_stopped_slot(i);
                        match job.cont(true) {
                            Ok(_) => {
                                let ghost had = self.background_jobs@;
                                self.put_background_as(job, ticket);
                                assert(state::jobs_of(self.background_jobs@).last() == job);
                                assert(state::jobs_of(self.background_jobs@).drop_last() =~= state::jobs_of(had));
                                assert(self.background_jobs@.len() == had.len() + 1) by {
                                    assert(state::jobs_of(self.background_jobs@).len() == self.background_jobs@.len());
                                    assert(state::jobs_of(had).len() == had.len());
                                }
                                0
                            },
                            Err(_) => {
                                let ghost had = self.stopped_jobs@;
                                assert(state::jobs_of(had).len() == had.len());
                                assert(state::jobs_of(old(self).stopped_jobs@).len() == old(self).stopped_jobs@.len());
                                self.put_stopped_as(i, job, ticket);
                                assert(state::jobs_of(self.stopped_jobs@) =~= state::jobs_of(
                                    old(self).stopped_jobs@,
                                ).update(i as int, job));
                                assert(state::jobs_of(self.stopped_jobs@)[i as int] == job);
                                assert(self.stopped_jobs@.len() == had.len() + 1) by {
                                    assert(state::jobs_of(self.stopped_jobs@).len() == self.stopped_jobs@.len());
                                    assert(state::jobs_of(had).len() == had.len());
                                }
                                assert(had.len() + 1 == old(self).stopped_jobs@.len()) by {
                                    assert(state::jobs_of(had).len() == had.len());
                                    assert(state::jobs_of(old(self).stopped_jobs@).len() == old(self).stopped_jobs@.len());
                                }
                                -1
                            },
                        }
                    },
                }
            },
        }
    }
}

/// The line `echo` writes: its arguments with single spaces between
/// them.
pub fn echo_line(args: &[String]) -> (line: String)
    ensures
        line@ == text::joined(text::views(args@), " "@),
{
    text::join(args, " ")
}

/// Whether a name is one of the builtins that are not about jobs: `cd`,
/// `echo`, `echo-stderr`, `exit` and `set`.
pub fn is_host_builtin(name: &str) -> (known: bool)
    ensures
        known == (name@ == "cd"@ || name@ == "echo"@ || name@ == "echo-stderr"@ || name@ == "exit"@ || name@
            == "set"@),
{
    text::same_text(name, "cd") || text::same_text(name, "echo") || text::same_text(name, "echo-stderr")
        || text::same_text(name, "exit") || text::same_text(name, "set")
}

/// Whether a name can be the name of an environment variable: it is not
/// empty and holds neither `=` nor a NUL character.
pub open spec fn variable_name(name: Seq<char>) -> bool {
    name.len() > 0 && !name.contains('=') && !name.contains('\0')
}

/// The variable `set` is to set and its value: the first two arguments,
/// where there are two, the first can name a variable and the second
/// holds no NUL character.
pub fn set_arguments(args: &[String]) -> (r: Option<(String, String)>)
    ensures
        match r {
            Some((name, value)) => args@.len() >= 2 && name@ == args@[0]@ && value@ == args@[1]@
                && variable_name(name@) && !value@.contains('\0'),
            None => args@.len() < 2 || !variable_name(args@[0]@) || args@[1]@.contains('\0'),
        },
{
    if args.len() < 2 {
        return None;
    }
    let name = args[0].as_str();
    let value = args[1].as_str();
    if name.unicode_len() == 0 || text::has_char(name, '=') || text::has_char(name, '\0') || text::has_char(
        value,
        '\0',
    ) {
        return None;
    }
    Some((args[0].clone(), args[1].clone()))
}

impl<H: BuiltinHandler> BuiltinHandler for ShellState<H> {
    /// The manager is ready when it is well formed.
    open spec fn ready(&self) -> bool {
        self.wf()
    }

    /// The jobs that wait to run in the foreground, the background jobs
    /// and the stopped jobs.
    open spec fn held(&self) -> Seq<Seq<Job>> {
        seq![
            state::jobs_of(self.foreground_jobs@),
            state::jobs_of(self.background_jobs@),
            state::jobs_of(self.stopped_jobs@),
        ]
    }

    /// Carries out `fg`, `bg` and `jobs` itself, `jobs` by handing the
    /// report to the host to write out; any other builtin is the host's.
    ///
    /// `fg` and `bg` are given the first argument, where there is one,
    /// and do what [`ShellState::fg_outcome`] and
    /// [`ShellState::bg_outcome`] say. `jobs` hands the host its report
    /// and `echo` and `echo-stderr` hand it the one line to write, see
    /// [`echo_line`]; each returns 0. These and the builtins of the host
    /// leave the queues as they are.
    fn handle_builtin(&mut self, name: &str, args: &[String]) -> (code: i8)
        ensures
            ({
                let first = if args@.len() > 0 {
                    Some(args@[0]@)
                } else {
                    None
                };
                if name@ == "fg"@ {
                    Self::fg_outcome(old(self), final(self), first, code)
                } else if name@ == "bg"@ {
                    Self::bg_outcome(old(self), final(self), first, code)
                } else {
                    &&& final(self).foreground_jobs == old(self).foreground_jobs
                    &&& final(self).background_jobs == old(self).background_jobs
                    &&& final(self).stopped_jobs == old(self).stopped_jobs
                    &&& final(self).current_job_pid == old(self).current_job_pid
                    &&& final(self).killed == old(self).killed
                    &&& name@ == "jobs"@ || name@ == "echo"@ || name@ == "echo-stderr"@ ==> code == 0
                }
            }),
    {
        let first = if args.len() > 0 {
            Some(args[0].as_str())
        } else {
            None
        };
        if text::same_text(name, "fg") {
            self.fg(first)
        } else if text::same_text(name, "bg") {
            self.bg(first)
        } else if text::same_text(name, "jobs") {
            let lines = self.jobs();
            let _ = self.host.handle_builtin(name, lines.as_slice());
            0
        } else if text::same_text(name, "echo") || text::same_text(name, "echo-stderr") {
            let mut lines: Vec<String> = Vec::new();
            lines.push(echo_line(args));
            let _ = self.host.handle_builtin(name, lines.as_slice());
            0
        } else {
            self.host.handle_builtin(name, args)
        }
    }

    /// `fg`, `bg` and `jobs` are builtins; any other name is asked of the
    /// host.
    /// Asking changes no queue, and for `fg`, `bg` and `jobs` nothing at
    /// all.
    fn is_builtin(&mut self, name: &str) -> (known: bool)
        ensures
            final(self).foreground_jobs == old(self).foreground_jobs,
            final(self).background_jobs == old(self).background_jobs,
            final(self).stopped_jobs == old(self).stopped_jobs,
            final(self).current_job_pid == old(self).current_job_pid,
            final(self).killed == old(self).killed,
            name@ == "fg"@ || name@ == "bg"@ || name@ == "jobs"@ ==> known && *final(self) == *old(self),
    {
        if text::same_text(name, "fg") || text::same_text(name, "bg") || text::same_text(name, "jobs") {
            true
        } else {
            self.host.is_builtin(name)
        }
    }
}

} // verus!
