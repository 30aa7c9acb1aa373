//! Jobs: what a parsed command becomes before it runs, and how it runs.

use vstd::prelude::*;

pub mod builder;
pub mod run;

verus! {

/// What a descriptor of a command is connected to when the command starts.
#[derive(Debug)]
pub enum FdOption {
    /// Writes go to the end of the named file, created when missing.
    Append(String),
    /// Writes go to the named file, which is first removed and made anew.
    Overwrite(String),
    /// Reads come from the named file.
    Input(String),
    /// The descriptor becomes a copy of another descriptor.
    Fd(i32),
}

/// What `waitpid` last said of a process.
#[derive(Debug, Clone, Copy, PartialEq, Eq, Structural)]
pub enum WaitState {
    /// Running; nothing to report.
    StillAlive,
    /// Stopped by the signal with this number.
    Stopped(i32),
    /// Resumed after a stop.
    Continued,
    /// Ended on its own with this exit code.
    Exited(i32),
    /// Ended by the signal with this number.
    Signaled(i32),
    /// Halted under a tracer.
    PtraceEvent,
}

/// Where a job is in its life.
#[derive(Debug, Clone, Copy, PartialEq, Eq, Structural)]
pub enum Status {
    /// Built and not yet run.
    NotStarted,
    /// Run: the process id, the process group id, and the last wait report.
    Started(i32, i32, WaitState),
}

/// Why a job could not be built or run.
#[derive(Debug)]
pub enum Error {
    /// No process could be created.
    Fork,
    /// The program's path or an argument holds a NUL character.
    StringEncoding,
    /// A sub-shell could not be built or run, for the reason inside.
    Subshell(Box<Error>),
    /// A sub-shell ran and did not exit normally.
    SubshellExecution,
    /// Nothing to run was found under this name.
    CommandNotFound(String),
    /// There is no search path in the environment.
    CorruptPath,
    /// The left side of a pipeline failed, for the reason inside.
    LeftPipe(Box<Error>),
    /// The right side of a pipeline failed, for the reason inside.
    RightPipe(Box<Error>),
    /// A pipe could not be made, closed or read.
    Pipe,
    /// Waiting on a process, or signalling it, failed.
    Wait,
}

/// What a job runs.
#[derive(Debug)]
pub enum Configuration {
    /// A program in a process of its own: its path, its arguments, and
    /// the redirections in the order they are applied, one per descriptor.
    External(String, Vec<String>, Vec<(i32, FdOption)>),
    /// A command the shell carries out itself: its name, its arguments,
    /// and the redirections.
    Builtin(String, Vec<String>, Vec<(i32, FdOption)>),
    /// Two jobs, the output of the first feeding the input of the second.
    Pipeline(Box<Job>, Box<Job>),
}

/// Something to run, and how far it has got.
#[derive(Debug)]
pub struct Job {
    /// Where the job is in its life.
    pub status: Status,
    /// What the job wrote, where it was run to capture that.
    pub output: Option<String>,
    /// What the job runs.
    pub configuration: Configuration,
    /// Whether the shell goes on without waiting for the job.
    pub background: bool,
}

/// What the shell carries out itself when a job names a builtin.
pub trait BuiltinHandler {
    /// What the handler needs to hold of itself between calls. It may
    /// count on this at every call and restores it before it returns.
    /// Nothing, unless a handler says otherwise.
    open spec fn ready(&self) -> bool {
        true
    }

    /// The jobs the handler holds, queue by queue. Asking whether a name
    /// is a builtin leaves them as they are. None, unless a handler says
    /// otherwise.
    open spec fn held(&self) -> Seq<Seq<Job>> {
        Seq::empty()
    }

    /// Carries out the builtin `name` with its arguments and returns its
    /// exit code.
    fn handle_builtin(&mut self, name: &str, args: &[String]) -> (code: i8)
        requires
            old(self).ready(),
        ensures
            final(self).ready(),
    ;

    /// Whether `name` is a builtin.
    fn is_builtin(&mut self, name: &str) -> (known: bool)
        requires
            old(self).ready(),
        ensures
            final(self).ready(),
            final(self).held() == old(self).held(),
    ;
}

/// What a new process has to become: returned, in the new process only,
/// by whatever started it. The caller resets the signal handlers, replaces
/// the process image when `prepared` holds, and exits with a failure code
/// if it is still there afterwards.
#[derive(Debug)]
pub struct ChildImage {
    /// The program to execute.
    pub path: String,
    /// Its arguments, the program's own name not among them.
    pub args: Vec<String>,
    /// Whether descriptors and process group were set up as planned.
    pub prepared: bool,
    /// The descriptor the program was planned to read from, where its
    /// standard input is not the shell's own.
    pub input: Option<i32>,
    /// The descriptor the program was planned to write to, where its
    /// standard output is not the shell's own.
    pub output: Option<i32>,
}

/// How a call that may create a process came back.
#[derive(Debug)]
pub enum Run<T> {
    /// In the calling process, with the call's result.
    Done(T),
    /// In a process the call created.
    Child(ChildImage),
}

/// A descriptor that stands for an end of a pipe: any descriptor can.
pub open spec fn pipe_end(fd: i32) -> bool {
    true
}

impl WaitState {
    /// The process can still run: it has neither exited nor been killed.
    pub open spec fn is_live(self) -> bool {
        !(self is Exited) && !(self is Signaled)
    }

    /// The process runs right now, as far as is known.
    pub open spec fn is_running(self) -> bool {
        self is StillAlive || self is Continued
    }

    /// Whether the process has ended, by exit or by signal.
    pub fn has_ended(&self) -> (r: bool)
        ensures
            r == !self.is_live(),
    {
        match self {
            WaitState::Exited(_) => true,
            WaitState::Signaled(_) => true,
            _ => false,
        }
    }

    /// Whether the process runs right now, as far as is known.
    pub fn running(&self) -> (r: bool)
        ensures
            r == self.is_running(),
    {
        match self {
            WaitState::StillAlive => true,
            WaitState::Continued => true,
            _ => false,
        }
    }
}

impl Status {
    /// The process group of a started job.
    pub open spec fn spec_pgid(self) -> Option<i32> {
        match self {
            Status::NotStarted => None,
            Status::Started(_, pgid, _) => Some(pgid),
        }
    }

    /// The process id of a started job.
    pub open spec fn spec_pid(self) -> Option<i32> {
        match self {
            Status::NotStarted => None,
            Status::Started(pid, _, _) => Some(pid),
        }
    }

    /// The process group of a started job, `None` before the job has run.
    pub fn pgid(&self) -> (r: Option<i32>)
        ensures
            r == self.spec_pgid(),
    {
        match self {
            Status::NotStarted => None,
            Status::Started(_, pgid, _) => Some(*pgid),
        }
    }

    /// The process id of a started job, `None` before the job has run.
    pub fn pid(&self) -> (r: Option<i32>)
        ensures
            r == self.spec_pid(),
    {
        match self {
            Status::NotStarted => None,
            Status::Started(pid, _, _) => Some(*pid),
        }
    }

    /// The job has run and its process runs right now.
    pub open spec fn is_running(self) -> bool {
        self matches Status::Started(_, _, w) && w.is_running()
    }

    /// The job has run and its process is stopped.
    pub open spec fn is_stopped(self) -> bool {
        self matches Status::Started(_, _, w) && w is Stopped
    }
}

impl Job {
    /// The number of pipeline nodes on the longest way down the tree.
    pub open spec fn height(&self) -> nat
        decreases self,
    {
        match self.configuration {
            Configuration::Pipeline(l, r) => 1 + if l.height() > r.height() {
                l.height()
            } else {
                r.height()
            },
            _ => 0,
        }
    }

    /// Nothing in the tree has been run.
    pub open spec fn fresh(&self) -> bool
        decreases self,
    {
        self.status is NotStarted && match self.configuration {
            Configuration::Pipeline(l, r) => l.fresh() && r.fresh(),
            _ => true,
        }
    }

    /// Everything in the tree has been run.
    pub open spec fn launched(&self) -> bool
        decreases self,
    {
        self.status is Started && match self.configuration {
            Configuration::Pipeline(l, r) => l.launched() && r.launched(),
            _ => true,
        }
    }

    /// Every command in the tree is a program in a process of its own.
    pub open spec fn all_external(&self) -> bool
        decreases self,
    {
        match self.configuration {
            Configuration::External(_, _, _) => true,
            Configuration::Builtin(_, _, _) => false,
            Configuration::Pipeline(l, r) => l.all_external() && r.all_external(),
        }
    }

    /// The image is that of a program of the tree: its path and its
    /// arguments.
    pub open spec fn is_image_of(&self, image: ChildImage) -> bool
        decreases self,
    {
        match self.configuration {
            Configuration::External(path, args, _) => image.path@ == path@ && image.args@ == args@,
            Configuration::Builtin(_, _, _) => false,
            Configuration::Pipeline(l, r) => l.is_image_of(image) || r.is_image_of(image),
        }
    }

    /// The image is that of a program of the tree, as the tree wires it
    /// when it is started to read from `input` and to write to `output`:
    /// a command reads and writes there; the left side of a pipeline
    /// writes to a descriptor of its own and the right side reads from
    /// one.
    pub open spec fn wired(&self, image: ChildImage, input: Option<i32>, output: Option<i32>) -> bool
        decreases self,
    {
        match self.configuration {
            Configuration::External(path, args, _) => image.path@ == path@ && image.args@ == args@ && image.input
                == input && image.output == output,
            Configuration::Builtin(_, _, _) => false,
            Configuration::Pipeline(l, r) => exists|end: i32|
                #[trigger] pipe_end(end) && (l.wired(image, input, Some(end)) || r.wired(image, Some(end), output)),
        }
    }

    /// The two jobs are to run the same things in the same way; only how
    /// far they have got may differ.
    pub open spec fn same_plan(&self, other: &Job) -> bool
        decreases self,
    {
        &&& self.background == other.background
        &&& self.output == other.output
        &&& match (self.configuration, other.configuration) {
            (Configuration::External(p, a, o), Configuration::External(path, args, options)) => p == path
                && a == args && o == options,
            (Configuration::Builtin(p, a, o), Configuration::Builtin(path, args, options)) => p == path
                && a == args && o == options,
            (Configuration::Pipeline(l, r), Configuration::Pipeline(left, right)) => l.same_plan(&*left)
                && r.same_plan(&*right),
            _ => false,
        }
    }

    /// The process groups are as starting the job with the group `pgid`
    /// gives them: a program is in that group, or, where none is given,
    /// in a new group named after its own process; the right side of a
    /// pipeline is started with the group of the left side.
    pub open spec fn led(&self, pgid: Option<i32>) -> bool
        decreases self,
    {
        match self.configuration {
            Configuration::External(_, _, _) => self.status matches Status::Started(pid, group, _) && match pgid {
                Some(g) => group == g,
                None => group == pid,
            },
            Configuration::Builtin(_, _, _) => true,
            Configuration::Pipeline(l, r) => l.led(pgid) && r.led(l.status.spec_pgid()),
        }
    }

    /// Everything in the tree has just been started: a builtin has run to
    /// its end, a program is alive, and a pipeline has the status of its
    /// right side.
    pub open spec fn begun(&self) -> bool
        decreases self,
    {
        match self.configuration {
            Configuration::External(_, _, _) => self.status matches Status::Started(_, _, w) && w is StillAlive,
            Configuration::Builtin(_, _, _) => self.status matches Status::Started(_, _, w) && w is Exited,
            Configuration::Pipeline(l, r) => l.begun() && r.begun() && self.status == r.status,
        }
    }

    /// In every pipeline of the tree the pipeline's status is that of its
    /// right side, and where the right side holds programs only, both
    /// sides were put in the same process group.
    pub open spec fn groups_agree(&self) -> bool
        decreases self,
    {
        match self.configuration {
            Configuration::Pipeline(l, r) => {
                &&& self.status == r.status
                &&& (r.all_external() ==> l.status.spec_pgid() == r.status.spec_pgid())
                &&& l.groups_agree()
                &&& r.groups_agree()
            },
            _ => true,
        }
    }

    /// A job that runs a program in a process of its own.
    pub fn external(
        path: String,
        args: Vec<String>,
        options: Vec<(i32, FdOption)>,
        background: bool,
    ) -> (job: Job)
        ensures
            job.fresh(),
            job.all_external(),
            job.background == background,
            job.output is None,
            job.configuration == Configuration::External(path, args, options),
    {
        Job {
            status: Status::NotStarted,
            output: None,
            configuration: Configuration::External(path, args, options),
            background,
        }
    }

    /// A job that has the shell itself carry out a builtin.
    pub fn builtin(
        name: String,
        args: Vec<String>,
        options: Vec<(i32, FdOption)>,
        background: bool,
    ) -> (job: Job)
        ensures
            job.fresh(),
            !job.all_external(),
            job.background == background,
            job.output is None,
            job.configuration == Configuration::Builtin(name, args, options),
    {
        Job {
            status: Status::NotStarted,
            output: None,
            configuration: Configuration::Builtin(name, args, options),
            background,
        }
    }

    /// A job that runs `left` and `right` with a pipe between them, in
    /// the background where `background` says so.
    pub fn pipeline(left: Job, right: Job, background: bool) -> (job: Job)
        requires
            left.fresh(),
            right.fresh(),
        ensures
            job.fresh(),
            job.background == background,
            job.output is None,
            job.configuration == Configuration::Pipeline(Box::new(left), Box::new(right)),
    {
        Job {
            status: Status::NotStarted,
            output: None,
            configuration: Configuration::Pipeline(Box::new(left), Box::new(right)),
            background,
        }
    }

    /// Where the job is in its life.
    pub fn get_status(&self) -> (s: Status)
        ensures
            s == self.status,
    {
        self.status
    }
}

} // verus!
