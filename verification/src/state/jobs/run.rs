//! The executor: starting a job's processes, wiring their descriptors,
//! waiting for them and resuming them.

use vstd::prelude::*;
use vstd::multiset::Multiset;
use crate::state::jobs::builder;
use crate::state::jobs::{BuiltinHandler, ChildImage, Configuration, Error, FdOption, Job, Run, Status, WaitState};
use crate::sys::{ForkOutcome, Os};
use crate::sys;
use crate::text;

verus! {

broadcast use vstd::multiset::group_multiset_axioms;

/// One entry of the log of descriptor changes: descriptor `src` was
/// overlaid after a copy of it was put aside as `saved`; `opened` is the
/// file that was opened to overlay it, where one was.
#[derive(Debug, Clone, Copy)]
pub struct FdChange {
    pub src: i32,
    pub saved: i32,
    pub opened: Option<i32>,
}

/// The descriptors one entry of the log holds open.
pub open spec fn change_fds(c: FdChange) -> Multiset<i32> {
    match c.opened {
        Some(n) => Multiset::empty().insert(c.saved).insert(n),
        None => Multiset::empty().insert(c.saved),
    }
}

/// The descriptors a log holds open.
pub open spec fn log_fds(log: Seq<FdChange>) -> Multiset<i32>
    decreases log.len(),
{
    if log.len() == 0 {
        Multiset::empty()
    } else {
        log_fds(log.drop_last()).add(change_fds(log.last()))
    }
}

proof fn lemma_log_push(log: Seq<FdChange>, c: FdChange)
    ensures
        log_fds(log.push(c)) == log_fds(log).add(change_fds(c)),
{
    assert(log.push(c).drop_last() =~= log);
}

/// A copy of `list` with `fd` added at its end.
fn extended(list: &[i32], fd: i32) -> (r: Vec<i32>)
    ensures
        r@ == list@.push(fd),
{
    let mut r: Vec<i32> = Vec::new();
    let mut i: usize = 0;
    while i < list.len()
        invariant
            i <= list.len(),
            r@ == list@.subrange(0, i as int),
        decreases list.len() - i,
    {
        r.push(list[i]);
        assert(list@.subrange(0, i + 1) =~= list@.subrange(0, i as int).push(list@[i as int]));
        i += 1;
    }
    assert(list@.subrange(0, list.len() as int) =~= list@);
    r.push(fd);
    r
}

/// The descriptors the entries of a log are about, in order.
pub open spec fn sources(log: Seq<FdChange>) -> Seq<i32> {
    Seq::new(log.len(), |i: int| log[i].src)
}

/// The descriptors a command's connections are about, in the order in
/// which they are made: standard input and standard output where one is
/// given, then the descriptor of each redirection.
pub open spec fn planned(input_fd: Option<i32>, output_fd: Option<i32>, options: Seq<(i32, FdOption)>) -> Seq<
    i32,
> {
    (if input_fd is Some {
        seq![sys::STDIN_FD]
    } else {
        Seq::<i32>::empty()
    }) + (if output_fd is Some {
        seq![sys::STDOUT_FD]
    } else {
        Seq::<i32>::empty()
    }) + Seq::new(options.len(), |i: int| options[i].0)
}

/// What one step leaves of the log: the log as it was where no copy
/// could be put aside, else the log with one more entry, about `src`,
/// which holds a file exactly where `file` says so and the file could be
/// opened.
pub open spec fn stepped(before: Seq<FdChange>, after: Seq<FdChange>, src: i32, file: bool, ok: bool) -> bool {
    ||| after == before && !ok
    ||| {
        &&& after.len() == before.len() + 1
        &&& after.drop_last() == before
        &&& after.last().src == src
        &&& (after.last().opened is Some ==> file)
        &&& (ok && file ==> after.last().opened is Some)
    }
}

/// Puts a copy of `src` aside, notes it in the log, and makes `src` refer
/// to what `target` refers to. `true` when both succeeded; the entry is
/// in the log as soon as the copy was made.
fn redirect(os: &mut Os, log: &mut Vec<FdChange>, src: i32, target: i32, Ghost(base): Ghost<Multiset<i32>>) -> (ok: bool)
    requires
        old(os).ledger() == base.add(log_fds(old(log)@)),
    ensures
        final(os).ledger() == base.add(log_fds(final(log)@)),
        final(os).terminal_group() == old(os).terminal_group(),
        stepped(old(log)@, final(log)@, src, false, ok),
{
    match os.dup(src) {
        None => false,
        Some(saved) => {
            let change = FdChange { src, saved, opened: None };
            proof {
                lemma_log_push(log@, change);
                assert(old(os).ledger().insert(saved) =~= base.add(log_fds(log@).add(change_fds(change))));
            }
            log.push(change);
            assert(log@.drop_last() =~= old(log)@);
            os.dup2(target, src)
        },
    }
}

/// Puts a copy of `src` aside, opens the file, notes both in the log, and
/// makes `src` refer to the file. With `replace` a regular file of that
/// name is removed first. `true` when every step succeeded; the entry is
/// in the log as soon as the copy was made.
fn redirect_to_file(
    os: &mut Os,
    log: &mut Vec<FdChange>,
    src: i32,
    path: &str,
    how: sys::OpenHow,
    replace: bool,
    Ghost(base): Ghost<Multiset<i32>>,
) -> (ok: bool)
    requires
        old(os).ledger() == base.add(log_fds(old(log)@)),
    ensures
        final(os).ledger() == base.add(log_fds(final(log)@)),
        final(os).terminal_group() == old(os).terminal_group(),
        stepped(old(log)@, final(log)@, src, true, ok),
{
    match os.dup(src) {
        None => false,
        Some(saved) => {
            let ghost held = os.ledger();
            let removed = if replace && builder::is_regular_file(path) {
                sys::unlink(path)
            } else {
                true
            };
            let opened = if removed {
                os.open(path, how)
            } else {
                None
            };
            let change = FdChange { src, saved, opened };
            proof {
                lemma_log_push(log@, change);
                assert(os.ledger() =~= base.add(log_fds(log@).add(change_fds(change))));
            }
            log.push(change);
            assert(log@.drop_last() =~= old(log)@);
            match opened {
                Some(newfd) => os.dup2(newfd, src),
                None => false,
            }
        },
    }
}

/// Connects the descriptors of the calling process as a command asks:
/// standard input to `input_fd` and standard output to `output_fd` where
/// given, then each redirection in order. Stops at the first step that
/// fails. Returns whether every step succeeded, and the log of what was
/// changed, from which [`reverse_fd_changes`] undoes it.
pub fn apply_fd_changes(
    os: &mut Os,
    input_fd: Option<i32>,
    output_fd: Option<i32>,
    options: &[(i32, FdOption)],
) -> (r: (bool, Vec<FdChange>))
    ensures
        final(os).ledger() == old(os).ledger().add(log_fds(r.1@)),
        final(os).terminal_group() == old(os).terminal_group(),
        r.1@.len() <= planned(input_fd, output_fd, options@).len(),
        sources(r.1@) == planned(input_fd, output_fd, options@).take(r.1@.len() as int),
        r.0 ==> r.1@.len() == planned(input_fd, output_fd, options@).len(),
        planned(input_fd, output_fd, options@).len() == 0 ==> r.0,
        forall|k: int|
            0 <= k < r.1@.len() ==> ((#[trigger] r.1@[k]).opened is Some ==> {
                let first = planned(input_fd, output_fd, options@).len() - options@.len();
                k >= first && !(options@[k - first].1 is Fd)
            }),
        r.0 ==> forall|k: int|
            0 <= k < options@.len() && !((#[trigger] options@[k]).1 is Fd) ==> r.1@[planned(
                input_fd,
                output_fd,
                options@,
            ).len() - options@.len() + k].opened is Some,
{
    let ghost base = os.ledger();
    let ghost plan = planned(input_fd, output_fd, options@);
    let mut log: Vec<FdChange> = Vec::new();
    assert(base.add(log_fds(log@)) =~= base);
    assert(sources(log@) =~= plan.take(0));
    if let Some(input) = input_fd {
        let ok = redirect(os, &mut log, sys::STDIN_FD, input, Ghost(base));
        assert(sources(log@) =~= plan.take(log@.len() as int));
        if !ok {
            return (false, log);
        }
    }
    let ghost head = log@.len();
    if let Some(output) = output_fd {
        let ok = redirect(os, &mut log, sys::STDOUT_FD, output, Ghost(base));
        assert(sources(log@) =~= plan.take(log@.len() as int));
        if !ok {
            return (false, log);
        }
    }
    let ghost first = log@.len();
    assert(first == plan.len() - options@.len());
    let mut i: usize = 0;
    while i < options.len()
        invariant
            i <= options.len(),
            base == old(os).ledger(),
            os.ledger() == base.add(log_fds(log@)),
            os.terminal_group() == old(os).terminal_group(),
            plan == planned(input_fd, output_fd, options@),
            first == plan.len() - options@.len(),
            log@.len() == first + i,
            sources(log@) == plan.take(first + i),
            forall|k: int| 0 <= k < first ==> (#[trigger] log@[k]).opened is None,
            forall|k: int|
                first <= k < first + i ==> ((#[trigger] log@[k]).opened is Some <==> !(options@[k - first].1
                    is Fd)),
        decreases options.len() - i,
    {
        let ghost before = log@;
        let src = options[i].0;
        let ok = match &options[i].1 {
            FdOption::Fd(dest) => redirect(os, &mut log, src, *dest, Ghost(base)),
            FdOption::Append(path) => redirect_to_file(
                os,
                &mut log,
                src,
                path.as_str(),
                sys::OpenHow::Append,
                false,
                Ghost(base),
            ),
            FdOption::Overwrite(path) => redirect_to_file(
                os,
                &mut log,
                src,
                path.as_str(),
                sys::OpenHow::Write,
                true,
                Ghost(base),
            ),
            FdOption::Input(path) => redirect_to_file(
                os,
                &mut log,
                src,
                path.as_str(),
                sys::OpenHow::Read,
                false,
                Ghost(base),
            ),
        };
        proof {
            assert(plan[first + i] == src);
            if log@.len() == before.len() + 1 {
                assert(forall|k: int| 0 <= k < before.len() ==> log@[k] == log@.drop_last()[k]);
                assert(sources(log@) =~= plan.take(first + i + 1));
            }
        }
        if !ok {
            return (false, log);
        }
        i += 1;
    }
    assert(plan.take(plan.len() as int) =~= plan);
    (true, log)
}

/// Undoes a log of descriptor changes, last change first: the copy put
/// aside goes back in place and is closed, and so is the file that was
/// opened. Goes on after a failure; returns whether every step succeeded.
pub fn reverse_fd_changes(os: &mut Os, log: &[FdChange]) -> (ok: bool)
    ensures
        final(os).ledger() == old(os).ledger().sub(log_fds(log@)),
        final(os).terminal_group() == old(os).terminal_group(),
{
    let ghost start = os.ledger();
    let mut ok = true;
    let mut i: usize = log.len();
    assert(log@.subrange(i as int, log.len() as int) =~= Seq::<FdChange>::empty());
    assert(start.sub(tail_fds(log@, i as int)) =~= start);
    while i > 0
        invariant
            i <= log.len(),
            os.ledger() == start.sub(tail_fds(log@, i as int)),
            os.terminal_group() == old(os).terminal_group(),
        decreases i,
    {
        i -= 1;
        let c = log[i];
        if !os.dup2(c.saved, c.src) {
            ok = false;
        }
        if !os.close(c.saved) {
            ok = false;
        }
        if let Some(n) = c.opened {
            if !os.close(n) {
                ok = false;
            }
        }
        proof {
            assert(tail_fds(log@, i as int) == change_fds(c).add(tail_fds(log@, i + 1)));
            assert(os.ledger() =~= start.sub(tail_fds(log@, i as int)));
        }
    }
    proof {
        lemma_tail_is_all(log@, 0);
        assert(log@.subrange(0, log.len() as int) =~= log@);
    }
    ok
}

/// The descriptors held open by the entries of a log from `from` on.
pub open spec fn tail_fds(log: Seq<FdChange>, from: int) -> Multiset<i32>
    decreases log.len() - from,
{
    if from < 0 || from >= log.len() {
        Multiset::empty()
    } else {
        change_fds(log[from]).add(tail_fds(log, from + 1))
    }
}

proof fn lemma_tail_is_all(log: Seq<FdChange>, from: int)
    requires
        0 <= from <= log.len(),
    ensures
        tail_fds(log, from) =~= log_fds(log.subrange(from, log.len() as int)),
    decreases log.len() - from,
{
    let part = log.subrange(from, log.len() as int);
    if from < log.len() {
        lemma_tail_is_all(log, from + 1);
        lemma_fds_cons(part);
        assert(part.drop_first() =~= log.subrange(from + 1, log.len() as int));
    }
}

proof fn lemma_fds_cons(log: Seq<FdChange>)
    requires
        log.len() > 0,
    ensures
        log_fds(log) =~= change_fds(log[0]).add(log_fds(log.drop_first())),
    decreases log.len(),
{
    if log.len() > 1 {
        lemma_fds_cons(log.drop_last());
        assert(log.drop_last().drop_first() =~= log.drop_first().drop_last());
        assert(log.drop_first().last() == log.last());
        assert(log.drop_last()[0] == log[0]);
    } else {
        assert(log.drop_last() =~= Seq::<FdChange>::empty());
        assert(log.drop_first() =~= Seq::<FdChange>::empty());
    }
}


/// A job is to run the same things as itself.
pub proof fn lemma_same_plan_reflexive(job: Job)
    ensures
        job.same_plan(&job),
    decreases job,
{
    match job.configuration {
        Configuration::Pipeline(l, r) => {
            lemma_same_plan_reflexive(*l);
            lemma_same_plan_reflexive(*r);
        },
        _ => {},
    }
}

/// Running the same things carries over from job to job.
pub proof fn lemma_same_plan_transitive(a: Job, b: Job, c: Job)
    requires
        a.same_plan(&b),
        b.same_plan(&c),
    ensures
        a.same_plan(&c),
    decreases a,
{
    match (a.configuration, b.configuration, c.configuration) {
        (
            Configuration::Pipeline(l1, r1),
            Configuration::Pipeline(l2, r2),
            Configuration::Pipeline(l3, r3),
        ) => {
            lemma_same_plan_transitive(*l1, *l2, *l3);
            lemma_same_plan_transitive(*r1, *r2, *r3);
        },
        _ => {},
    }
}

/// An image that a side of a pipeline is wired to, with `end` between
/// the sides, is one the pipeline is wired to.
pub proof fn lemma_wired_side(job: Job, image: ChildImage, input: Option<i32>, output: Option<i32>, end: i32)
    requires
        job.configuration matches Configuration::Pipeline(l, r) && (l.wired(image, input, Some(end)) || r.wired(
            image,
            Some(end),
            output,
        )),
    ensures
        job.wired(image, input, output),
{
    assert(crate::state::jobs::pipe_end(end));
}

/// What waiting for the left side of a pipeline reported: any report
/// can be one.
pub open spec fn report_of_left(x: Result<WaitState, Error>) -> bool {
    true
}

/// What resuming the two sides of a pipeline gave: any two results can
/// be.
pub open spec fn resumed_sides(x: Result<(), Error>, y: Result<(), Error>) -> bool {
    true
}

/// The status of a builtin that has run: that of the shell's own process
/// `pid` in its group, or in a group named after it where the group is
/// not known, exited with the handler's code.
pub fn builtin_status(pid: i32, pgid: Option<i32>, code: i8) -> (status: Status)
    ensures
        status == Status::Started(
            pid,
            match pgid {
                Some(g) => g,
                None => pid,
            },
            WaitState::Exited(code as i32),
        ),
{
    let group = match pgid {
        Some(g) => g,
        None => pid,
    };
    Status::Started(pid, group, WaitState::Exited(code as i32))
}

/// What the calling process makes of an attempt to create a process: an
/// attempt that failed gives [`Error::Fork`]; in the calling process the
/// new process `child` is alive in the group `pgid`, or in a new group
/// named after it where none is given; the new process itself has no
/// status to give.
pub fn started(outcome: ForkOutcome, pgid: Option<i32>) -> (r: Option<Result<Status, Error>>)
    ensures
        match outcome {
            ForkOutcome::Failed => r matches Some(Err(e)) && e is Fork,
            ForkOutcome::Parent(child) => r == Some(
                Ok::<Status, Error>(
                    Status::Started(
                        child,
                        match pgid {
                            Some(g) => g,
                            None => child,
                        },
                        WaitState::StillAlive,
                    ),
                ),
            ),
            ForkOutcome::Child => r is None,
        },
{
    match outcome {
        ForkOutcome::Failed => Some(Err(Error::Fork)),
        ForkOutcome::Parent(child) => {
            let group = match pgid {
                Some(g) => g,
                None => child,
            };
            Some(Ok(Status::Started(child, group, WaitState::StillAlive)))
        },
        ForkOutcome::Child => None,
    }
}

/// Whether the path or one of the arguments holds a NUL character.
pub open spec fn nul_in(path: Seq<char>, args: Seq<String>) -> bool {
    path.contains('\0') || exists|i: int| 0 <= i < args.len() && (#[trigger] args[i])@.contains('\0')
}

/// Carries out a builtin in the shell's own process: connects the
/// descriptors, calls the handler if that succeeded, and puts the
/// descriptors back. The exit code is the handler's, or -1 where it was not
/// called.
fn run_builtin<B: BuiltinHandler>(
    name: &str,
    args: &[String],
    options: &[(i32, FdOption)],
    input_fd: Option<i32>,
    output_fd: Option<i32>,
    handler: &mut B,
    os: &mut Os,
) -> (status: Status)
    requires
        old(handler).ready(),
    ensures
        final(handler).ready(),
        final(os).ledger() == old(os).ledger(),
        final(os).terminal_group() == old(os).terminal_group(),
        status matches Status::Started(_, _, w) && w is Exited,
{
    let (success, log) = apply_fd_changes(os, input_fd, output_fd, options);
    let mut code: i8 = -1;
    if success {
        code = handler.handle_builtin(name, args);
    }
    let _ = reverse_fd_changes(os, log.as_slice());
    assert(old(os).ledger().add(log_fds(log@)).sub(log_fds(log@)) =~= old(os).ledger());
    builtin_status(sys::getpid(), sys::own_pgid(), code)
}

/// Whether the path or one of the arguments holds a NUL character.
fn holds_nul(path: &str, args: &[String]) -> (r: bool)
    ensures
        r == nul_in(path@, args@),
{
    if text::has_char(path, '\0') {
        return true;
    }
    let mut i: usize = 0;
    while i < args.len()
        invariant
            i <= args.len(),
            forall|j: int| 0 <= j < i ==> !args@[j]@.contains('\0'),
        decreases args.len() - i,
    {
        if text::has_char(args[i].as_str(), '\0') {
            return true;
        }
        i += 1;
    }
    false
}

/// What the new process does before it is replaced by the program:
/// connects its descriptors, closes the pipe ends that belong to its
/// neighbours, and joins its process group.
fn prepare_child(
    path: &str,
    args: &[String],
    options: &[(i32, FdOption)],
    input_fd: Option<i32>,
    output_fd: Option<i32>,
    post_fork_close: &[i32],
    pgid: Option<i32>,
    os: &mut Os,
) -> (image: ChildImage)
    ensures
        image.path@ == path@,
        image.args@ == args@,
        image.input == input_fd,
        image.output == output_fd,
{
    let (applied, _log) = apply_fd_changes(os, input_fd, output_fd, options);
    let mut prepared = applied;
    let mut i: usize = 0;
    while i < post_fork_close.len()
        invariant
            i <= post_fork_close.len(),
        decreases post_fork_close.len() - i,
    {
        if !os.close(post_fork_close[i]) {
            prepared = false;
        }
        i += 1;
    }
    if prepared {
        let group = match pgid {
            Some(g) => g,
            None => sys::getpid(),
        };
        prepared = sys::setpgid(0, group);
    }
    ChildImage { path: path.to_owned(), args: text::clone_strings(args), prepared, input: input_fd, output: output_fd }
}

/// Starts a program in a process of its own. In the calling process the
/// child is put in its group, `pgid` or a new one named after the child,
/// and, unless the job is a background job, that group is given the
/// terminal.
fn run_external(
    path: &str,
    args: &[String],
    options: &[(i32, FdOption)],
    input_fd: Option<i32>,
    output_fd: Option<i32>,
    post_fork_close: &[i32],
    pgid: Option<i32>,
    background: bool,
    os: &mut Os,
) -> (r: Run<Result<Status, Error>>)
    ensures
        match r {
            Run::Child(image) => image.path@ == path@ && image.args@ == args@ && image.input == input_fd
                && image.output == output_fd,
            Run::Done(res) => {
                &&& final(os).ledger() == old(os).ledger()
                &&& (background ==> final(os).terminal_group() == old(os).terminal_group())
                &&& match res {
                    Ok(status) => {
                        &&& status matches Status::Started(pid, group, w)
                        &&& w is StillAlive
                        &&& pgid is Some ==> Some(group) == pgid
                        &&& pgid is None ==> group == pid
                    },
                    Err(e) => e is Fork || e is StringEncoding,
                }
                &&& (res matches Err(e) && e is StringEncoding) <==> nul_in(path@, args@)
            },
        },
        nul_in(path@, args@) ==> r is Done,
{
    if holds_nul(path, args) {
        return Run::Done(Err(Error::StringEncoding));
    }
    let outcome = sys::fork();
    match started(outcome, pgid) {
        None => Run::Child(prepare_child(path, args, options, input_fd, output_fd, post_fork_close, pgid, os)),
        Some(Err(e)) => Run::Done(Err(e)),
        Some(Ok(status)) => {
            match status {
                Status::Started(child, group, _) => {
                    let _ = sys::setpgid(child, group);
                    if !background {
                        match os.foreground_group() {
                            Some(existing) => {
                                if existing != group {
                                    let _ = os.hand_terminal(group);
                                }
                            },
                            None => {},
                        }
                    }
                },
                Status::NotStarted => {},
            }
            Run::Done(Ok(status))
        },
    }
}

/// Whether the output of a sub-shell can be read: a sub-shell that did
/// not exit gives [`Error::SubshellExecution`]; one that exited, with a
/// pipe whose writing end could not be closed, gives [`Error::Pipe`].
pub fn capture_ready(waited: Result<WaitState, Error>, closed: bool) -> (r: Result<(), Error>)
    ensures
        match waited {
            Ok(WaitState::Exited(_)) => if closed {
                r is Ok
            } else {
                r matches Err(e) && e is Pipe
            },
            _ => r matches Err(e) && e is SubshellExecution,
        },
{
    match waited {
        Ok(WaitState::Exited(_)) => if closed {
            Ok(())
        } else {
            Err(Error::Pipe)
        },
        _ => Err(Error::SubshellExecution),
    }
}

/// The text a sub-shell wrote: the bytes that were read, where they are
/// UTF-8; bytes that could not be read, and bytes that are no UTF-8, give
/// [`Error::Pipe`].
pub fn captured_text(bytes: Option<Vec<u8>>) -> (r: Result<String, Error>)
    ensures
        match bytes {
            Some(b) => if vstd::utf8::valid_utf8(b@) {
                r matches Ok(s) && vstd::utf8::encode_utf8(s@) == b@
            } else {
                r matches Err(e) && e is Pipe
            },
            None => r matches Err(e) && e is Pipe,
        },
{
    match bytes {
        None => Err(Error::Pipe),
        Some(b) => match text::string_from_utf8(b) {
            Some(s) => Ok(s),
            None => Err(Error::Pipe),
        },
    }
}

/// How taking in one read went.
#[derive(Clone, Copy, Debug, PartialEq, Eq, Structural)]
pub enum ReadStep {
    /// Bytes were read: there may be more.
    More,
    /// The input has ended.
    Ended,
    /// The read failed.
    Failed,
}

/// Takes in what one read gave: a failed read and the end of the input
/// leave the bytes gathered as they are; any other chunk is added at
/// their end.
pub fn take_chunk(all: &mut Vec<u8>, chunk: Option<Vec<u8>>) -> (r: ReadStep)
    ensures
        match chunk {
            None => r == ReadStep::Failed && final(all)@ == old(all)@,
            Some(c) => if c@.len() == 0 {
                r == ReadStep::Ended && final(all)@ == old(all)@
            } else {
                r == ReadStep::More && final(all)@ == old(all)@ + c@
            },
        },
{
    match chunk {
        None => ReadStep::Failed,
        Some(mut c) => {
            if c.len() == 0 {
                ReadStep::Ended
            } else {
                all.append(&mut c);
                ReadStep::More
            }
        },
    }
}

/// Reads a descriptor to its end, chunk by chunk, see [`take_chunk`].
/// `None` when a read fails.
fn read_to_end(fd: i32) -> (r: Option<Vec<u8>>) {
    let mut all: Vec<u8> = Vec::new();
    let mut rounds: u64 = 0;
    while rounds < u64::MAX
        invariant
            rounds <= u64::MAX,
        decreases u64::MAX - rounds,
    {
        match take_chunk(&mut all, sys::read_some(fd, 4096)) {
            ReadStep::Failed => {
                return None;
            },
            ReadStep::Ended => {
                return Some(all);
            },
            ReadStep::More => {},
        }
        rounds += 1;
    }
    None
}

impl Job {
    /// The process ids of the programs in the tree that have been started
    /// and have neither exited nor been killed, left to right.
    pub open spec fn spec_live_pids(&self) -> Seq<i32>
        decreases self,
    {
        match self.configuration {
            Configuration::External(_, _, _) => match self.status {
                Status::Started(pid, _, w) => if w.is_live() {
                    seq![pid]
                } else {
                    Seq::empty()
                },
                Status::NotStarted => Seq::empty(),
            },
            Configuration::Builtin(_, _, _) => Seq::empty(),
            Configuration::Pipeline(l, r) => l.spec_live_pids() + r.spec_live_pids(),
        }
    }

    /// The process ids of the programs in the tree that are still alive as
    /// far as is known, left to right.
    pub fn live_pids(&self) -> (r: Vec<i32>)
        ensures
            r@ == self.spec_live_pids(),
        decreases self.height(),
    {
        match &self.configuration {
            Configuration::External(_, _, _) => {
                let mut r: Vec<i32> = Vec::new();
                match self.status {
                    Status::Started(pid, _, w) => {
                        if !w.has_ended() {
                            r.push(pid);
                        }
                    },
                    Status::NotStarted => {},
                }
                assert(r@ =~= self.spec_live_pids());
                r
            },
            Configuration::Builtin(_, _, _) => Vec::new(),
            Configuration::Pipeline(l, r) => {
                let mut a = l.live_pids();
                let mut b = r.live_pids();
                a.append(&mut b);
                a
            },
        }
    }

    /// Gives up the job: every program of it that is still alive is sent
    /// `SIGKILL`. Returns the process ids for which the kernel took the
    /// signal.
    pub fn finalise(&self) -> (killed: Vec<i32>)
        ensures
            forall|i: int| 0 <= i < killed@.len() ==> self.spec_live_pids().contains(killed@[i]),
            killed@.len() <= self.spec_live_pids().len(),
    {
        let live = self.live_pids();
        let mut killed: Vec<i32> = Vec::new();
        let mut i: usize = 0;
        while i < live.len()
            invariant
                i <= live.len(),
                live@ == self.spec_live_pids(),
                forall|j: int| 0 <= j < killed@.len() ==> live@.contains(killed@[j]),
                killed@.len() <= i,
            decreases live.len() - i,
        {
            if sys::kill_process(live[i]) {
                killed.push(live[i]);
            }
            i += 1;
        }
        killed
    }

    /// The errors starting a job can end in: a program whose path or
    /// arguments hold a NUL character gives [`Error::StringEncoding`], any
    /// other program that cannot be started [`Error::Fork`]; a pipeline
    /// gives the error of the side that failed, wrapped, or
    /// [`Error::Pipe`]; a builtin always starts.
    pub open spec fn launch_error(job: &Job, e: Error) -> bool
        decreases job,
    {
        match job.configuration {
            Configuration::External(path, args, _) => if nul_in(path@, args@) {
                e is StringEncoding
            } else {
                e is Fork
            },
            Configuration::Builtin(_, _, _) => false,
            Configuration::Pipeline(l, r) => match e {
                Error::LeftPipe(inner) => Job::launch_error(&*l, *inner),
                Error::RightPipe(inner) => Job::launch_error(&*r, *inner),
                Error::Pipe => true,
                _ => false,
            },
        }
    }

    /// Starts the job as [`Job::run_with_fd`] says, as a background job
    /// where `background` says so, whatever the job's own flag: a
    /// pipeline hands its flag on to its sides.
    fn launch<B: BuiltinHandler>(
        &mut self,
        input_fd: Option<i32>,
        output_fd: Option<i32>,
        handler: &mut B,
        post_fork_close: &[i32],
        pgid: Option<i32>,
        background: bool,
        os: &mut Os,
    ) -> (r: Run<Result<Status, Error>>)
        requires
            old(self).fresh(),
            old(handler).ready(),
        ensures
            final(handler).ready(),
            old(self).all_external() ==> *final(handler) == *old(handler),
            final(self).same_plan(old(self)),
            final(self).all_external() == old(self).all_external(),
            old(self).configuration is Builtin ==> r matches Run::Done(Ok(_)),
            old(self).configuration matches Configuration::External(path, args, _) && nul_in(path@, args@)
                ==> (r matches Run::Done(Err(e)) && e is StringEncoding),
            match r {
                Run::Child(image) => old(self).is_image_of(image) && old(self).wired(image, input_fd, output_fd),
                Run::Done(res) => {
                    &&& final(os).ledger() == old(os).ledger()
                    &&& (background ==> final(os).terminal_group() == old(os).terminal_group())
                    &&& match res {
                        Ok(status) => {
                            &&& status is Started
                            &&& final(self).status == status
                            &&& final(self).launched()
                            &&& final(self).begun()
                            &&& final(self).groups_agree()
                            &&& final(self).led(pgid)
                            &&& (pgid is Some && old(self).all_external() ==> status.spec_pgid()
                                == pgid)
                        },
                        Err(e) => {
                            &&& final(self).status is NotStarted
                            &&& Job::launch_error(old(self), e)
                            &&& (e is Pipe ==> *final(self) == *old(self) || (final(self).configuration matches
                                Configuration::Pipeline(l, r) && l.begun() && r.begun()))
                        },
                    }
                },
            },
        decreases old(self).height(),
    {
        proof {
            lemma_same_plan_reflexive(*old(self));
        }
        let result: Result<Status, Error> = match &mut self.configuration {
            Configuration::Builtin(name, args, options) => Ok(
                run_builtin(
                    name.as_str(),
                    args.as_slice(),
                    options.as_slice(),
                    input_fd,
                    output_fd,
                    handler,
                    os,
                ),
            ),
            Configuration::External(path, args, options) => {
                match run_external(
                    path.as_str(),
                    args.as_slice(),
                    options.as_slice(),
                    input_fd,
                    output_fd,
                    post_fork_close,
                    pgid,
                    background,
                    os,
                ) {
                    Run::Child(image) => {
                        return Run::Child(image);
                    },
                    Run::Done(res) => res,
                }
            },
            Configuration::Pipeline(first, second) => {
                match os.pipe() {
                    None => Err(Error::Pipe),
                    Some((output, input)) => {
                        let ghost with_pipe = os.ledger();
                        let first_cleanup = extended(post_fork_close, output);
                        let left = first.launch(
                            input_fd,
                            Some(input),
                            handler,
                            first_cleanup.as_slice(),
                            pgid,
                            background,
                            os,
                        );
                        let both: Result<Status, Error> = match left {
                            Run::Child(image) => {
                                proof {
                                    lemma_wired_side(*old(self), image, input_fd, output_fd, input);
                                }
                                return Run::Child(image);
                            },
                            Run::Done(Err(e)) => Err(Error::LeftPipe(Box::new(e))),
                            Run::Done(Ok(left_status)) => {
                                let second_cleanup = extended(post_fork_close, input);
                                let right = second.launch(
                                    Some(output),
                                    output_fd,
                                    handler,
                                    second_cleanup.as_slice(),
                                    left_status.pgid(),
                                    background,
                                    os,
                                );
                                match right {
                                    Run::Child(image) => {
                                        proof {
                                            lemma_wired_side(*old(self), image, input_fd, output_fd, output);
                                        }
                                        return Run::Child(image);
                                    },
                                    Run::Done(Err(e)) => Err(Error::RightPipe(Box::new(e))),
                                    Run::Done(Ok(s)) => Ok(s),
                                }
                            },
                        };
                        let closed_input = os.close(input);
                        let closed_output = os.close(output);
                        assert(os.ledger() =~= old(os).ledger());
                        match both {
                            Err(e) => Err(e),
                            Ok(status) => if closed_input && closed_output {
                                Ok(status)
                            } else {
                                Err(Error::Pipe)
                            },
                        }
                    },
                }
            },
        };
        match result {
            Ok(status) => {
                self.status = status;
                Run::Done(Ok(status))
            },
            Err(e) => Run::Done(Err(e)),
        }
    }

    /// Starts the job with its standard input and output connected as
    /// given. `post_fork_close` lists the descriptors a new process has to
    /// close; `pgid` is the process group the job's processes join, `None`
    /// for a new one.
    ///
    /// In the calling process no descriptor obtained on the way is still
    /// held at return, whether the job started or not; the status of a
    /// pipeline is that of its right side; and where the right side of a
    /// pipeline holds programs only, both sides are in one process group.
    /// In a new process the image returned is that of one of the job's
    /// programs.
    ///
    /// A builtin is carried out in the calling process and has exited
    /// when the call returns; a program is alive, in the group `pgid` or
    /// in a new group named after its own process; the right side of a
    /// pipeline is started in the group of the left side. A program whose
    /// path or arguments hold a NUL character is not started. The handler
    /// is left alone by a job that holds programs only. A job started in
    /// the foreground gives its group the terminal; a background job
    /// does not.
    pub fn run_with_fd<B: BuiltinHandler>(
        &mut self,
        input_fd: Option<i32>,
        output_fd: Option<i32>,
        handler: &mut B,
        post_fork_close: &[i32],
        pgid: Option<i32>,
        os: &mut Os,
    ) -> (r: Run<Result<Status, Error>>)
        requires
            old(self).fresh(),
            old(handler).ready(),
        ensures
            final(handler).ready(),
            old(self).all_external() ==> *final(handler) == *old(handler),
            final(self).same_plan(old(self)),
            final(self).all_external() == old(self).all_external(),
            old(self).configuration is Builtin ==> r matches Run::Done(Ok(_)),
            old(self).configuration matches Configuration::External(path, args, _) && nul_in(path@, args@)
                ==> (r matches Run::Done(Err(e)) && e is StringEncoding),
            match r {
                Run::Child(image) => old(self).is_image_of(image) && old(self).wired(image, input_fd, output_fd),
                Run::Done(res) => {
                    &&& final(os).ledger() == old(os).ledger()
                    &&& (old(self).background ==> final(os).terminal_group() == old(os).terminal_group())
                    &&& match res {
                        Ok(status) => {
                            &&& status is Started
                            &&& final(self).status == status
                            &&& final(self).launched()
                            &&& final(self).begun()
                            &&& final(self).groups_agree()
                            &&& final(self).led(pgid)
                            &&& (pgid is Some && old(self).all_external() ==> status.spec_pgid()
                                == pgid)
                        },
                        Err(e) => {
                            &&& final(self).status is NotStarted
                            &&& Job::launch_error(old(self), e)
                            &&& (e is Pipe ==> *final(self) == *old(self) || (final(self).configuration matches
                                Configuration::Pipeline(l, r) && l.begun() && r.begun()))
                        },
                    }
                },
            },
    {
        let background = self.background;
        self.launch(input_fd, output_fd, handler, post_fork_close, pgid, background, os)
    }

    /// What [`Job::wait_without_restore`] leaves behind: `before` and
    /// `after` are the job before and after the call, `r` what it
    /// returned. A command that has not been started gives an error; a
    /// builtin and a program that is on record as stopped or ended
    /// report what is on record; a program on record as running reports
    /// what the kernel said, which is then on record. A pipeline waits
    /// for its left side and, unless that failed, for its right side,
    /// whose report and status become its own; on a failure its own
    /// status stays.
    pub open spec fn waited(before: &Job, after: &Job, r: Result<WaitState, Error>) -> bool
        decreases before,
    {
        &&& after.same_plan(before)
        &&& (r matches Ok(w) ==> after.status matches Status::Started(_, _, now) && now == w)
        &&& match (before.configuration, after.configuration) {
            (Configuration::Pipeline(l, right), Configuration::Pipeline(la, ra)) => exists|
                x: Result<WaitState, Error>,
            |
                {
                    &&& #[trigger] report_of_left(x)
                    &&& Job::waited(&*l, &*la, x)
                    &&& match x {
                        Err(_) => r is Err && *ra == *right && after.status == before.status,
                        Ok(_) => {
                            &&& Job::waited(&*right, &*ra, r)
                            &&& if r is Ok {
                                after.status == ra.status
                            } else {
                                after.status == before.status
                            }
                        },
                    }
                },
            (Configuration::Pipeline(_, _), _) => false,
            (Configuration::Builtin(_, _, _), _) => match before.status {
                Status::NotStarted => r is Err && after.status == before.status,
                Status::Started(_, _, w) => (r matches Ok(now) && now == w) && after.status
                    == before.status,
            },
            (Configuration::External(_, _, _), _) => match before.status {
                Status::NotStarted => r is Err && after.status == before.status,
                Status::Started(pid, pgid, w) => if w.is_running() {
                    match r {
                        Ok(now) => after.status == Status::Started(pid, pgid, now),
                        Err(_) => after.status == before.status,
                    }
                } else {
                    (r matches Ok(now) && now == w) && after.status == before.status
                },
            },
        }
    }

    /// Brings the job's status up to date and returns the wait report it
    /// now holds. A program that runs as far as is known is asked of the
    /// kernel as `how` says (see [`sys::WaitHow`]);
    /// a program that has stopped or ended, and a builtin, report what is
    /// on record. A pipeline waits for its left side, then for its right
    /// side, whose status becomes its own. A command that has not been
    /// started, and a failed call, give [`Error::Wait`].
    pub fn wait_without_restore(&mut self, how: sys::WaitHow) -> (r: Result<WaitState, Error>)
        ensures
            Job::waited(old(self), final(self), r),
        decreases old(self).height(),
    {
        proof {
            lemma_same_plan_reflexive(*old(self));
        }
        let status = self.status;
        let outcome: Result<(WaitState, Status), Error> = match &mut self.configuration {
            Configuration::Builtin(_, _, _) => match status {
                Status::Started(_, _, w) => Ok((w, status)),
                Status::NotStarted => Err(Error::Wait),
            },
            Configuration::External(_, _, _) => match status {
                Status::Started(pid, pgid, w) => {
                    if w.running() {
                        match sys::waitpid(pid, sys::wait_options(how)) {
                            Some(now) => Ok((now, Status::Started(pid, pgid, now))),
                            None => Err(Error::Wait),
                        }
                    } else {
                        Ok((w, status))
                    }
                },
                Status::NotStarted => Err(Error::Wait),
            },
            Configuration::Pipeline(first, second) => {
                let left = first.wait_without_restore(how);
                proof {
                    assert(report_of_left(left));
                }
                match left {
                    Err(e) => Err(e),
                    Ok(_) => match second.wait_without_restore(how) {
                        Err(e) => Err(e),
                        Ok(w) => Ok((w, second.status)),
                    },
                }
            },
        };
        match outcome {
            Ok((w, now)) => {
                self.status = now;
                Ok(w)
            },
            Err(e) => Err(e),
        }
    }

    /// As [`Job::wait_without_restore`], and afterwards takes the terminal
    /// back for the shell: whenever the terminal's group is known at
    /// return, it is the shell's own.
    pub fn wait(&mut self, how: sys::WaitHow, os: &mut Os) -> (r: Result<WaitState, Error>)
        ensures
            Job::waited(old(self), final(self), r),
            final(os).ledger() == old(os).ledger(),
            final(os).terminal_group() is Some ==> final(os).terminal_is_shells(),
    {
        let r = self.wait_without_restore(how);
        let _ = os.reclaim_terminal();
        r
    }

    /// What [`Job::cont`] leaves behind: a job that is not on record as
    /// stopped is left as it is. A stopped program is on record as alive
    /// where its group took the signal; a stopped pipeline resumes both
    /// its sides and is on record as alive where either was resumed; a
    /// stopped builtin cannot be resumed.
    pub open spec fn continued(before: &Job, after: &Job, r: Result<(), Error>) -> bool
        decreases before,
    {
        &&& after.same_plan(before)
        &&& match before.status {
            Status::Started(pid, pgid, WaitState::Stopped(_)) => {
                &&& match r {
                    Ok(_) => after.status == Status::Started(pid, pgid, WaitState::StillAlive),
                    Err(_) => after.status == before.status,
                }
                &&& match (before.configuration, after.configuration) {
                    (Configuration::Pipeline(l, right), Configuration::Pipeline(la, ra)) => exists|
                        x: Result<(), Error>,
                        y: Result<(), Error>,
                    |
                        {
                            &&& #[trigger] resumed_sides(x, y)
                            &&& Job::continued(&*l, &*la, x)
                            &&& Job::continued(&*right, &*ra, y)
                            &&& r is Ok <==> x is Ok || y is Ok
                        },
                    (Configuration::Pipeline(_, _), _) => false,
                    (Configuration::Builtin(_, _, _), _) => r is Err,
                    (Configuration::External(_, _, _), _) => after.configuration == before.configuration,
                }
            },
            _ => r is Ok && *after == *before,
        }
    }

    /// Resumes a stopped job: a program's process group is sent
    /// `SIGCONT`, a pipeline resumes both sides and counts as resumed when
    /// either was. A job that is not stopped is left as it is. `background`
    /// says whether the job goes on in the background; giving a foreground
    /// job the terminal is the caller's part. A failed signal, and a
    /// stopped builtin, which cannot be, give [`Error::Wait`].
    pub fn cont(&mut self, background: bool) -> (r: Result<(), Error>)
        ensures
            Job::continued(old(self), final(self), r),
        decreases old(self).height(),
    {
        proof {
            lemma_same_plan_reflexive(*old(self));
        }
        let status = self.status;
        match status {
            Status::Started(pid, pgid, WaitState::Stopped(_)) => {
                let resumed: bool = match &mut self.configuration {
                    Configuration::Builtin(_, _, _) => false,
                    Configuration::External(_, _, _) => sys::continue_group(pgid),
                    Configuration::Pipeline(first, second) => {
                        let a = first.cont(background);
                        let b = second.cont(background);
                        proof {
                            assert(resumed_sides(a, b));
                        }
                        a.is_ok() || b.is_ok()
                    },
                };
                if resumed {
                    self.status = Status::Started(pid, pgid, WaitState::StillAlive);
                    Ok(())
                } else {
                    Err(Error::Wait)
                }
            },
            _ => Ok(()),
        }
    }

    /// Gives the terminal to the job's process group. `true` on success.
    pub fn set_foreground(&self, os: &mut Os) -> (ok: bool)
        requires
            self.status is Started,
        ensures
            final(os).ledger() == old(os).ledger(),
            final(os).terminal_group() == if ok {
                self.status.spec_pgid()
            } else {
                None
            },
    {
        match self.status {
            Status::NotStarted => false,
            Status::Started(_, pgid, _) => os.give_terminal(pgid),
        }
    }

    /// Whether `group` is the process group of the job: never for a job
    /// that has not been started, nor for no group.
    pub fn leads(&self, group: Option<i32>) -> (r: bool)
        ensures
            r == match (self.status, group) {
                (Status::Started(_, pgid, _), Some(g)) => g == pgid,
                _ => false,
            },
    {
        match self.status {
            Status::NotStarted => false,
            Status::Started(_, pgid, _) => match group {
                Some(g) => g == pgid,
                None => false,
            },
        }
    }

    /// Whether the kernel reports the job's process group as the
    /// terminal's foreground group, see [`Job::leads`]. `false` for a job
    /// that has not been started.
    pub fn in_foreground(&self, os: &Os) -> (r: bool)
        ensures
            self.status is NotStarted ==> !r,
    {
        match self.status {
            Status::NotStarted => false,
            Status::Started(_, _, _) => self.leads(os.foreground_group()),
        }
    }

    /// Runs the job with its standard output in a pipe, waits for it to
    /// exit, and returns what it wrote. A job that does not exit normally
    /// gives [`Error::SubshellExecution`]; a pipe that cannot be made,
    /// closed or read, or output that is not UTF-8, gives [`Error::Pipe`];
    /// a job that cannot be started gives the error of starting it. The
    /// job is started to write to the pipe. No descriptor obtained on
    /// the way is still held at return.
    pub fn run_with_output<B: BuiltinHandler>(&mut self, handler: &mut B, os: &mut Os) -> (r: Run<
        Result<String, Error>,
    >)
        requires
            old(self).fresh(),
            old(handler).ready(),
        ensures
            final(handler).ready(),
            final(self).same_plan(old(self)),
            r matches Run::Done(_) ==> final(os).ledger() == old(os).ledger(),
            r matches Run::Child(image) ==> old(self).is_image_of(image) && (exists|end: i32| #[trigger]
                crate::state::jobs::pipe_end(end) && old(self).wired(image, None, Some(end))),
            r matches Run::Done(Ok(_)) ==> final(self).status matches Status::Started(_, _, w) && w is Exited,
            r matches Run::Done(Err(e)) ==> e is Pipe || e is SubshellExecution || Job::launch_error(old(self), e),
    {
        proof {
            lemma_same_plan_reflexive(*old(self));
        }
        match os.pipe() {
            None => Run::Done(Err(Error::Pipe)),
            Some((output, input)) => {
                let cleanup = extended(&[], output);
                let started = self.run_with_fd(None, Some(input), handler, cleanup.as_slice(), None, os);
                let ghost begun = *self;
                let result: Result<String, Error> = match started {
                    Run::Child(image) => {
                        proof {
                            assert(crate::state::jobs::pipe_end(input));
                        }
                        return Run::Child(image);
                    },
                    Run::Done(Err(e)) => {
                        let _ = os.close(input);
                        Err(e)
                    },
                    Run::Done(Ok(_)) => {
                        let waited = self.wait(sys::WaitHow::Ended, os);
                        proof {
                            lemma_same_plan_transitive(*self, begun, *old(self));
                        }
                        let closed = os.close(input);
                        match capture_ready(waited, closed) {
                            Err(e) => Err(e),
                            Ok(_) => captured_text(read_to_end(output)),
                        }
                    },
                };
                let _ = os.close(output);
                assert(os.ledger() =~= old(os).ledger());
                Run::Done(result)
            },
        }
    }

    /// Starts the job with the shell's own standard input and output, in a
    /// process group of its own. See [`Job::run_with_fd`] for what holds
    /// at return.
    pub fn run<B: BuiltinHandler>(&mut self, handler: &mut B, os: &mut Os) -> (r: Run<
        Result<Status, Error>,
    >)
        requires
            old(self).fresh(),
            old(handler).ready(),
        ensures
            final(handler).ready(),
            old(self).all_external() ==> *final(handler) == *old(handler),
            final(self).same_plan(old(self)),
            final(self).all_external() == old(self).all_external(),
            old(self).configuration is Builtin ==> r matches Run::Done(Ok(_)),
            old(self).configuration matches Configuration::External(path, args, _) && nul_in(path@, args@)
                ==> (r matches Run::Done(Err(e)) && e is StringEncoding),
            match r {
                Run::Child(image) => old(self).is_image_of(image) && old(self).wired(image, None, None),
                Run::Done(res) => {
                    &&& final(os).ledger() == old(os).ledger()
                    &&& (old(self).background ==> final(os).terminal_group() == old(os).terminal_group())
                    &&& match res {
                        Ok(status) => {
                            &&& status is Started
                            &&& final(self).status == status
                            &&& final(self).launched()
                            &&& final(self).begun()
                            &&& final(self).groups_agree()
                            &&& final(self).led(None)
                        },
                        Err(e) => final(self).status is NotStarted && Job::launch_error(old(self), e),
                    }
                },
            },
    {
        let none: Vec<i32> = Vec::new();
        self.run_with_fd(None, None, handler, none.as_slice(), None, os)
    }
}

} // verus!
