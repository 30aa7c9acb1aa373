//! The operating-system calls the job engine makes, one thin function each.
//!
//! Nothing is claimed about what the kernel answers: every function here
//! reports success or failure as a plain value and the engine is verified
//! for every answer.

use vstd::prelude::*;
use vstd::multiset::Multiset;
use crate::state::jobs::WaitState;

verus! {

/// The descriptor number of standard input.
pub const STDIN_FD: i32 = 0;

/// The descriptor number of standard output.
pub const STDOUT_FD: i32 = 1;

/// The descriptor number of standard error.
pub const STDERR_FD: i32 = 2;

/// How a file is opened for a redirection.
#[derive(Clone, Copy, Debug, PartialEq, Eq, Structural)]
pub enum OpenHow {
    /// For reading; the file has to be there.
    Read,
    /// For writing from its start; the file is made where it is missing.
    Write,
    /// For writing at its end; the file is made where it is missing.
    Append,
}

/// How a process is waited for.
#[derive(Clone, Copy, Debug, PartialEq, Eq, Structural)]
pub enum WaitHow {
    /// Until it has ended.
    Ended,
    /// Until it has ended or stopped.
    Changed,
    /// Not at all: what has become of it is reported at once.
    Glance,
}

/// What `fork` reported, seen from the process that called it.
#[derive(Clone, Copy, Debug, PartialEq, Eq, Structural)]
pub enum ForkOutcome {
    /// No process was created.
    Failed,
    /// This is the new process.
    Child,
    /// This is the calling process; the new process has the given pid.
    Parent(i32),
}

/// Calls `nix::unistd::pipe`. `Some((read_end, write_end))` when the kernel
/// made a pipe, `None` when it refused.
#[verifier::external_body]
pub(crate) fn pipe() -> (r: Option<(i32, i32)>) {
    nix::unistd::pipe().ok()
}

/// Calls `nix::unistd::dup`. `Some(copy)` with the new descriptor, `None` on
/// failure.
#[verifier::external_body]
pub(crate) fn dup(fd: i32) -> (r: Option<i32>) {
    nix::unistd::dup(fd).ok()
}

/// Calls `nix::unistd::dup2`, which makes `newfd` refer to what `oldfd`
/// refers to. `true` on success.
#[verifier::external_body]
pub(crate) fn dup2(oldfd: i32, newfd: i32) -> (r: bool) {
    nix::unistd::dup2(oldfd, newfd).is_ok()
}

/// Calls `nix::unistd::close`. `true` on success.
#[verifier::external_body]
pub(crate) fn close(fd: i32) -> (r: bool) {
    nix::unistd::close(fd).is_ok()
}

/// Calls `nix::fcntl::open` with the flags that stand for `how`: read
/// only; write only and create; or write only, create and append. A file
/// that is made can be read by all and written by its owner. `Some(fd)`
/// on success.
#[verifier::external_body]
pub(crate) fn open(path: &str, how: OpenHow) -> (r: Option<i32>) {
    let oflag = match how {
        OpenHow::Read => nix::fcntl::OFlag::O_RDONLY,
        OpenHow::Write => nix::fcntl::OFlag::O_WRONLY | nix::fcntl::OFlag::O_CREAT,
        OpenHow::Append => nix::fcntl::OFlag::O_WRONLY | nix::fcntl::OFlag::O_CREAT | nix::fcntl::OFlag::O_APPEND,
    };
    let perm = nix::sys::stat::Mode::S_IRUSR | nix::sys::stat::Mode::S_IWUSR | nix::sys::stat::Mode::S_IRGRP
        | nix::sys::stat::Mode::S_IROTH;
    nix::fcntl::open(path, oflag, perm).ok()
}

/// Calls `nix::unistd::unlink`. `true` when the name was removed.
#[verifier::external_body]
pub(crate) fn unlink(path: &str) -> (r: bool) {
    nix::unistd::unlink(path).is_ok()
}

/// Calls `nix::sys::stat::stat`. `Some(mode)` with the `st_mode` field when
/// the path names something, `None` otherwise.
#[verifier::external_body]
pub(crate) fn stat_mode(path: &str) -> (r: Option<u32>) {
    nix::sys::stat::stat(path).ok().map(|s| s.st_mode)
}

/// The bits of `nix::sys::stat::SFlag::S_IFMT`: the mask of the file-type
/// bits in a mode.
#[verifier::external_body]
pub(crate) fn file_type_mask() -> (r: u32) {
    nix::sys::stat::SFlag::S_IFMT.bits()
}

/// The bits of `nix::sys::stat::SFlag::S_IFREG`: the file-type bits of a
/// regular file.
#[verifier::external_body]
pub(crate) fn regular_file_type() -> (r: u32) {
    nix::sys::stat::SFlag::S_IFREG.bits()
}

/// Calls `nix::unistd::fork`.
#[verifier::external_body]
pub(crate) fn fork() -> (r: ForkOutcome) {
    match nix::unistd::fork() {
        Ok(nix::unistd::ForkResult::Parent { child }) => ForkOutcome::Parent(child.as_raw()),
        Ok(nix::unistd::ForkResult::Child) => ForkOutcome::Child,
        Err(_) => ForkOutcome::Failed,
    }
}

/// Calls `nix::unistd::getpid`.
#[verifier::external_body]
pub(crate) fn getpid() -> (r: i32) {
    nix::unistd::getpid().as_raw()
}

/// Calls `nix::unistd::getpgid` for the calling process. `Some(pgid)` on
/// success.
#[verifier::external_body]
pub(crate) fn own_pgid() -> (r: Option<i32>) {
    nix::unistd::getpgid(None).ok().map(|p| p.as_raw())
}

/// Calls `nix::unistd::setpgid`. `true` on success.
#[verifier::external_body]
pub(crate) fn setpgid(pid: i32, pgid: i32) -> (r: bool) {
    nix::unistd::setpgid(nix::unistd::Pid::from_raw(pid), nix::unistd::Pid::from_raw(pgid)).is_ok()
}

/// Calls `nix::unistd::tcgetpgrp`. `Some(pgid)` with the foreground group of
/// the terminal behind `fd`, `None` when `fd` is no terminal or the call
/// failed.
#[verifier::external_body]
pub(crate) fn tcgetpgrp(fd: i32) -> (r: Option<i32>) {
    nix::unistd::tcgetpgrp(fd).ok().map(|p| p.as_raw())
}

/// Calls `nix::unistd::tcsetpgrp`. `true` when the terminal behind `fd` now
/// has `pgid` as its foreground group.
#[verifier::external_body]
pub(crate) fn tcsetpgrp(fd: i32, pgid: i32) -> (r: bool) {
    nix::unistd::tcsetpgrp(fd, nix::unistd::Pid::from_raw(pgid)).is_ok()
}

/// Blocks `SIGTTOU` and `SIGTTIN` for the calling thread with
/// `nix::sys::signal::SigSet::thread_block`. `true` on success.
#[verifier::external_body]
pub(crate) fn block_terminal_signals() -> (r: bool) {
    let mut set = nix::sys::signal::SigSet::empty();
    set.add(nix::sys::signal::Signal::SIGTTOU);
    set.add(nix::sys::signal::Signal::SIGTTIN);
    set.thread_block().is_ok()
}

/// Unblocks `SIGTTOU` and `SIGTTIN` for the calling thread with
/// `nix::sys::signal::SigSet::thread_unblock`. `true` on success.
#[verifier::external_body]
pub(crate) fn unblock_terminal_signals() -> (r: bool) {
    let mut set = nix::sys::signal::SigSet::empty();
    set.add(nix::sys::signal::Signal::SIGTTOU);
    set.add(nix::sys::signal::Signal::SIGTTIN);
    set.thread_unblock().is_ok()
}

/// The bits of the options of `nix::sys::wait::WaitPidFlag` that stand
/// for `how`: none; `WUNTRACED`; or `WUNTRACED` and `WNOHANG`.
#[verifier::external_body]
pub(crate) fn wait_options(how: WaitHow) -> (r: i32) {
    match how {
        WaitHow::Ended => nix::sys::wait::WaitPidFlag::empty().bits(),
        WaitHow::Changed => nix::sys::wait::WaitPidFlag::WUNTRACED.bits(),
        WaitHow::Glance => (nix::sys::wait::WaitPidFlag::WUNTRACED | nix::sys::wait::WaitPidFlag::WNOHANG).bits(),
    }
}

/// Calls `nix::sys::wait::waitpid` on one process with the given option
/// bits, see [`wait_options`]. `None` when the call failed; otherwise
/// what it reported, with the pid dropped and signals as their numbers.
#[verifier::external_body]
pub(crate) fn waitpid(pid: i32, options: i32) -> (r: Option<WaitState>) {
    let flags = nix::sys::wait::WaitPidFlag::from_bits_truncate(options);
    match nix::sys::wait::waitpid(nix::unistd::Pid::from_raw(pid), Some(flags)) {
        Ok(nix::sys::wait::WaitStatus::Exited(_, code)) => Some(WaitState::Exited(code)),
        Ok(nix::sys::wait::WaitStatus::Signaled(_, sig, _)) => Some(WaitState::Signaled(sig as i32)),
        Ok(nix::sys::wait::WaitStatus::Stopped(_, sig)) => Some(WaitState::Stopped(sig as i32)),
        Ok(nix::sys::wait::WaitStatus::Continued(_)) => Some(WaitState::Continued),
        Ok(nix::sys::wait::WaitStatus::StillAlive) => Some(WaitState::StillAlive),
        Ok(_) => Some(WaitState::PtraceEvent),
        Err(_) => None,
    }
}

/// Sends `SIGCONT` to every process of a group with
/// `nix::sys::signal::killpg`. `true` on success.
#[verifier::external_body]
pub(crate) fn continue_group(pgid: i32) -> (r: bool) {
    nix::sys::signal::killpg(nix::unistd::Pid::from_raw(pgid), nix::sys::signal::Signal::SIGCONT).is_ok()
}

/// Sends `SIGKILL` to one process with `nix::sys::signal::kill`. `true` on
/// success.
#[verifier::external_body]
pub(crate) fn kill_process(pid: i32) -> (r: bool) {
    nix::sys::signal::kill(nix::unistd::Pid::from_raw(pid), nix::sys::signal::Signal::SIGKILL).is_ok()
}

/// Calls `nix::unistd::read` once with room for `room` bytes. `None` when
/// the call failed; otherwise the bytes that arrived, at most `room` of
/// them, none at end of input.
#[verifier::external_body]
pub(crate) fn read_some(fd: i32, room: usize) -> (r: Option<Vec<u8>>)
    ensures
        r is Some ==> r->0@.len() <= room,
{
    let mut buf = vec![0u8; room];
    match nix::unistd::read(fd, &mut buf) {
        Ok(n) => { buf.truncate(n); Some(buf) }
        Err(_) => None,
    }
}

} // verus!

verus! {

/// The kernel resources the shell process holds, as far as the shell knows:
/// the descriptors it has obtained and not yet closed, and the process
/// group it last gave the terminal to.
pub struct Os {
    held: Vec<i32>,
    terminal: Option<i32>,
    shell_group: Option<i32>,
}

impl Os {
    /// The descriptors obtained through this value and not yet closed.
    pub closed spec fn ledger(&self) -> Multiset<i32> {
        self.held@.to_multiset()
    }

    /// The process group that was last made the terminal's foreground
    /// group; `None` when the last attempt failed or none was made.
    pub closed spec fn terminal_group(&self) -> Option<i32> {
        self.terminal
    }

    /// The shell's own process group, as last reported by the kernel.
    pub closed spec fn shell_group(&self) -> Option<i32> {
        self.shell_group
    }

    /// A process that holds no descriptor of its own making.
    pub fn new() -> (os: Os)
        ensures
            os.ledger() == Multiset::<i32>::empty(),
            os.terminal_group() is None,
            os.shell_group() is None,
    {
        let os = Os { held: Vec::new(), terminal: None, shell_group: None };
        proof {
            os.held@.to_multiset_ensures();
            vstd::multiset::lemma_multiset_empty_len(os.held@.to_multiset());
            assert(os.held@.to_multiset() =~= Multiset::<i32>::empty());
        }
        os
    }

    /// The number of descriptors held.
    pub fn held_count(&self) -> (n: usize)
        ensures
            n == self.ledger().len(),
    {
        proof {
            self.held@.to_multiset_ensures();
        }
        self.held.len()
    }

    /// The group last given the terminal, see [`Os::terminal_group`].
    pub fn last_terminal_group(&self) -> (g: Option<i32>)
        ensures
            g == self.terminal_group(),
    {
        self.terminal
    }

    /// The shell's own group as last reported, see [`Os::shell_group`].
    pub fn last_shell_group(&self) -> (g: Option<i32>)
        ensures
            g == self.shell_group(),
    {
        self.shell_group
    }

    fn record(&mut self, fd: i32)
        ensures
            final(self).ledger() == old(self).ledger().insert(fd),
            final(self).terminal == old(self).terminal,
            final(self).shell_group == old(self).shell_group,
    {
        proof {
            vstd::seq_lib::to_multiset_build(self.held@, fd);
        }
        self.held.push(fd);
    }

    /// Makes a pipe. `Some((read_end, write_end))` on success; both ends
    /// are then held.
    pub fn pipe(&mut self) -> (r: Option<(i32, i32)>)
        ensures
            final(self).ledger() == match r {
                Some((a, b)) => old(self).ledger().insert(a).insert(b),
                None => old(self).ledger(),
            },
            final(self).terminal_group() == old(self).terminal_group(),
            final(self).shell_group() == old(self).shell_group(),
    {
        match pipe() {
            Some((a, b)) => {
                self.record(a);
                self.record(b);
                Some((a, b))
            },
            None => None,
        }
    }

    /// Duplicates a descriptor. `Some(copy)` on success; the copy is then
    /// held.
    pub fn dup(&mut self, fd: i32) -> (r: Option<i32>)
        ensures
            final(self).ledger() == match r {
                Some(copy) => old(self).ledger().insert(copy),
                None => old(self).ledger(),
            },
            final(self).terminal_group() == old(self).terminal_group(),
            final(self).shell_group() == old(self).shell_group(),
    {
        match dup(fd) {
            Some(copy) => {
                self.record(copy);
                Some(copy)
            },
            None => None,
        }
    }

    /// Opens a file. `Some(fd)` on success; the descriptor is then held.
    pub fn open(&mut self, path: &str, how: OpenHow) -> (r: Option<i32>)
        ensures
            final(self).ledger() == match r {
                Some(fd) => old(self).ledger().insert(fd),
                None => old(self).ledger(),
            },
            final(self).terminal_group() == old(self).terminal_group(),
            final(self).shell_group() == old(self).shell_group(),
    {
        match open(path, how) {
            Some(fd) => {
                self.record(fd);
                Some(fd)
            },
            None => None,
        }
    }

    /// Closes a descriptor and strikes one entry for it from the ledger,
    /// whatever the kernel answered: after a failed close the descriptor
    /// is not usable either. `true` when the kernel reported success.
    pub fn close(&mut self, fd: i32) -> (ok: bool)
        ensures
            final(self).ledger() == old(self).ledger().remove(fd),
            final(self).terminal_group() == old(self).terminal_group(),
            final(self).shell_group() == old(self).shell_group(),
    {
        let ok = close(fd);
        let mut i: usize = 0;
        while i < self.held.len()
            invariant
                i <= self.held.len(),
                self.held == old(self).held,
                self.terminal == old(self).terminal,
                self.shell_group == old(self).shell_group,
                forall|j: int| 0 <= j < i ==> self.held@[j] != fd,
            decreases self.held.len() - i,
        {
            if self.held[i] == fd {
                proof {
                    vstd::seq_lib::to_multiset_remove(self.held@, i as int);
                }
                self.held.remove(i);
                return ok;
            }
            i += 1;
        }
        proof {
            self.held@.to_multiset_ensures();
            assert(!self.held@.contains(fd));
            assert(self.held@.to_multiset().count(fd) == 0);
            assert(self.held@.to_multiset().remove(fd) =~= self.held@.to_multiset());
        }
        ok
    }

    /// Makes `newfd` refer to what `oldfd` refers to. Neither descriptor
    /// enters or leaves the ledger.
    pub fn dup2(&self, oldfd: i32, newfd: i32) -> (ok: bool) {
        dup2(oldfd, newfd)
    }

    /// The foreground group of the terminal on standard input, asked of the
    /// kernel.
    pub fn foreground_group(&self) -> (g: Option<i32>) {
        tcgetpgrp(STDIN_FD)
    }

    /// Makes `pgid` the foreground group of the terminal on standard input.
    /// `true` on success.
    pub fn hand_terminal(&mut self, pgid: i32) -> (ok: bool)
        ensures
            final(self).ledger() == old(self).ledger(),
            final(self).shell_group() == old(self).shell_group(),
            final(self).terminal_group() == if ok {
                Some(pgid)
            } else {
                None
            },
    {
        let ok = tcsetpgrp(STDIN_FD, pgid);
        self.terminal = if ok {
            Some(pgid)
        } else {
            None
        };
        ok
    }

    /// Makes `pgid` the foreground group of the terminal from a process
    /// that may itself be in the background: the two signals that would
    /// stop such a process are held back for the time of the call.
    pub fn give_terminal(&mut self, pgid: i32) -> (ok: bool)
        ensures
            final(self).ledger() == old(self).ledger(),
            final(self).shell_group() == old(self).shell_group(),
            final(self).terminal_group() == if ok {
                Some(pgid)
            } else {
                None
            },
    {
        let held_back = block_terminal_signals();
        let ok = self.hand_terminal(pgid);
        if held_back {
            let _ = unblock_terminal_signals();
        }
        ok
    }

    /// Takes the terminal back for the shell's own group. `true` on
    /// success.
    pub fn reclaim_terminal(&mut self) -> (ok: bool)
        ensures
            final(self).ledger() == old(self).ledger(),
            ok ==> final(self).shell_group() is Some,
            final(self).terminal_group() == if ok {
                final(self).shell_group()
            } else {
                None
            },
    {
        match own_pgid() {
            Some(group) => {
                self.shell_group = Some(group);
                self.give_terminal(group)
            },
            None => {
                self.terminal = None;
                false
            },
        }
    }

    /// Whether the terminal is known to be in the hands of the shell's own
    /// group.
    pub open spec fn terminal_is_shells(&self) -> bool {
        self.terminal_group() is Some && self.terminal_group() == self.shell_group()
    }
}

} // verus!
