//! The shell: what it does with one line of input.

use vstd::prelude::*;
use crate::state::jobs::builder::Environment;
use crate::state::jobs::{BuiltinHandler, Error, Run};
use crate::state::ShellState;
use crate::syntax::lexer::LexError;
use crate::sys::Os;

verus! {

/// A text without the white space at its start.
pub open spec fn trim_start(s: Seq<char>) -> Seq<char>
    decreases s.len(),
{
    if s.len() > 0 && crate::text::char_is_whitespace(s[0]) {
        trim_start(s.drop_first())
    } else {
        s
    }
}

/// A text without the white space at its end.
pub open spec fn trim_end(s: Seq<char>) -> Seq<char>
    decreases s.len(),
{
    if s.len() > 0 && crate::text::char_is_whitespace(s.last()) {
        trim_end(s.drop_last())
    } else {
        s
    }
}

/// A text without the white space at its ends.
pub open spec fn trimmed(s: Seq<char>) -> Seq<char> {
    trim_end(trim_start(s))
}

/// What became of a line.
#[derive(Debug)]
pub enum LineOutcome {
    /// The line is not made of tokens.
    LexFailed(LexError),
    /// The tokens are no expression.
    ParseFailed(crate::syntax::parser::Error),
    /// The expression describes no job that can be built.
    BuildFailed(Error),
    /// A job could not be started or waited for.
    RunFailed(Error),
    /// The jobs of the line have run: each has ended, has stopped, or runs
    /// in the background.
    Ran,
}

/// The shell.
pub struct Shell {}

impl Shell {
    /// A line without the white space at its ends.
    pub fn trim(line: &str) -> (r: String)
        ensures
            r@ == trimmed(line@),
    {
        let chars = crate::text::chars_of(line);
        let n = chars.len();
        let mut start: usize = 0;
        assert(chars@.skip(0) =~= chars@);
        while start < n && crate::text::is_whitespace(chars[start])
            invariant
                start <= n,
                n == chars@.len(),
                trim_start(chars@) == trim_start(chars@.skip(start as int)),
            decreases n - start,
        {
            assert(chars@.skip(start as int).drop_first() =~= chars@.skip(start + 1));
            start += 1;
        }
        assert(trim_start(chars@) == chars@.skip(start as int));
        let mut end: usize = n;
        let ghost rest = chars@.skip(start as int);
        assert(rest =~= chars@.subrange(start as int, end as int));
        while end > start && crate::text::is_whitespace(chars[end - 1])
            invariant
                start <= end <= n,
                n == chars@.len(),
                trim_end(rest) == trim_end(chars@.subrange(start as int, end as int)),
            decreases end,
        {
            assert(chars@.subrange(start as int, end as int).drop_last() =~= chars@.subrange(
                start as int,
                end - 1,
            ));
            end -= 1;
        }
        assert(trim_end(rest) == chars@.subrange(start as int, end as int));
        crate::text::string_of(vstd::slice::slice_subrange(chars.as_slice(), start, end))
    }

    /// What holds of the error when the job of an expression could not
    /// be queued: the expression cannot be built, or it asks for a
    /// background job, which could not be started; and an expression
    /// without a sub-shell that asks for no background job leaves the
    /// queues as they are.
    pub open spec fn not_queued<H: BuiltinHandler>(
        before: &ShellState<H>,
        after: &ShellState<H>,
        expr: crate::syntax::ast::ExprView,
        env: Environment,
        e: Error,
    ) -> bool {
        &&& crate::state::jobs::builder::refused(expr, env, e) || crate::state::jobs::builder::in_background(expr)
        &&& (!crate::state::jobs::builder::has_subshell(expr) && !crate::state::jobs::builder::in_background(
            expr,
        ) ==> {
            &&& crate::state::jobs_of(after.foreground_jobs@) == crate::state::jobs_of(before.foreground_jobs@)
            &&& crate::state::jobs_of(after.background_jobs@) == crate::state::jobs_of(before.background_jobs@)
            &&& crate::state::jobs_of(after.stopped_jobs@) == crate::state::jobs_of(before.stopped_jobs@)
        })
    }

    /// Takes a line in: cuts it without the white space at its ends into
    /// tokens, folds the tokens into an expression, builds the job and
    /// queues it as [`ShellState::enqueue_job`] says. A line that is not
    /// made of tokens, or whose tokens are no expression, changes
    /// nothing. `Ok` when the job is queued, else what became of the
    /// line.
    ///
    /// In the calling process no descriptor obtained on the way is still
    /// held at return. A process is created only for a line that is a
    /// command.
    pub fn queue_line<H: BuiltinHandler>(
        state: &mut ShellState<H>,
        line: &str,
        env: &Environment,
        os: &mut Os,
    ) -> (r: Run<Result<(), LineOutcome>>)
        requires
            old(state).wf(),
        ensures
            final(state).wf(),
            r matches Run::Done(res) ==> {
                &&& final(os).ledger() == old(os).ledger()
                &&& match crate::syntax::lexer::spec_lex(trimmed(line@)) {
                    Err(e) => res == Err::<(), LineOutcome>(LineOutcome::LexFailed(e)) && *final(state)
                        == *old(state) && *final(os) == *old(os),
                    Ok(tokens) => match crate::syntax::parser::spec_parse(tokens) {
                        Err(e) => res == Err::<(), LineOutcome>(LineOutcome::ParseFailed(e)) && *final(state)
                            == *old(state) && *final(os) == *old(os),
                        Ok(expr) => match res {
                            Ok(_) => !crate::state::jobs::builder::in_background(expr) ==> final(state).foreground_jobs@.len()
                                > 0 && crate::state::jobs::builder::built(
                                expr,
                                *env,
                                final(state).foreground_jobs@.last().job,
                            ),
                            Err(LineOutcome::BuildFailed(e)) => Shell::not_queued(old(state), final(state), expr, *env, e),
                            Err(_) => false,
                        },
                    },
                }
            },
            r is Child ==> match crate::syntax::lexer::spec_lex(trimmed(line@)) {
                Ok(tokens) => crate::syntax::parser::spec_parse(tokens) is Ok,
                Err(_) => false,
            },
    {
        let text = Shell::trim(line);
        let tokens = match crate::syntax::lexer::lex(text.as_str()) {
            Ok(tokens) => tokens,
            Err(e) => {
                return Run::Done(Err(LineOutcome::LexFailed(e)));
            },
        };
        let expr = match crate::syntax::parser::parse(tokens.as_slice()) {
            Ok(expr) => expr,
            Err(e) => {
                return Run::Done(Err(LineOutcome::ParseFailed(e)));
            },
        };
        match state.enqueue_job(&expr, env, os) {
            Run::Child(image) => Run::Child(image),
            Run::Done(Ok(_)) => Run::Done(Ok(())),
            Run::Done(Err(e)) => Run::Done(Err(LineOutcome::BuildFailed(e))),
        }
    }

    /// Runs one line: takes it in as [`Shell::queue_line`] says, and runs
    /// the jobs that wait to run in the foreground.
    /// A line that is not made of tokens, or whose tokens are no
    /// expression, changes nothing; a command without a sub-shell that
    /// cannot be built leaves the queues as they are. A command that
    /// cannot be built in the foreground is reported as a build failure;
    /// so is a background job that cannot be started.
    ///
    /// In the calling process no descriptor obtained on the way is still
    /// held at return. A process is created only for a line that is a
    /// command.
    pub fn run_line<H: BuiltinHandler>(
        state: &mut ShellState<H>,
        line: &str,
        env: &Environment,
        os: &mut Os,
    ) -> (r: Run<LineOutcome>)
        requires
            old(state).wf(),
        ensures
            final(state).wf(),
            r matches Run::Done(outcome) ==> {
                &&& final(os).ledger() == old(os).ledger()
                &&& match crate::syntax::lexer::spec_lex(trimmed(line@)) {
                    Err(e) => outcome == LineOutcome::LexFailed(e) && *final(state) == *old(state) && *final(os)
                        == *old(os),
                    Ok(tokens) => match crate::syntax::parser::spec_parse(tokens) {
                        Err(e) => outcome == LineOutcome::ParseFailed(e) && *final(state) == *old(state)
                            && *final(os) == *old(os),
                        Ok(expr) => match outcome {
                            LineOutcome::LexFailed(_) => false,
                            LineOutcome::ParseFailed(_) => false,
                            LineOutcome::BuildFailed(e) => Shell::not_queued(
                                old(state),
                                final(state),
                                expr,
                                *env,
                                e,
                            ),
                            LineOutcome::RunFailed(e) => ShellState::<H>::drive_error(e)
                                && final(state).current_job_pid is None,
                            LineOutcome::Ran => {
                                &&& final(state).foreground_jobs@.len() == 0
                                &&& final(state).current_job_pid is None
                                &&& (final(os).terminal_group() is Some ==> final(os).terminal_is_shells())
                            },
                        },
                    },
                }
            },
            r is Child ==> match crate::syntax::lexer::spec_lex(trimmed(line@)) {
                Ok(tokens) => crate::syntax::parser::spec_parse(tokens) is Ok,
                Err(_) => false,
            },
    {
        match Shell::queue_line(state, line, env, os) {
            Run::Child(image) => {
                return Run::Child(image);
            },
            Run::Done(Err(outcome)) => {
                return Run::Done(outcome);
            },
            Run::Done(Ok(_)) => {},
        }
        match state.run_foreground_jobs(os) {
            Run::Child(image) => Run::Child(image),
            Run::Done(Ok(_)) => Run::Done(LineOutcome::Ran),
            Run::Done(Err(e)) => Run::Done(LineOutcome::RunFailed(e)),
        }
    }
}

} // verus!
