//! The seam through which external programs are run.
use vstd::prelude::*;
use crate::text::str_views;

verus! {

/// What a finished program left behind.
#[derive(Debug, PartialEq, Eq)]
pub struct CommandOutput {
    pub status: i32,
    pub stdout: String,
    pub stderr: String,
}

impl Clone for CommandOutput {
    fn clone(&self) -> (r: Self)
        ensures
            r == *self,
    {
        CommandOutput {
            status: self.status,
            stdout: self.stdout.clone(),
            stderr: self.stderr.clone(),
        }
    }
}

impl CommandOutput {
    /// Whether the program exited with status zero.
    pub open spec fn ok(self) -> bool {
        self.status == 0
    }

    /// Whether the program exited with status zero.
    pub fn success(&self) -> (r: bool)
        ensures
            r == self.ok(),
    {
        self.status == 0
    }
}

/// What a run gives back: the program's output, or why it could not be started.
pub type Answer = Result<CommandOutput, String>;

/// One program run: what was asked, and what came back.
pub struct Invocation {
    pub program: Seq<char>,
    pub args: Seq<Seq<char>>,
    pub answer: Answer,
}

/// Whether a run started and exited with status zero.
pub open spec fn succeeded(a: Answer) -> bool {
    a is Ok && a->Ok_0.ok()
}

/// Runs programs. `trace` is the history of the runs, oldest first.
pub trait CommandRunner {
    spec fn trace(&self) -> Seq<Invocation>;

    /// Run `program` with `args` and wait for it.
    fn run(&mut self, program: &str, args: &[&str]) -> (answer: Answer)
        ensures
            final(self).trace() == old(self).trace().push(
                (Invocation { program: program@, args: str_views(args@), answer }),
            ),
    ;
}

/// Runs programs by a function that starts one and waits for it.
pub struct FnRunner<F: Fn(&str, &[&str]) -> Answer> {
    run: F,
    history: Ghost<Seq<Invocation>>,
}

impl<F: Fn(&str, &[&str]) -> Answer> FnRunner<F> {
    #[verifier::type_invariant]
    spec fn total(self) -> bool {
        forall|program: &str, args: &[&str]| call_requires(self.run, (program, args))
    }

    /// A runner that has not run anything yet.
    pub fn new(run: F) -> (r: Self)
        requires
            forall|program: &str, args: &[&str]| call_requires(run, (program, args)),
        ensures
            r.trace() == Seq::<Invocation>::empty(),
    {
        FnRunner { run, history: Ghost(Seq::empty()) }
    }
}

impl<F: Fn(&str, &[&str]) -> Answer> CommandRunner for FnRunner<F> {
    closed spec fn trace(&self) -> Seq<Invocation> {
        self.history@
    }

    fn run(&mut self, program: &str, args: &[&str]) -> (answer: Answer) {
        proof {
            use_type_invariant(&*self);
        }
        let answer = (self.run)(program, args);
        let ghost entry = Invocation { program: program@, args: str_views(args@), answer };
        self.history = Ghost(self.history@.push(entry));
        answer
    }
}

/// Whether a run was of this program with these arguments.
pub open spec fn asked(i: Invocation, program: Seq<char>, args: Seq<Seq<char>>) -> bool {
    i.program == program && i.args == args
}

/// Only a program that was started and exited with status zero has succeeded.
pub proof fn only_a_zero_exit_succeeds(o: CommandOutput, e: String)
    ensures
        succeeded(Ok(o)) <==> o.status == 0,
        !succeeded(Err(e)),
{
}

/// A run is what was asked for exactly where its program and all its arguments are.
pub proof fn runs_are_told_by_program_and_arguments(
    i: Invocation,
    program: Seq<char>,
    args: Seq<Seq<char>>,
)
    ensures
        asked(i, program, args) <==> i.program == program && i.args == args,
{
}

} // verus!
