//! How the stages of a pipeline are wired and run: which read from a pipe,
//! where each writes, and which run in place, on a worker or as a process.

use vstd::prelude::*;
use crate::command::Command;
use crate::context::Stage;

verus! {

/// Where a stage reads its input.
#[derive(Clone, Copy, Debug, PartialEq, Eq, Structural)]
pub enum StdinSource {
    /// The shell's own input.
    Inherit,
    /// The pipe from the stage before.
    Pipe,
}

/// Where a stage writes its output.
#[derive(Clone, Copy, Debug, PartialEq, Eq, Structural)]
pub enum StdoutSink {
    /// The shell's own output.
    Terminal,
    /// The file the stage redirects to.
    File,
    /// The pipe to the stage after.
    Pipe,
}

/// How a stage runs.
#[derive(Clone, Copy, Debug, PartialEq, Eq, Structural)]
pub enum Runner {
    /// In the shell itself: a builtin that is the only stage.
    InPlace,
    /// On a worker thread: a builtin among several stages.
    Worker,
    /// As a child process: a program.
    Process,
}

/// The wiring of one stage.
#[derive(Clone, Copy, Debug, PartialEq, Eq, Structural)]
pub struct StagePlan {
    pub stdin: StdinSource,
    pub stdout: StdoutSink,
    pub runner: Runner,
}

/// The wiring of stage `i` of `n`: every stage but the first reads the pipe
/// from the one before; every stage but the last writes into the pipe to the
/// next, unless it redirects to a file, which wins; programs run as
/// processes, and builtins in place when alone, else on workers.
pub open spec fn plan_of(n: nat, i: nat, external: bool, to_file: bool) -> StagePlan {
    StagePlan {
        stdin: if i > 0 {
            StdinSource::Pipe
        } else {
            StdinSource::Inherit
        },
        stdout: if to_file {
            StdoutSink::File
        } else if i + 1 < n {
            StdoutSink::Pipe
        } else {
            StdoutSink::Terminal
        },
        runner: if external {
            Runner::Process
        } else if n == 1 {
            Runner::InPlace
        } else {
            Runner::Worker
        },
    }
}

/// Whether the stage's output goes to a file.
pub open spec fn stage_to_file(s: Stage) -> bool {
    s.redirect matches Some(d) && d.stdout
}

/// The wiring of each stage of a pipeline whose commands are `kinds`.
pub fn plan_pipeline(stages: &Vec<Stage>, kinds: &Vec<Command>) -> (r: Vec<StagePlan>)
    requires
        stages@.len() == kinds@.len(),
    ensures
        r@.len() == stages@.len(),
        forall|i: int|
            0 <= i < r@.len() ==> #[trigger] r@[i] == plan_of(
                stages@.len(),
                i as nat,
                kinds@[i] is Executable,
                stage_to_file(stages@[i]),
            ),
{
    let n = stages.len();
    let mut r: Vec<StagePlan> = Vec::new();
    let mut i: usize = 0;
    while i < n
        invariant
            n == stages@.len() == kinds@.len(),
            i <= n,
            r@.len() == i,
            forall|j: int|
                0 <= j < i ==> #[trigger] r@[j] == plan_of(
                    n as nat,
                    j as nat,
                    kinds@[j] is Executable,
                    stage_to_file(stages@[j]),
                ),
        decreases n - i,
    {
        let external = match &kinds[i] {
            Command::Executable { .. } => true,
            _ => false,
        };
        let to_file = stages[i].redirects_stdout();
        let stdin = if i > 0 {
            StdinSource::Pipe
        } else {
            StdinSource::Inherit
        };
        let stdout = if to_file {
            StdoutSink::File
        } else if i + 1 < n {
            StdoutSink::Pipe
        } else {
            StdoutSink::Terminal
        };
        let runner = if external {
            Runner::Process
        } else if n == 1 {
            Runner::InPlace
        } else {
            Runner::Worker
        };
        r.push(StagePlan { stdin, stdout, runner });
        i = i + 1;
    }
    r
}

/// In any pipeline, the output of every stage but the last goes either to its
/// file or into the pipe that the next stage reads, so that only the last
/// stage can write to the terminal; a single builtin stage runs in place.
pub proof fn lemma_pipeline_feeds_forward(n: nat, i: nat, external: bool, to_file: bool)
    requires
        i < n,
    ensures
        i + 1 < n ==> plan_of(n, i, external, to_file).stdout != StdoutSink::Terminal,
        i + 1 < n ==> plan_of(n, i + 1, external, to_file).stdin == StdinSource::Pipe,
        i + 1 == n && !to_file ==> plan_of(n, i, external, to_file).stdout == StdoutSink::Terminal,
        n == 1 && !external ==> plan_of(n, i, external, to_file).runner == Runner::InPlace,
{
}

} // verus!
