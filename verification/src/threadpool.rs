//! What the worker pool decides: how many threads it admits, which workers
//! are bound to a core, and what a worker does with each command.

use vstd::prelude::*;

pub mod channel;
pub mod protocol;

verus! {

/// The thread count that is always admitted.
pub const MINIMUM_THREADS: usize = 512;

/// How a search reports.
#[derive(Clone, Copy, Debug, PartialEq, Eq, Structural)]
pub enum Report {
    Silent,
    Pretty,
    Uci,
}

/// The commands the pool broadcasts, without what a `Go` carries besides
/// its report mode.
#[derive(Clone, Copy, Debug, PartialEq, Eq, Structural)]
pub enum Command {
    /// Nothing to do: sent to wait for the workers.
    Ping,
    /// Begin a search that reports as given.
    Go(Report),
    /// Start over with fresh thread data.
    Clear,
    /// Leave the worker loop.
    Quit,
}

/// Which time manager a worker searches with.
#[derive(Clone, Copy, Debug, PartialEq, Eq, Structural)]
pub enum Clock {
    /// The one the command carries.
    Given,
    /// One without limits.
    Infinite,
}

/// What a worker does with a command.
#[derive(Clone, Copy, Debug, PartialEq, Eq, Structural)]
pub enum Action {
    /// Nothing.
    Idle,
    /// Replace the thread data by fresh ones.
    Reset,
    /// Search the board the command carries.
    Search {
        clock: Clock,
        /// Whether to take the multi-PV width from the command.
        adopt_multi_pv: bool,
        /// How the search itself reports.
        report: Report,
        /// Whether to stop all searches once this one returns.
        stop_others: bool,
        /// Whether to hand all workers' thread data to the final report once
        /// the search has returned.
        report_result: bool,
    },
    /// Leave the loop.
    Exit,
}

/// The largest thread count the pool admits, given the parallelism the
/// machine reports, if it reports any.
pub open spec fn thread_limit(parallelism: Option<usize>) -> int {
    match parallelism {
        Some(n) => if 4 * n > MINIMUM_THREADS {
            4 * n
        } else {
            MINIMUM_THREADS as int
        },
        None => MINIMUM_THREADS as int,
    }
}

/// The largest thread count the pool admits: four times the parallelism the
/// machine reports, and 512 at least.
pub fn available_threads(parallelism: Option<usize>) -> (r: usize)
    requires
        parallelism matches Some(n) ==> 4 * n <= usize::MAX,
    ensures
        r == thread_limit(parallelism),
{
    match parallelism {
        Some(n) => if 4 * n > MINIMUM_THREADS {
            4 * n
        } else {
            MINIMUM_THREADS
        },
        None => MINIMUM_THREADS,
    }
}

/// Whether the workers of a pool of `num_threads` are bound to cores: when
/// the pool takes up half of the machine's parallelism or more.
pub fn binds_threads(num_threads: usize, concurrency: usize) -> (r: bool)
    ensures
        r == (num_threads >= concurrency / 2),
{
    num_threads >= concurrency / 2
}

/// What worker `id` does with `command`. Worker 0 is the main searcher: it
/// searches with the given clock, multi-PV width and report mode, stops the
/// others when it returns, and reports the result unless told to be silent.
/// Every other worker searches without limits and without reporting.
pub open spec fn response(id: usize, command: Command) -> Action {
    match command {
        Command::Ping => Action::Idle,
        Command::Clear => Action::Reset,
        Command::Quit => Action::Exit,
        Command::Go(report) => if id == 0 {
            Action::Search {
                clock: Clock::Given,
                adopt_multi_pv: true,
                report,
                stop_others: true,
                report_result: report != Report::Silent,
            }
        } else {
            Action::Search {
                clock: Clock::Infinite,
                adopt_multi_pv: false,
                report: Report::Silent,
                stop_others: false,
                report_result: false,
            }
        },
    }
}

/// What worker `id` does with `command`.
pub fn respond(id: usize, command: Command) -> (r: Action)
    ensures
        r == response(id, command),
{
    match command {
        Command::Ping => Action::Idle,
        Command::Clear => Action::Reset,
        Command::Quit => Action::Exit,
        Command::Go(report) => if id == 0 {
            Action::Search {
                clock: Clock::Given,
                adopt_multi_pv: true,
                report,
                stop_others: true,
                report_result: report != Report::Silent,
            }
        } else {
            Action::Search {
                clock: Clock::Infinite,
                adopt_multi_pv: false,
                report: Report::Silent,
                stop_others: false,
                report_result: false,
            }
        },
    }
}

/// Only `Quit` ends a worker, and only worker 0 stops the others or
/// reports.
pub proof fn lemma_response(id: usize, command: Command)
    ensures
        response(id, command) == Action::Exit <==> command == Command::Quit,
        response(id, command) matches Action::Search { stop_others, report_result, .. } ==> (
        stop_others <==> id == 0) && (report_result ==> id == 0),
{
}

} // verus!
