//! How the program starts itself again.

use vstd::prelude::*;

verus! {

/// The code with which a worker asks to be started again.
pub const RESTART_EXIT_CODE: i32 = 75;

/// How a worker ends.
#[derive(Debug, Clone, Copy, PartialEq, Eq, Structural)]
pub enum WorkerExit {
    Restart,
    Stop,
}

/// What the supervisor does once a worker has ended.
#[derive(Debug, Clone, Copy, PartialEq, Eq, Structural)]
pub enum SupervisorStep {
    /// Another worker is started.
    StartAgain,
    /// The program ends with a code.
    Exit { code: i32 },
}

/// The code with which a worker ends; `None` means that it failed.
pub fn worker_exit_code(exit: Option<WorkerExit>) -> (r: i32)
    ensures
        r == (match exit {
            Some(WorkerExit::Restart) => RESTART_EXIT_CODE,
            Some(WorkerExit::Stop) => 0,
            None => 1,
        }),
{
    match exit {
        Some(WorkerExit::Restart) => RESTART_EXIT_CODE,
        Some(WorkerExit::Stop) => 0,
        None => 1,
    }
}

/// The code with which the program ends after a worker that ended with a code, or with none where
/// a signal ended it.
pub fn exit_code(status: Option<i32>) -> (r: i32)
    ensures
        r == (match status {
            Some(code) => code,
            None => 1,
        }),
{
    match status {
        Some(code) => code,
        None => 1,
    }
}

/// What the supervisor does once a worker has ended with a code, or with none where a signal
/// ended it.
pub fn after_worker(status: Option<i32>) -> (r: SupervisorStep)
    ensures
        r == (match status {
            Some(code) => if code == RESTART_EXIT_CODE {
                SupervisorStep::StartAgain
            } else {
                SupervisorStep::Exit { code }
            },
            None => SupervisorStep::Exit { code: 1 },
        }),
{
    if let Some(code) = status {
        if code == RESTART_EXIT_CODE {
            return SupervisorStep::StartAgain;
        }
    }
    SupervisorStep::Exit { code: exit_code(status) }
}

/// What is logged, unless the environment says otherwise.
pub fn default_log_filter(configured_level: &str) -> (r: String)
    ensures
        r@ == "warn,rolava="@ + configured_level@,
{
    let mut r = "warn,rolava=".to_owned();
    r.push_str(configured_level);
    r
}

} // verus!
