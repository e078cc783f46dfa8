//! Errors of the subscription handlers, their HTTP status, and the text
//! that reports a chain of causes or a task's exit.
use vstd::prelude::*;
use vstd::string::StringExecFns;

verus! {

/// Status code of a bad request.
pub const STATUS_BAD_REQUEST: u16 = 400;

/// Status code of a request without valid credentials.
pub const STATUS_UNAUTHORIZED: u16 = 401;

/// Status code of a failure on the server's side.
pub const STATUS_INTERNAL_SERVER_ERROR: u16 = 500;

/// Why a subscription request failed.
#[derive(Debug)]
pub enum SubscribeError {
    /// The name or address is malformed.
    ValidationError(String),
    /// Something else failed; the text says what.
    UnexpectedError(String),
}

impl SubscribeError {
    /// The HTTP status that reports the error.
    pub fn status_code(&self) -> (r: u16)
        ensures
            r == match self {
                SubscribeError::ValidationError(_) => STATUS_BAD_REQUEST,
                SubscribeError::UnexpectedError(_) => STATUS_INTERNAL_SERVER_ERROR,
            },
    {
        match self {
            SubscribeError::ValidationError(_) => STATUS_BAD_REQUEST,
            SubscribeError::UnexpectedError(_) => STATUS_INTERNAL_SERVER_ERROR,
        }
    }
}

/// Why a confirmation request failed.
#[derive(Debug)]
pub enum ConfirmError {
    /// No subscriber matches the token.
    UnauthorizedError,
    /// Something else failed; the text says what.
    UnexpectedError(String),
}

impl ConfirmError {
    /// The HTTP status that reports the error.
    pub fn status_code(&self) -> (r: u16)
        ensures
            r == match self {
                ConfirmError::UnauthorizedError => STATUS_UNAUTHORIZED,
                ConfirmError::UnexpectedError(_) => STATUS_INTERNAL_SERVER_ERROR,
            },
    {
        match self {
            ConfirmError::UnauthorizedError => STATUS_UNAUTHORIZED,
            ConfirmError::UnexpectedError(_) => STATUS_INTERNAL_SERVER_ERROR,
        }
    }
}

/// One "Caused by" paragraph for each cause, in order.
pub open spec fn causes_text(causes: Seq<Seq<char>>) -> Seq<char>
    decreases causes.len(),
{
    if causes.len() == 0 {
        seq![]
    } else {
        causes_text(causes.drop_last()) + "Caused by:\n\t"@ + causes.last() + "\n"@
    }
}

/// Reports an error and the chain of its causes: the error's message, a
/// blank line, then one "Caused by" paragraph per cause.
pub fn error_chain_fmt(error: &str, causes: &Vec<String>) -> (r: String)
    ensures
        r@ == error@ + "\n\n"@ + causes_text(causes@.map_values(|c: String| c@)),
{
    let ghost cs = causes@.map_values(|c: String| c@);
    let mut out = String::from_str(error);
    out.append("\n\n");
    let mut i: usize = 0;
    while i < causes.len()
        invariant
            i <= causes.len(),
            cs == causes@.map_values(|c: String| c@),
            out@ == error@ + "\n\n"@ + causes_text(cs.subrange(0, i as int)),
        decreases causes.len() - i,
    {
        proof {
            assert(cs.subrange(0, i + 1).drop_last() =~= cs.subrange(0, i as int));
        }
        out.append("Caused by:\n\t");
        out.append(causes[i].as_str());
        out.append("\n");
        i = i + 1;
        proof {
            assert(out@ =~= error@ + "\n\n"@ + causes_text(cs.subrange(0, i as int)));
        }
    }
    proof {
        assert(cs.subrange(0, i as int) =~= cs);
    }
    out
}

/// How a long-running task of the process ended.
#[derive(Debug, Clone, Copy, PartialEq, Eq, Structural)]
pub enum TaskExit {
    /// It returned normally.
    Exited,
    /// It returned an error.
    Failed,
    /// It panicked or was cancelled before it could return.
    FailedToComplete,
}

/// The line that reports how task `task_name` ended.
pub fn report_exit(task_name: &str, outcome: TaskExit) -> (r: String)
    ensures
        r@ == task_name@ + match outcome {
            TaskExit::Exited => " has exited"@,
            TaskExit::Failed => " failed"@,
            TaskExit::FailedToComplete => " failed to complete"@,
        },
{
    let line = String::from_str(task_name);
    match outcome {
        TaskExit::Exited => line.concat(" has exited"),
        TaskExit::Failed => line.concat(" failed"),
        TaskExit::FailedToComplete => line.concat(" failed to complete"),
    }
}

} // verus!
