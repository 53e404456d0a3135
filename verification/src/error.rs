//! What can go wrong when a worker handles a request.

use vstd::prelude::*;

verus! {

/// Why a worker gave no response, told apart by who is to blame.
#[derive(Debug, PartialEq, Eq)]
pub enum WorkerError {
    /// The script failed: it does not compile, threw, or rejected its promise.
    Script(String),
    /// The script waits for a promise that nothing will ever settle.
    Hung,
    /// The request took longer than its wall-clock limit.
    Timeout,
    /// Execution was terminated, for a reason that is not told apart yet.
    Terminated,
    /// The CPU time limit was exceeded; the isolate can be used again.
    CpuExceeded,
    /// The heap limit was exceeded; the isolate must be discarded.
    MemExceeded,
    /// The runtime itself is inconsistent.
    Internal(String),
}

/// What a [`WorkerError`] says.
pub enum Fault {
    Script(Seq<char>),
    Hung,
    Timeout,
    Terminated,
    CpuExceeded,
    MemExceeded,
    Internal(Seq<char>),
}

impl View for WorkerError {
    type V = Fault;

    open spec fn view(&self) -> Fault {
        match self {
            WorkerError::Script(message) => Fault::Script(message@),
            WorkerError::Hung => Fault::Hung,
            WorkerError::Timeout => Fault::Timeout,
            WorkerError::Terminated => Fault::Terminated,
            WorkerError::CpuExceeded => Fault::CpuExceeded,
            WorkerError::MemExceeded => Fault::MemExceeded,
            WorkerError::Internal(message) => Fault::Internal(message@),
        }
    }
}

/// The text that reports a fault to a client.
pub open spec fn fault_text(fault: Fault) -> Seq<char> {
    match fault {
        Fault::Script(message) => "script error: "@ + message,
        Fault::Hung => "promise will never resolve"@,
        Fault::Timeout => "wall-clock timeout exceeded"@,
        Fault::Terminated => "execution terminated"@,
        Fault::CpuExceeded => "worker exceeded CPU time limit"@,
        Fault::MemExceeded => "worker exceeded memory limit"@,
        Fault::Internal(message) => "internal error: "@ + message,
    }
}

/// The HTTP status of a fault: 503 where a limit was hit, 500 otherwise.
pub open spec fn fault_status(fault: Fault) -> u16 {
    match fault {
        Fault::Timeout | Fault::Terminated | Fault::CpuExceeded | Fault::MemExceeded => 503,
        Fault::Script(_) | Fault::Hung | Fault::Internal(_) => 500,
    }
}

impl WorkerError {
    /// The text that reports the error to a client.
    pub fn message(&self) -> (text: String)
        ensures
            text@ == fault_text(self@),
    {
        match self {
            WorkerError::Script(message) => "script error: ".to_owned().concat(message.as_str()),
            WorkerError::Hung => "promise will never resolve".to_owned(),
            WorkerError::Timeout => "wall-clock timeout exceeded".to_owned(),
            WorkerError::Terminated => "execution terminated".to_owned(),
            WorkerError::CpuExceeded => "worker exceeded CPU time limit".to_owned(),
            WorkerError::MemExceeded => "worker exceeded memory limit".to_owned(),
            WorkerError::Internal(message) => "internal error: ".to_owned().concat(
                message.as_str(),
            ),
        }
    }

    /// The HTTP status that answers a request which ended in this error.
    pub fn status(&self) -> (status: u16)
        ensures
            status == fault_status(self@),
    {
        match self {
            WorkerError::Timeout
            | WorkerError::Terminated
            | WorkerError::CpuExceeded
            | WorkerError::MemExceeded => 503,
            WorkerError::Script(_) | WorkerError::Hung | WorkerError::Internal(_) => 500,
        }
    }
}

/// What a client is told of an error: a text that names it, and 503 if a limit
/// was hit, 500 otherwise.
pub proof fn law_errors_are_reported(error: WorkerError, text: String, status: u16)
    requires
        call_ensures(WorkerError::message, (&error,), text),
        call_ensures(WorkerError::status, (&error,), status),
    ensures
        match error {
            WorkerError::Script(message) => status == 500 && text@ == "script error: "@ + message@,
            WorkerError::Internal(message) => status == 500 && text@ == "internal error: "@
                + message@,
            WorkerError::Hung => status == 500 && text@ == "promise will never resolve"@,
            WorkerError::Timeout => status == 503 && text@ == "wall-clock timeout exceeded"@,
            WorkerError::Terminated => status == 503 && text@ == "execution terminated"@,
            WorkerError::CpuExceeded => status == 503 && text@ == "worker exceeded CPU time limit"@,
            WorkerError::MemExceeded => status == 503 && text@ == "worker exceeded memory limit"@,
        },
{
}

/// Errors that say the same are the same: the same kind of error, with the same
/// message.
pub proof fn law_errors_are_told_apart(one: WorkerError, two: WorkerError)
    requires
        one@ == two@,
    ensures
        match one {
            WorkerError::Script(message) => two is Script && two->Script_0@ == message@,
            WorkerError::Internal(message) => two is Internal && two->Internal_0@ == message@,
            WorkerError::Hung => two is Hung,
            WorkerError::Timeout => two is Timeout,
            WorkerError::Terminated => two is Terminated,
            WorkerError::CpuExceeded => two is CpuExceeded,
            WorkerError::MemExceeded => two is MemExceeded,
        },
{
}

} // verus!
