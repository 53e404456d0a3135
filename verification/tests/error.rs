use toy_edge_worker::error::WorkerError;

#[test]
fn errors_are_reported() {
    let table = [
        (WorkerError::Script("boom".into()), "script error: boom", 500),
        (WorkerError::Hung, "promise will never resolve", 500),
        (WorkerError::Timeout, "wall-clock timeout exceeded", 503),
        (WorkerError::Terminated, "execution terminated", 503),
        (WorkerError::CpuExceeded, "worker exceeded CPU time limit", 503),
        (WorkerError::MemExceeded, "worker exceeded memory limit", 503),
        (WorkerError::Internal("lost".into()), "internal error: lost", 500),
    ];
    for (error, message, status) in table {
        assert_eq!(error.message(), message);
        assert_eq!(error.status(), status);
    }
}
