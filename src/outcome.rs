use vstd::prelude::*;

verus! {

/// How a single dispatched request ended.
pub enum Completion {
    /// An HTTP exchange completed with this status code.
    Response { status: u16 },
    /// No status code was obtained (DNS, connect, timeout, I/O); the description of the error.
    TransportFailure { message: String },
    /// The task running the request could not deliver its result; why.
    Abandoned { message: String },
}

/// The recorded result of one dispatched request. Times are whole microseconds.
pub struct RequestOutcome {
    /// Position of the request in dispatch order, `0 .. N`.
    pub sequence_id: usize,
    /// The request received a response with a success status.
    pub succeeded: bool,
    /// Wall-clock duration of this request.
    pub latency_us: u64,
    /// Time from the start of the run until this request completed.
    pub offset_us: u64,
    /// Set exactly when the request failed below the HTTP level.
    pub error_message: Option<String>,
}

/// A status code in the success range `200 ..= 299`.
pub open spec fn success_status(status: u16) -> bool {
    200 <= status <= 299
}

/// Whether `status` is a success status code.
pub fn is_success_status(status: u16) -> (r: bool)
    ensures
        r == success_status(status),
{
    200 <= status && status <= 299
}

/// Whether a completion counts as a successful request.
pub open spec fn completion_succeeded(c: Completion) -> bool {
    match c {
        Completion::Response { status } => success_status(status),
        _ => false,
    }
}

/// The error description that a completion carries, if any.
pub open spec fn completion_error(c: Completion) -> Option<String> {
    match c {
        Completion::Response { .. } => None,
        Completion::TransportFailure { message } => Some(message),
        Completion::Abandoned { message } => Some(message),
    }
}

impl RequestOutcome {
    /// Classifies how request `sequence_id` ended and records it with its timing.
    pub fn record(sequence_id: usize, completion: Completion, latency_us: u64, offset_us: u64) -> (r:
        RequestOutcome)
        ensures
            r.sequence_id == sequence_id,
            r.succeeded == completion_succeeded(completion),
            r.latency_us == latency_us,
            r.offset_us == offset_us,
            r.error_message == completion_error(completion),
    {
        let (succeeded, error_message) = match completion {
            Completion::Response { status } => (is_success_status(status), None),
            Completion::TransportFailure { message } => (false, Some(message)),
            Completion::Abandoned { message } => (false, Some(message)),
        };
        RequestOutcome { sequence_id, succeeded, latency_us, offset_us, error_message }
    }
}

} // verus!
