use vstd::prelude::*;

use crate::address::Address;

verus! {

/// The overall status of a reply
#[derive(Clone, Copy, Debug, PartialEq, Eq, Structural)]
pub enum ReplyStatus {
    /// success, including an RTT value (in milliseconds)
    SuccessTimed(u32),
    /// Failure: no reply in time allowed
    TimedOut,
    /// Failure: unspecified
    OtherFailure,
}

/// A successful echo reply: the address that answered and the round-trip
/// time in milliseconds.
#[derive(Clone, Debug)]
pub struct PingReply {
    pub address: Address,
    pub rtt: u32,
}

/// Why an echo request failed, with the same cases as the ICMP layer
/// reports them.
#[derive(Clone, Debug)]
pub enum PingError {
    /// Bad request parameters
    BadParameter(String),
    /// Unspecific OS errors: the code and the message
    OsError(u32, String),
    /// General ICMP status code
    IpError(u32),
    /// No reply in the time allowed
    TimedOut,
    /// Asynchronous I/O still pending
    IoPending,
    /// The data buffer is too big; the maximum allowed size
    DataSizeTooBig(usize),
}

/// The status that the outcome of one echo request maps to: a reply gives
/// its RTT, a time-out stays a time-out, every other error is a failure.
pub open spec fn status_of(outcome: Result<PingReply, PingError>) -> ReplyStatus {
    match outcome {
        Ok(reply) => ReplyStatus::SuccessTimed(reply.rtt),
        Err(PingError::TimedOut) => ReplyStatus::TimedOut,
        Err(_) => ReplyStatus::OtherFailure,
    }
}

/// Law: every reply, from any address, gives a success with its RTT; every
/// error gives a failure, and it is a time-out exactly when the error is one.
pub proof fn lemma_status_of_outcome(outcome: Result<PingReply, PingError>)
    ensures
        outcome matches Ok(reply) ==> status_of(outcome) == ReplyStatus::SuccessTimed(reply.rtt),
        outcome is Err <==> !(status_of(outcome) is SuccessTimed),
        status_of(outcome) == ReplyStatus::TimedOut <==> outcome == Err::<PingReply, PingError>(
            PingError::TimedOut,
        ),
{
}

impl From<Result<PingReply, PingError>> for ReplyStatus {
    fn from(value: Result<PingReply, PingError>) -> (status: Self) {
        match value {
            Ok(p) => ReplyStatus::SuccessTimed(p.rtt),
            Err(PingError::TimedOut) => ReplyStatus::TimedOut,
            Err(_) => ReplyStatus::OtherFailure,
        }
    }
}

impl vstd::std_specs::convert::FromSpecImpl<Result<PingReply, PingError>> for ReplyStatus {
    open spec fn obeys_from_spec() -> bool {
        true
    }

    open spec fn from_spec(v: Result<PingReply, PingError>) -> Self {
        status_of(v)
    }
}

} // verus!
