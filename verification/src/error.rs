//! What can go wrong.

use crate::time::Duration;
use vstd::prelude::*;

verus! {

/// The tasks that run as long as the node does.
#[derive(Clone, Copy, Debug, PartialEq, Eq, Structural)]
pub enum WorkerTask {
    Framer,
    PingerV4,
    BucketRefresherV4,
    PingerV6,
    BucketRefresherV6,
    ResponseReader,
}

/// Failures of the node and of its requests. Failures of the operating system
/// carry their description.
#[derive(Debug, PartialEq, Eq)]
pub enum Error {
    /// The worker that sends messages is gone.
    DhtDead,
    /// Nobody receives the peers or the candidates any more.
    ReceiverDead,
    /// The remote node answered with an error message.
    ErrorResponse,
    /// The remote node did not answer in time.
    ResponseTimeout(Duration),
    /// A response came for a request that is not outstanding.
    RequestNotFound,
    /// A response came with a transaction id that this node does not use.
    BadTransactionId,
    /// No request of a lookup succeeded.
    NoSuccessfulLookups { errors: usize },
    /// No bootstrap host led anywhere.
    BootstrapFailed,
    /// The socket could not be bound.
    Bind(String),
    /// A host name could not be resolved.
    Lookup(String),
    /// A message could not be sent.
    Send(String),
    /// The socket could not be read.
    Recv(String),
    /// A task that should have run on came to an end.
    TaskFinished { task: WorkerTask, cause: Option<Box<Error>> },
}

} // verus!
