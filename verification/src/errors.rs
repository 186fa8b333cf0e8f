//! The closed set of failures that end a tailer or a forwarder.

use vstd::prelude::*;

verus! {

/// Why a unit of the pipeline stopped.
#[derive(Clone, Copy, Debug, PartialEq, Eq, Hash, Structural)]
pub enum ErrorKind {
    /// A filesystem operation on the log file or on its sidecar failed.
    IOError,
    /// The queue was closed by its consumer while the tailer still wrote.
    ChanError,
    /// The broker client refused a message.
    KafkaError,
    /// A complete line was not valid UTF-8.
    Utf8Error,
    /// The queue was closed by the tailer without a termination marker.
    ProducerGone,
}

impl ErrorKind {
    /// The text that describes each kind.
    pub open spec fn spec_description(self) -> Seq<char> {
        match self {
            ErrorKind::IOError => "I/O failure"@,
            ErrorKind::ChanError => "the queue is disconnected"@,
            ErrorKind::KafkaError => "the broker client failed"@,
            ErrorKind::Utf8Error => "a line is not valid UTF-8"@,
            ErrorKind::ProducerGone => "the producer has gone unexpectedly"@,
        }
    }

    /// A short description for logs and messages.
    pub fn description(&self) -> (text: String)
        ensures
            text@ == self.spec_description(),
    {
        match self {
            ErrorKind::IOError => "I/O failure".to_owned(),
            ErrorKind::ChanError => "the queue is disconnected".to_owned(),
            ErrorKind::KafkaError => "the broker client failed".to_owned(),
            ErrorKind::Utf8Error => "a line is not valid UTF-8".to_owned(),
            ErrorKind::ProducerGone => "the producer has gone unexpectedly".to_owned(),
        }
    }

    /// Whether the failure is the forwarder's report of a vanished tailer,
    /// as opposed to a failure of its own.
    pub fn is_producer_gone(&self) -> (gone: bool)
        ensures
            gone == (*self == ErrorKind::ProducerGone),
    {
        match self {
            ErrorKind::ProducerGone => true,
            _ => false,
        }
    }
}

} // verus!
