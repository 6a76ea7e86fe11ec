//! How the broker fails.

use crate::text;
use vstd::prelude::*;

verus! {

/// Broker errors.
#[derive(Debug)]
pub enum BrokerError {
    /// A system call failed.
    Io(String),
    RequestSize,
    RequestOperation,
    RequestReserved,
    Truncated,
    ControlLength,
    DescriptorAlignment,
    NegativeDescriptor,
    ShortMessage,
    SocketPath,
    Activation,
    NotRoot,
    NoDataRoot,
    NoRuntimeRoot,
    SourceNotPrivate,
    SourceDeleted,
    SourceOutside,
    RootNotMapped,
}

/// The text of an error.
pub open spec fn error_text(error: BrokerError) -> Seq<char> {
    match error {
        BrokerError::Io(source) => source@,
        BrokerError::RequestSize => "ID-map broker request has the wrong size"@,
        BrokerError::RequestOperation => "ID-map broker request has an unsupported operation"@,
        BrokerError::RequestReserved => "ID-map broker request has non-zero reserved bytes"@,
        BrokerError::Truncated => "ID-map broker message was truncated"@,
        BrokerError::ControlLength => "ID-map broker control message has an invalid length"@,
        BrokerError::DescriptorAlignment => "ID-map broker descriptor payload is not aligned"@,
        BrokerError::NegativeDescriptor => "ID-map broker returned a negative descriptor"@,
        BrokerError::ShortMessage => "short ID-map broker message"@,
        BrokerError::SocketPath => "ID-map broker socket path is empty or too long"@,
        BrokerError::Activation => "ID-map broker requires one socket-activated listener"@,
        BrokerError::NotRoot => "ID-map broker must run in the initial user namespace as root"@,
        BrokerError::NoDataRoot => "ID-map broker data root is not configured"@,
        BrokerError::NoRuntimeRoot => "ID-map broker runtime root is not configured"@,
        BrokerError::SourceNotPrivate => "ID-map broker source is not a private daemon-owned directory"@,
        BrokerError::SourceDeleted => "ID-map broker source directory was deleted"@,
        BrokerError::SourceOutside => "ID-map broker source is outside its configured shbox root"@,
        BrokerError::RootNotMapped => "mount ID-map namespace does not translate the source root to the leased IDs"@,
    }
}

impl BrokerError {
    /// The operator-facing description.
    pub fn message(&self) -> (r: String)
        ensures
            r@ == error_text(*self),
    {
        let text = match self {
            BrokerError::Io(source) => source.as_str(),
            BrokerError::RequestSize => "ID-map broker request has the wrong size",
            BrokerError::RequestOperation => "ID-map broker request has an unsupported operation",
            BrokerError::RequestReserved => "ID-map broker request has non-zero reserved bytes",
            BrokerError::Truncated => "ID-map broker message was truncated",
            BrokerError::ControlLength => "ID-map broker control message has an invalid length",
            BrokerError::DescriptorAlignment => "ID-map broker descriptor payload is not aligned",
            BrokerError::NegativeDescriptor => "ID-map broker returned a negative descriptor",
            BrokerError::ShortMessage => "short ID-map broker message",
            BrokerError::SocketPath => "ID-map broker socket path is empty or too long",
            BrokerError::Activation => "ID-map broker requires one socket-activated listener",
            BrokerError::NotRoot => "ID-map broker must run in the initial user namespace as root",
            BrokerError::NoDataRoot => "ID-map broker data root is not configured",
            BrokerError::NoRuntimeRoot => "ID-map broker runtime root is not configured",
            BrokerError::SourceNotPrivate => "ID-map broker source is not a private daemon-owned directory",
            BrokerError::SourceDeleted => "ID-map broker source directory was deleted",
            BrokerError::SourceOutside => "ID-map broker source is outside its configured shbox root",
            BrokerError::RootNotMapped => "mount ID-map namespace does not translate the source root to the leased IDs",
        };
        text.to_owned()
    }
}

} // verus!
