use vstd::prelude::*;

verus! {

/// The classes of failure the core can report to its callers.
#[derive(Clone, Copy, Debug, PartialEq, Eq, Structural)]
pub enum ErrorKind {
    DirectionMismatch,
    DeviceNotFound,
    FormatUnsupported,
    ApartmentInit,
    ClientInit,
    EventTimeout,
    ExclusiveModeAnomaly,
    ChannelClosed,
    IoFailure,
}

/// An error carrying its class and a human-readable description.
#[derive(Debug)]
pub struct DeviceError {
    pub kind: ErrorKind,
    pub desc: String,
}

impl DeviceError {
    pub fn new(desc: &str) -> (r: Self)
        ensures
            r.kind == ErrorKind::IoFailure,
            r.desc@ == desc@,
    {
        DeviceError { kind: ErrorKind::IoFailure, desc: desc.to_owned() }
    }

    pub fn with_kind(kind: ErrorKind, desc: &str) -> (r: Self)
        ensures
            r.kind == kind,
            r.desc@ == desc@,
    {
        DeviceError { kind, desc: desc.to_owned() }
    }

    /// The description text, for callers that need to report the error.
    pub fn message(&self) -> (r: &str)
        ensures
            r@ == self.desc@,
    {
        self.desc.as_str()
    }
}

pub type Res<T> = Result<T, DeviceError>;

/// The reason a device session reported through the disconnect channel.
#[derive(Clone, Copy, Debug, PartialEq, Eq, Structural)]
pub enum Disconnected {
    FormatChange,
    Error,
}

} // verus!
