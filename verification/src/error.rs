//! Error kinds of the driver.

use vstd::prelude::*;

verus! {

/// What the protocol engine itself can find wrong, without any payload of
/// the transport.
#[derive(Clone, Copy, Debug, PartialEq, Eq, Structural)]
pub enum Fault {
    /// An erase bound is not a multiple of the sector size.
    NotAligned,
    /// An address, length or range lies outside the chip, or a range is
    /// inverted.
    OutOfBounds,
    /// The write-enable latch was not observed set after a write-enable.
    WriteEnableFail,
    /// A region read back after a program or erase differs from what was
    /// expected.
    ReadbackFail,
    /// The busy flag did not clear within the poll budget.
    Timeout,
}

/// Everything a driver call can fail with: a fault of the protocol, or a
/// failure of the bus (`S`) or of a control line (`P`).
#[derive(Debug)]
pub enum Error<S, P> {
    SpiError(S),
    PinError(P),
    NotAligned,
    OutOfBounds,
    WriteEnableFail,
    ReadbackFail,
    Timeout,
}

/// Coarse classification of an [`Error`] for generic storage code.
#[derive(Clone, Copy, Debug, PartialEq, Eq, Structural)]
pub enum ErrorKind {
    NotAligned,
    OutOfBounds,
    Other,
}

impl<S, P> Error<S, P> {
    /// The protocol fault `fault` as a driver error.
    pub open spec fn of_fault(fault: Fault) -> Self {
        match fault {
            Fault::NotAligned => Error::NotAligned,
            Fault::OutOfBounds => Error::OutOfBounds,
            Fault::WriteEnableFail => Error::WriteEnableFail,
            Fault::ReadbackFail => Error::ReadbackFail,
            Fault::Timeout => Error::Timeout,
        }
    }

    /// The classification of this error.
    pub open spec fn spec_kind(&self) -> ErrorKind {
        match self {
            Error::NotAligned => ErrorKind::NotAligned,
            Error::OutOfBounds => ErrorKind::OutOfBounds,
            _ => ErrorKind::Other,
        }
    }

    /// Classifies the error: alignment and bounds violations keep their
    /// kind, everything else is `Other`.
    pub fn kind(&self) -> (k: ErrorKind)
        ensures
            k == self.spec_kind(),
    {
        match self {
            Error::NotAligned => ErrorKind::NotAligned,
            Error::OutOfBounds => ErrorKind::OutOfBounds,
            Error::SpiError(_) => ErrorKind::Other,
            Error::PinError(_) => ErrorKind::Other,
            Error::WriteEnableFail => ErrorKind::Other,
            Error::ReadbackFail => ErrorKind::Other,
            Error::Timeout => ErrorKind::Other,
        }
    }
}

impl<S, P> From<Fault> for Error<S, P> {
    fn from(fault: Fault) -> (e: Self) {
        match fault {
            Fault::NotAligned => Error::NotAligned,
            Fault::OutOfBounds => Error::OutOfBounds,
            Fault::WriteEnableFail => Error::WriteEnableFail,
            Fault::ReadbackFail => Error::ReadbackFail,
            Fault::Timeout => Error::Timeout,
        }
    }
}

impl<S, P> vstd::std_specs::convert::FromSpecImpl<Fault> for Error<S, P> {
    open spec fn obeys_from_spec() -> bool {
        true
    }

    open spec fn from_spec(fault: Fault) -> Self {
        Self::of_fault(fault)
    }
}

} // verus!
