use vstd::prelude::*;

verus! {

/// The ways an operation on a shared region can fail.
#[derive(Debug, Clone, Copy, PartialEq, Eq, Structural)]
pub enum InletError {
    /// An identifier longer than its 128-byte capacity.
    IdTooLong,
    /// The backing file could not be created, opened, written or mapped.
    FileIoError,
    /// A region whose recorded payload size, entry count or consumer count
    /// disagrees with the caller's.
    IncompatibleLayout,
    /// Every consumer slot is already claimed by another id.
    NoFreeConsumerSlot,
}

} // verus!
