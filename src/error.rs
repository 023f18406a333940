use vstd::prelude::*;

verus! {

/// What can go wrong between a command and the end of its transmission.
/// The hardware variants carry the operating system's error code.
#[derive(Clone, Copy, Debug, PartialEq, Eq, Structural)]
pub enum IrError {
    /// The chip device could not be opened.
    DeviceOpen(i32),
    /// The kernel refused to reserve the output line.
    LineRequest(i32),
    /// Writing a level to the line failed.
    LineWrite(i32),
    /// The temperature lies outside the range the protocol carries.
    InvalidCommand,
}

} // verus!
