//! Error taxonomy of the tool registry.

use vstd::prelude::*;

verus! {

/// Why a dispatched invocation failed. The connection stays open; none of
/// these is fatal.
#[derive(Clone, Copy, Debug, PartialEq, Eq, Structural)]
pub enum OpError {
    /// The requested operation name is not registered.
    UnknownOperation,
    /// The argument count or an argument type does not match the
    /// operation's declared parameters.
    InvalidArguments,
    /// The checked addition overflowed the 32-bit range.
    ArithmeticOverflow,
}

/// Why registering an operation failed. Registration happens at startup;
/// a duplicate name there is a programming error and fatal to startup.
#[derive(Clone, Copy, Debug, PartialEq, Eq, Structural)]
pub enum RegisterError {
    /// An operation with the same name is already registered.
    DuplicateName,
}

} // verus!
