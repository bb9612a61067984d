//! The ways in which an invocation of the kernel fails.

use vstd::prelude::*;

verus! {

/// Why the kernel gave up on an invocation.
#[derive(Clone, Copy, Debug, PartialEq, Eq, Structural)]
pub enum KernelError {
    /// An encoded capability list has a record whose length or type tag does not fit the
    /// shape of any capability type, or that runs past the end of the list.
    MalformedCapability,
    /// A capability list holds a capability with parameters that make no sense, or is too
    /// long for its counts to be reported.
    InvalidCapabilityList,
    /// The kernel is idle and no procedure is registered under the entry identity.
    MissingEntryProcedure,
    /// The payload of a system call cannot be read as any request.
    MalformedSyscall,
    /// The budget at hand does not cover what the kernel withholds for itself.
    BudgetExhausted,
    /// The nested call into the entry procedure failed. The kernel is idle again.
    EntryProcedureFailed,
    /// An authorized call names a procedure that is not registered.
    UnknownProcedure,
    /// The request is not covered by any capability of the caller; returned only under
    /// [`crate::kernel::DenialPolicy::Abort`].
    Denied,
}

} // verus!
