//! A capability-based microkernel for running untrusted procedures under least privilege.
//!
//! Every procedure is registered with an explicit list of capabilities. The kernel keeps the
//! procedure table, decides on each invocation whether to run the entry procedure or to treat
//! the payload as a system call of the procedure that is executing, and lets a system call
//! through only if a capability of that procedure authorizes it.
//!
//! The kernel never touches the host itself: storage writes, logs and calls are handed back
//! to the embedder as [`kernel::Action`] values.

pub mod capability;
pub mod error;
pub mod identity;
pub mod kernel;
pub mod proc_table;
pub mod syscall;
pub mod word;
