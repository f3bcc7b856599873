//! Error and fault types.
//!
//! Every storage fault is a usage fault: the caller asked for something the
//! current state does not allow. The offending operation reports the fault
//! and leaves the state untouched; execution continues rather than aborting.

use vstd::prelude::*;
use vstd::string::StringExecFns;

verus! {

/// A usage fault detected by the storage engine.
///
/// A stale type-set entry (the manager's type-set claiming a component that
/// the store does not hold) cannot occur: the manager's invariant keeps the
/// type-sets and the stores in agreement, so no variant exists for it.
#[derive(Clone, Copy, Debug, PartialEq, Eq, Structural)]
pub enum EcsFault {
    /// `insert` was asked to store a value for an entity that already has one.
    DuplicateInsert,
    /// `remove` was asked to drop a value for an entity that has none.
    MissingOnRemove,
    /// `set` was asked to overwrite a value for an entity that has none.
    MissingOnSet,
    /// An operation addressed a component type with no registered store.
    UnregisteredComponentAccess,
    /// An operation addressed an entity id the manager has never seen.
    UnknownEntity,
}

/// A general-purpose error carrying a message.
pub enum FoxyError {
    Error { msg: String },
}

impl FoxyError {
    pub fn new(msg: &str) -> (r: Self)
        ensures
            r matches FoxyError::Error { msg: m } && m@ == msg@,
    {
        FoxyError::Error { msg: String::from_str(msg) }
    }

    /// The message this error carries.
    pub fn message(&self) -> (r: &String)
        ensures
            self matches FoxyError::Error { msg: m } && m@ == r@,
    {
        match self {
            FoxyError::Error { msg } => msg,
        }
    }
}

} // verus!
