use vstd::prelude::*;

verus! {

/// Every failure that the mailbox layer and the coordinator report.
#[derive(Debug, Clone, PartialEq, Eq)]
pub enum SgmError {
    /// The transport or the storage behind the store failed.
    StoreIo(String),
    /// A write hit a key that already holds a value.
    KeyConflict,
    /// The next slot of a mailbox has not been written yet.
    MailboxEmpty,
    /// An artifact was malformed or did not validate.
    Validation(String),
    /// An unknown group id or peer id.
    NotFound(String),
    /// The group engine failed.
    Engine(String),
    /// The slot allocator gave up after its retry budget.
    SlotAllocationExhausted,
}

} // verus!
