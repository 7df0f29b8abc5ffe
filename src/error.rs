use vstd::prelude::*;
use crate::types::{Address, CellId};

verus! {

/// Name of a logical database: the cell whose state it holds.
pub type DbName = CellId;

/// A failure of the durable store itself.
#[derive(Clone, Copy, Debug, PartialEq, Eq, Structural)]
pub enum StoreError {
    /// The commit was prepared against a snapshot that is no longer the head.
    Conflict,
    /// The store could not write the transaction.
    Io,
    /// The transaction names a cell the store does not hold.
    UnknownCell,
}

/// Structural and access problems met while opening or reading a workspace.
#[derive(Clone, Copy, Debug, PartialEq, Eq, Structural)]
pub enum WorkspaceError {
    /// A store expected to hold entries holds none.
    EmptyStore(DbName),
    /// The named database was never created.
    StoreNotInitialized(DbName),
    /// The requested snapshot does not exist in the named database.
    SnapshotNotFound(DbName, Address),
    /// A stored value could not be interpreted.
    InvalidValue,
    /// The durable store failed.
    StoreAccessError(StoreError),
    /// A value could not be encoded or decoded.
    SerializationError,
}

/// Why a guest function call failed.
#[derive(Clone, Copy, Debug, PartialEq, Eq, Structural)]
pub enum GuestError {
    /// The guest trapped or returned an error.
    Trap,
    /// The call was cancelled at its suspension point.
    Cancelled,
    /// The deadline attached to the invocation passed during the call.
    DeadlineExceeded,
}

/// Why a workflow produced no effect.
#[derive(Clone, Copy, Debug, PartialEq, Eq, Structural)]
pub enum WorkflowError {
    /// The invocation's capability did not verify.
    CapabilityDenied,
    /// The guest call failed; the workspace is discarded untouched.
    Guest(GuestError),
    /// The workspace could not be opened or read.
    Workspace(WorkspaceError),
    /// The guest's output could not be interpreted.
    SerializationError,
    /// The workflow was cancelled before it started running.
    Cancelled,
    /// The workflow's state does not allow the requested step.
    InvalidState,
    /// This workflow variant has no execution path yet.
    NotImplemented,
}

/// Why an effect could not be committed.
#[derive(Clone, Copy, Debug, PartialEq, Eq, Structural)]
pub enum DispatchError {
    /// The store refused the transaction; nothing was applied.
    Store(StoreError),
}

/// Every failure the engine's entry point can report.
#[derive(Clone, Copy, Debug, PartialEq, Eq, Structural)]
pub enum EngineError {
    Workflow(WorkflowError),
    Dispatch(DispatchError),
}

/// Problems with an application's definition.
#[derive(Clone, Debug, PartialEq, Eq)]
pub enum DnaError {
    ZomeNotFound(String),
    EmptyZome(String),
    Invalid(String),
    TraitNotFound(String),
    ZomeFunctionNotFound(String),
    SerializedBytesError(String),
    StdIoError(String),
    InvalidWasmHash,
}

} // verus!
