use vstd::prelude::*;

verus! {

/// Address of a committed snapshot of a cell's state: the number of commits
/// that had been applied to the cell when the snapshot was taken.
pub type Address = usize;

/// Identity of a cell (one running application instance of one agent).
pub type CellId = usize;

/// Public key of an agent asserting a request.
pub type AgentId = Vec<u8>;

/// A capability token presented with an invocation.
#[derive(Clone, Debug, PartialEq, Eq)]
pub struct CapabilityRequest {
    pub secret: Vec<u8>,
}

/// One unit of requested work: which function of which module to run, for
/// whom, with what capability, and relative to which snapshot.
#[derive(Clone, Debug, PartialEq, Eq)]
pub struct ZomeInvocation {
    pub cell_id: CellId,
    pub zome_name: String,
    pub cap: CapabilityRequest,
    pub fn_name: String,
    pub parameters: Vec<u8>,
    pub provenance: AgentId,
    pub as_at: Address,
}

/// What a successful invocation hands back to its caller: the guest's
/// return payload.
#[derive(Clone, Debug, PartialEq, Eq)]
pub struct ZomeInvocationResult {
    pub payload: Vec<u8>,
}

/// An application-defined signal with an opaque payload.
#[derive(Clone, Debug, PartialEq, Eq)]
pub struct UserSignal {
    pub payload: Vec<u8>,
}

/// A diagnostic record of one guest call.
#[derive(Clone, Debug, PartialEq, Eq)]
pub struct TraceEvent {
    pub cell_id: CellId,
    pub zome_name: String,
    pub fn_name: String,
}

/// An observer-facing notification emitted when an effect commits.
#[derive(Clone, Debug, PartialEq, Eq)]
pub enum Signal {
    Trace(TraceEvent),
    User(UserSignal),
}

} // verus!
