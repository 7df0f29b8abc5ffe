use vstd::prelude::*;
use crate::effect::{Effect, InvokeZomeTriggers, Trigger, WorkflowKind};
use crate::error::{GuestError, WorkflowError, WorkspaceError};
use crate::kvmap::{copy_bytes, pairs_map};
use crate::types::{Address, CellId, Signal, TraceEvent, UserSignal, ZomeInvocation, ZomeInvocationResult};
use crate::workspace::Workspace;

verus! {

/// Where an invocation workflow stands.
#[derive(Clone, Copy, Debug, PartialEq, Eq, Structural)]
pub enum WorkflowState {
    Pending,
    Running,
    Completed,
    Failed,
}

/// What is handed to the guest-execution collaborator.
#[derive(Clone, Debug)]
pub struct GuestCall {
    pub zome_name: String,
    pub fn_name: String,
    pub parameters: Vec<u8>,
    pub as_at: Address,
}

/// What a guest function call returned: the payload for the caller, the
/// entry to append to the cell's log, the key/value writes derived from it
/// (later pairs override earlier ones) and an optional signal.
#[derive(Debug)]
pub struct GuestOutput {
    pub payload: Vec<u8>,
    pub entry: Vec<u8>,
    pub writes: Vec<(u64, Vec<u8>)>,
    pub user_signal: Option<UserSignal>,
}

/// The signals an invocation emits: a trace of the call, then the guest's
/// own signal if it sent one.
pub open spec fn invoke_signals_ok(signals: Seq<Signal>, cell: CellId, inv: &ZomeInvocation, out: &GuestOutput) -> bool {
    &&& signals.len() == if out.user_signal is Some { 2int } else { 1int }
    &&& signals[0] matches Signal::Trace(t) && t.cell_id == cell && t.zome_name@ == inv.zome_name@
        && t.fn_name@ == inv.fn_name@
    &&& out.user_signal matches Some(u) ==> (signals[1] matches Signal::User(v) && v.payload@ == u.payload@)
}

/// The effect an invocation produces from workspace `ws`: its entry appended
/// to the log, its writes laid over the buffer, one revalidation trigger for
/// the new entry, and its signals.
pub open spec fn invoke_effect_ok(fx: &Effect, ws: &Workspace, inv: &ZomeInvocation, out: &GuestOutput) -> bool {
    &&& fx.workspace.wf()
    &&& fx.workspace.cell() == ws.cell()
    &&& fx.workspace.base() == ws.base()
    &&& fx.workspace.snapshot_kv() == ws.snapshot_kv()
    &&& fx.workspace.snapshot_log() == ws.snapshot_log()
    &&& fx.workspace.appended() == ws.appended().push(out.entry@)
    &&& fx.workspace.writes() == ws.writes().union_prefer_right(pairs_map(out.writes@))
    &&& fx.triggers@ == seq![Trigger { kind: WorkflowKind::RevalidateEntry, cell_id: ws.cell(), subject: ws.log().len() as u64 }]
    &&& invoke_signals_ok(fx.signals@, ws.cell(), inv, out)
    &&& fx.callbacks@.len() == 0
}

/// Completes an invocation whose guest call returned `out`: writes the
/// state delta into the workspace and derives the effect. Fails only when
/// the log can take no further entry.
pub fn invoke_zome(workspace: Workspace, invocation: &ZomeInvocation, out: GuestOutput) -> (r: Result<(ZomeInvocationResult, Effect), WorkflowError>)
    requires
        workspace.wf(),
    ensures
        r is Ok <==> workspace.log().len() < usize::MAX,
        r is Err ==> r == Err::<(ZomeInvocationResult, Effect), WorkflowError>(WorkflowError::Workspace(WorkspaceError::InvalidValue)),
        r matches Ok((res, fx)) ==> (res.payload@ == out.payload@ && invoke_effect_ok(&fx, &workspace, invocation, &out)),
{
    let mut ws = workspace;
    let ghost ws0 = ws;
    match ws.log_len_checked() {
        None => { return Err(WorkflowError::Workspace(WorkspaceError::InvalidValue)); },
        Some(n) => {
            if n == usize::MAX {
                return Err(WorkflowError::Workspace(WorkspaceError::InvalidValue));
            }
        },
    }
    let GuestOutput { payload, entry, writes, user_signal } = out;
    let idx = ws.append_entry(entry);
    let mut i: usize = 0;
    while i < writes.len()
        invariant
            i <= writes@.len(),
            ws.wf(),
            ws.cell() == ws0.cell(),
            ws.base() == ws0.base(),
            ws.snapshot_kv() == ws0.snapshot_kv(),
            ws.snapshot_log() == ws0.snapshot_log(),
            ws.appended() == ws0.appended().push(out.entry@),
            ws.writes() == ws0.writes().union_prefer_right(pairs_map(writes@.take(i as int))),
        decreases writes@.len() - i,
    {
        let v = copy_bytes(&writes[i].1);
        ws.put(writes[i].0, v);
        i = i + 1;
        proof {
            let t = writes@.take(i as int);
            assert(t.drop_last() =~= writes@.take(i - 1));
            assert(ws.writes() =~= ws0.writes().union_prefer_right(pairs_map(t)));
        }
    }
    assert(writes@.take(i as int) =~= writes@);
    let cell = ws.cell_id();
    let triggers = InvokeZomeTriggers { cell_id: cell, new_entry: idx as u64 }.triggers();
    let mut signals: Vec<Signal> = Vec::new();
    signals.push(Signal::Trace(TraceEvent {
        cell_id: cell,
        zome_name: invocation.zome_name.clone(),
        fn_name: invocation.fn_name.clone(),
    }));
    match user_signal {
        Some(u) => signals.push(Signal::User(u)),
        None => {},
    }
    let fx = Effect { workspace: ws, triggers, signals, callbacks: Vec::new() };
    Ok((ZomeInvocationResult { payload }, fx))
}

/// The invocation of one guest function, as a state machine from `Pending`
/// through `Running` to `Completed` or `Failed`.
#[derive(Debug)]
pub struct InvokeZomeWorkflow {
    invocation: ZomeInvocation,
    state: WorkflowState,
}

impl InvokeZomeWorkflow {
    pub closed spec fn spec_invocation(&self) -> ZomeInvocation {
        self.invocation
    }

    pub closed spec fn spec_state(&self) -> WorkflowState {
        self.state
    }

    pub fn new(invocation: ZomeInvocation) -> (r: InvokeZomeWorkflow)
        ensures
            r.spec_invocation() == invocation,
            r.spec_state() == WorkflowState::Pending,
    {
        InvokeZomeWorkflow { invocation, state: WorkflowState::Pending }
    }

    pub fn invocation(&self) -> (r: &ZomeInvocation)
        ensures
            *r == self.spec_invocation(),
    {
        &self.invocation
    }

    pub fn state(&self) -> (r: WorkflowState)
        ensures
            r == self.spec_state(),
    {
        self.state
    }

    /// Leaves `Pending`: with a verified capability the workflow is `Running`
    /// and the guest call to make comes back; without one it is `Failed`
    /// with `CapabilityDenied`. In any other state nothing changes.
    pub fn start(&mut self, cap_verified: bool) -> (r: Result<GuestCall, WorkflowError>)
        ensures
            final(self).spec_invocation() == old(self).spec_invocation(),
            old(self).spec_state() != WorkflowState::Pending ==> r == Err::<GuestCall, WorkflowError>(WorkflowError::InvalidState)
                && final(self).spec_state() == old(self).spec_state(),
            old(self).spec_state() == WorkflowState::Pending && !cap_verified ==> r == Err::<GuestCall, WorkflowError>(
                WorkflowError::CapabilityDenied) && final(self).spec_state() == WorkflowState::Failed,
            old(self).spec_state() == WorkflowState::Pending && cap_verified ==> {
                &&& final(self).spec_state() == WorkflowState::Running
                &&& r matches Ok(call) && call.zome_name@ == old(self).spec_invocation().zome_name@
                    && call.fn_name@ == old(self).spec_invocation().fn_name@
                    && call.parameters@ == old(self).spec_invocation().parameters@
                    && call.as_at == old(self).spec_invocation().as_at
            },
    {
        if self.state != WorkflowState::Pending {
            return Err(WorkflowError::InvalidState);
        }
        if !cap_verified {
            self.state = WorkflowState::Failed;
            return Err(WorkflowError::CapabilityDenied);
        }
        self.state = WorkflowState::Running;
        Ok(GuestCall {
            zome_name: self.invocation.zome_name.clone(),
            fn_name: self.invocation.fn_name.clone(),
            parameters: copy_bytes(&self.invocation.parameters),
            as_at: self.invocation.as_at,
        })
    }

    /// Cancels a workflow that has not finished; it becomes `Failed` and
    /// will produce no effect. Returns whether it was cancelled.
    pub fn cancel(&mut self) -> (r: bool)
        ensures
            final(self).spec_invocation() == old(self).spec_invocation(),
            r == (old(self).spec_state() == WorkflowState::Pending || old(self).spec_state() == WorkflowState::Running),
            r ==> final(self).spec_state() == WorkflowState::Failed,
            !r ==> final(self).spec_state() == old(self).spec_state(),
    {
        if self.state == WorkflowState::Pending || self.state == WorkflowState::Running {
            self.state = WorkflowState::Failed;
            true
        } else {
            false
        }
    }

    /// Finishes a `Running` workflow with the guest call's result. A failed
    /// call fails the workflow with no effect; a successful one completes it
    /// with the effect of `invoke_zome`.
    pub fn workflow(&mut self, workspace: Workspace, guest: Result<GuestOutput, GuestError>) -> (r: Result<(ZomeInvocationResult, Effect), WorkflowError>)
        requires
            workspace.wf(),
        ensures
            final(self).spec_invocation() == old(self).spec_invocation(),
            old(self).spec_state() != WorkflowState::Running ==> r == Err::<(ZomeInvocationResult, Effect), WorkflowError>(
                WorkflowError::InvalidState) && final(self).spec_state() == old(self).spec_state(),
            old(self).spec_state() == WorkflowState::Running ==> match guest {
                Err(e) => r == Err::<(ZomeInvocationResult, Effect), WorkflowError>(WorkflowError::Guest(e))
                    && final(self).spec_state() == WorkflowState::Failed,
                Ok(out) => {
                    &&& (r is Ok <==> workspace.log().len() < usize::MAX)
                    &&& r is Ok ==> final(self).spec_state() == WorkflowState::Completed
                    &&& r is Err ==> final(self).spec_state() == WorkflowState::Failed
                        && r == Err::<(ZomeInvocationResult, Effect), WorkflowError>(WorkflowError::Workspace(WorkspaceError::InvalidValue))
                    &&& r matches Ok((res, fx)) ==> (res.payload@ == out.payload@
                        && invoke_effect_ok(&fx, &workspace, &old(self).spec_invocation(), &out))
                },
            },
    {
        if self.state != WorkflowState::Running {
            return Err(WorkflowError::InvalidState);
        }
        match guest {
            Err(e) => {
                self.state = WorkflowState::Failed;
                Err(WorkflowError::Guest(e))
            },
            Ok(out) => {
                let r = invoke_zome(workspace, &self.invocation, out);
                if r.is_ok() {
                    self.state = WorkflowState::Completed;
                } else {
                    self.state = WorkflowState::Failed;
                }
                r
            },
        }
    }
}

} // verus!
