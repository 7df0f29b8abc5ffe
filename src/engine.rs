use vstd::prelude::*;
use crate::dispatcher::{enqueue_all, enqueue_one, Dispatcher};
use crate::effect::{Trigger, WorkflowKind};
use crate::error::{DispatchError, EngineError, GuestError, StoreError, WorkflowError, WorkspaceError};
use crate::kvmap::pairs_map;
use crate::store::Store;
use crate::types::{ZomeInvocation, ZomeInvocationResult};
use crate::workflow::{invoke_signals_ok, GuestOutput, InvokeZomeWorkflow};
use crate::workspace::Workspace;

verus! {

/// Runs one invocation end to end, given what the capability provider and
/// the guest said about it: checks that its cell and snapshot exist, checks
/// the capability, completes the workflow on a workspace over the cell's
/// head, and commits the effect. Any failure leaves the store's snapshots,
/// the pending triggers and the delivered signals exactly as they were.
pub fn submit(
    store: &mut Store,
    dispatcher: &mut Dispatcher,
    invocation: ZomeInvocation,
    cap_verified: bool,
    guest: Result<GuestOutput, GuestError>,
) -> (r: Result<ZomeInvocationResult, EngineError>)
    requires
        old(store).wf(),
        old(dispatcher).wf(),
    ensures
        final(store).wf(),
        final(dispatcher).wf(),
        ({
            let c = invocation.cell_id as int;
            let s0 = old(store);
            let exists_ok = c < s0.num_cells() && invocation.as_at <= s0.head(c);
            &&& c >= s0.num_cells() ==> r == Err::<ZomeInvocationResult, EngineError>(
                EngineError::Workflow(WorkflowError::Workspace(WorkspaceError::StoreNotInitialized(invocation.cell_id))))
            &&& c < s0.num_cells() && invocation.as_at > s0.head(c) ==> r == Err::<ZomeInvocationResult, EngineError>(
                EngineError::Workflow(WorkflowError::Workspace(WorkspaceError::SnapshotNotFound(invocation.cell_id, invocation.as_at))))
            &&& exists_ok && !cap_verified ==> r == Err::<ZomeInvocationResult, EngineError>(
                EngineError::Workflow(WorkflowError::CapabilityDenied))
            &&& exists_ok && cap_verified ==> match guest {
                Err(e) => r == Err::<ZomeInvocationResult, EngineError>(EngineError::Workflow(WorkflowError::Guest(e))),
                Ok(out) => {
                    let h = s0.head(c);
                    let n = s0.log_at(c, h).len();
                    &&& n >= usize::MAX ==> r == Err::<ZomeInvocationResult, EngineError>(
                        EngineError::Workflow(WorkflowError::Workspace(WorkspaceError::InvalidValue)))
                    &&& n < usize::MAX && s0.fault_armed(c) ==> r == Err::<ZomeInvocationResult, EngineError>(
                        EngineError::Dispatch(DispatchError::Store(StoreError::Io)))
                    &&& n < usize::MAX && !s0.fault_armed(c) ==> {
                        &&& r matches Ok(res) && res.payload@ == out.payload@
                        &&& Store::keeps_history(s0, final(store))
                        &&& final(store).num_cells() == s0.num_cells()
                        &&& final(store).head(c) == h + 1
                        &&& final(store).kv_at(c, h + 1) == s0.kv_at(c, h).union_prefer_right(pairs_map(out.writes@))
                        &&& final(store).log_at(c, h + 1) == s0.log_at(c, h).push(out.entry@)
                        &&& forall|d: int| 0 <= d < s0.num_cells() && d != c ==> #[trigger] final(store).head(d) == s0.head(d)
                        &&& final(dispatcher).pending() == enqueue_one(old(dispatcher).pending(),
                            Trigger { kind: WorkflowKind::RevalidateEntry, cell_id: invocation.cell_id, subject: n as u64 })
                        &&& final(dispatcher).delivered().len() > old(dispatcher).delivered().len()
                        &&& final(dispatcher).delivered().take(old(dispatcher).delivered().len() as int) == old(dispatcher).delivered()
                        &&& invoke_signals_ok(final(dispatcher).delivered().skip(old(dispatcher).delivered().len() as int),
                            invocation.cell_id, &invocation, &out)
                    }
                },
            }
            &&& r is Err ==> {
                &&& Store::same_history(s0, final(store))
                &&& final(dispatcher).pending() == old(dispatcher).pending()
                &&& final(dispatcher).delivered() == old(dispatcher).delivered()
            }
        }),
{
    let cell = invocation.cell_id;
    let as_at = invocation.as_at;
    match Workspace::open(store, cell, as_at) {
        Err(e) => { return Err(EngineError::Workflow(WorkflowError::Workspace(e))); },
        Ok(_) => {},
    }
    let mut wf = InvokeZomeWorkflow::new(invocation);
    match wf.start(cap_verified) {
        Err(e) => { return Err(EngineError::Workflow(e)); },
        Ok(_) => {},
    }
    let ws = match Workspace::open_head(store, cell) {
        Err(e) => { return Err(EngineError::Workflow(WorkflowError::Workspace(e))); },
        Ok(ws) => ws,
    };
    let ghost ws0 = ws;
    let ghost d0 = dispatcher.delivered();
    let ghost d_pending = dispatcher.pending();
    let (res, fx) = match wf.workflow(ws, guest) {
        Err(e) => { return Err(EngineError::Workflow(e)); },
        Ok(p) => p,
    };
    let ghost sigs = fx.signals@;
    match dispatcher.commit(store, fx) {
        Err(e) => Err(EngineError::Dispatch(e)),
        Ok(_) => {
            proof {
                assert(ws0.writes() =~= Map::<u64, Seq<u8>>::empty());
                assert(dispatcher.delivered().skip(d0.len() as int) =~= sigs);
                assert(dispatcher.delivered().take(d0.len() as int) =~= d0);
                assert(ws0.log() =~= ws0.snapshot_log());
                let t = Trigger { kind: WorkflowKind::RevalidateEntry, cell_id: cell, subject: ws0.log().len() as u64 };
                assert(seq![t].drop_last() =~= Seq::<Trigger>::empty());
                assert(seq![t].last() == t);
                assert(enqueue_all(d_pending, Seq::<Trigger>::empty()) == d_pending);
                assert(enqueue_all(d_pending, seq![t]) == enqueue_one(d_pending, t));
            }
            Ok(res)
        },
    }
}

} // verus!
