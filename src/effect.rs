use vstd::prelude::*;
use crate::kvmap::copy_bytes;
use crate::types::{CellId, Signal, TraceEvent, UserSignal};
use crate::workspace::Workspace;

verus! {

/// The kinds of workflow a trigger can schedule.
#[derive(Clone, Copy, Debug, PartialEq, Eq, Structural)]
pub enum WorkflowKind {
    InvokeZome,
    RevalidateEntry,
    Publish,
}

/// A follow-on workflow to schedule once the effect that carries it has
/// committed: which workflow, for which cell, about which subject (a log
/// position or a key).
#[derive(Clone, Copy, Debug, PartialEq, Eq, Structural)]
pub struct Trigger {
    pub kind: WorkflowKind,
    pub cell_id: CellId,
    pub subject: u64,
}

/// The triggers an invocation of a guest function produces: one revalidation
/// of the log entry it appended.
#[derive(Clone, Copy, Debug, PartialEq, Eq, Structural)]
pub struct InvokeZomeTriggers {
    pub cell_id: CellId,
    pub new_entry: u64,
}

impl InvokeZomeTriggers {
    pub open spec fn spec_triggers(&self) -> Seq<Trigger> {
        seq![Trigger { kind: WorkflowKind::RevalidateEntry, cell_id: self.cell_id, subject: self.new_entry }]
    }

    pub fn triggers(&self) -> (r: Vec<Trigger>)
        ensures
            r@ == self.spec_triggers(),
    {
        let r = vec![Trigger { kind: WorkflowKind::RevalidateEntry, cell_id: self.cell_id, subject: self.new_entry }];
        assert(r@ =~= self.spec_triggers());
        r
    }
}

impl Signal {
    /// The two signals carry the same contents.
    pub open spec fn same(&self, o: &Signal) -> bool {
        match (self, o) {
            (Signal::Trace(a), Signal::Trace(b)) => a.cell_id == b.cell_id && a.zome_name@ == b.zome_name@
                && a.fn_name@ == b.fn_name@,
            (Signal::User(a), Signal::User(b)) => a.payload@ == b.payload@,
            _ => false,
        }
    }

    /// Returns an independent copy of the signal.
    pub fn copy(&self) -> (r: Signal)
        ensures
            r.same(self),
    {
        match self {
            Signal::Trace(t) => Signal::Trace(
                TraceEvent { cell_id: t.cell_id, zome_name: t.zome_name.clone(), fn_name: t.fn_name.clone() },
            ),
            Signal::User(u) => Signal::User(UserSignal { payload: copy_bytes(&u.payload) }),
        }
    }

    pub fn is_trace(&self) -> (r: bool)
        ensures
            r == (self is Trace),
    {
        match self {
            Signal::Trace(_) => true,
            Signal::User(_) => false,
        }
    }
}

/// A named hook to run after a commit, with no effect on the store (a
/// metric, for instance).
#[derive(Clone, Debug, PartialEq, Eq)]
pub struct Callback {
    pub name: String,
}

/// The bundled result of one workflow execution: the workspace to commit or
/// discard as a unit, the workflows to schedule after the commit, the
/// signals to deliver after it, in order, and the hooks to run after it.
#[derive(Debug)]
pub struct Effect {
    pub workspace: Workspace,
    pub triggers: Vec<Trigger>,
    pub signals: Vec<Signal>,
    pub callbacks: Vec<Callback>,
}

} // verus!
