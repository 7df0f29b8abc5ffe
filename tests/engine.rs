use workflow_engine::dispatcher::Dispatcher;
use workflow_engine::effect::{Callback, Effect, Trigger, WorkflowKind};
use workflow_engine::engine::submit;
use workflow_engine::error::{DispatchError, EngineError, GuestError, StoreError, WorkflowError, WorkspaceError};
use workflow_engine::store::Store;
use workflow_engine::types::{CapabilityRequest, CellId, Signal, TraceEvent, UserSignal, ZomeInvocation};
use workflow_engine::workflow::{GuestOutput, InvokeZomeWorkflow, WorkflowState};
use workflow_engine::workspace::Workspace;

const COUNTER_KEY: u64 = 7;

fn counter_invocation(cell: CellId, as_at: usize) -> ZomeInvocation {
    ZomeInvocation {
        cell_id: cell,
        zome_name: "counter".to_string(),
        cap: CapabilityRequest { secret: vec![1, 2, 3] },
        fn_name: "increment".to_string(),
        parameters: b"{\"amount\":1}".to_vec(),
        provenance: vec![9; 32],
        as_at,
    }
}

fn read_counter(store: &Store, cell: CellId) -> u64 {
    let ws = Workspace::open_head(store, cell).unwrap();
    match ws.get(COUNTER_KEY) {
        Some(bytes) => u64::from_le_bytes(bytes.as_slice().try_into().unwrap()),
        None => 0,
    }
}

/// A guest "increment" function: adds the amount in its parameters to the
/// counter it reads at the head of the cell.
fn counter_guest(store: &Store, inv: &ZomeInvocation) -> GuestOutput {
    let params = String::from_utf8(inv.parameters.clone()).unwrap();
    let amount: u64 = params
        .trim_start_matches("{\"amount\":")
        .trim_end_matches('}')
        .parse()
        .unwrap();
    let next = read_counter(store, inv.cell_id) + amount;
    let bytes = next.to_le_bytes().to_vec();
    GuestOutput {
        payload: bytes.clone(),
        entry: bytes.clone(),
        writes: vec![(COUNTER_KEY, bytes)],
        user_signal: None,
    }
}

fn run_increment(store: &mut Store, dispatcher: &mut Dispatcher, cell: CellId) -> Result<u64, EngineError> {
    let head = store.head_of(cell);
    let inv = counter_invocation(cell, head);
    let out = counter_guest(store, &inv);
    let res = submit(store, dispatcher, inv, true, Ok(out))?;
    Ok(u64::from_le_bytes(res.payload.as_slice().try_into().unwrap()))
}

fn log_len(store: &Store, cell: CellId) -> usize {
    Workspace::open_head(store, cell).unwrap().log_len()
}

fn drain(dispatcher: &mut Dispatcher) -> Vec<Trigger> {
    let mut out = Vec::new();
    while let Some(t) = dispatcher.next_trigger() {
        out.push(t);
    }
    out
}

#[test]
fn counter_incremented_twice() {
    let mut store = Store::new();
    let mut dispatcher = Dispatcher::new();
    let cell = store.create_cell();
    assert_eq!(run_increment(&mut store, &mut dispatcher, cell), Ok(1));
    assert_eq!(run_increment(&mut store, &mut dispatcher, cell), Ok(2));
    assert_eq!(read_counter(&store, cell), 2);
    assert_eq!(log_len(&store, cell), 2);
    let triggers = drain(&mut dispatcher);
    assert_eq!(
        triggers,
        vec![
            Trigger { kind: WorkflowKind::RevalidateEntry, cell_id: cell, subject: 0 },
            Trigger { kind: WorkflowKind::RevalidateEntry, cell_id: cell, subject: 1 },
        ]
    );
}

#[test]
fn failed_apply_leaves_first_run() {
    let mut store = Store::new();
    let mut dispatcher = Dispatcher::new();
    let cell = store.create_cell();
    assert_eq!(run_increment(&mut store, &mut dispatcher, cell), Ok(1));
    store.arm_apply_failure(cell);
    assert_eq!(
        run_increment(&mut store, &mut dispatcher, cell),
        Err(EngineError::Dispatch(DispatchError::Store(StoreError::Io)))
    );
    assert_eq!(read_counter(&store, cell), 1);
    assert_eq!(log_len(&store, cell), 1);
    assert_eq!(dispatcher.pending_count(), 1);
    // The failure was used up: a retry by the caller goes through.
    assert_eq!(run_increment(&mut store, &mut dispatcher, cell), Ok(2));
}

#[test]
fn two_cells_commit_independently() {
    for a_first in [true, false] {
        let mut store = Store::new();
        let mut dispatcher = Dispatcher::new();
        let a = store.create_cell();
        let b = store.create_cell();
        let inv_a = counter_invocation(a, 0);
        let inv_b = counter_invocation(b, 0);
        let out_a = counter_guest(&store, &inv_a);
        let out_b = counter_guest(&store, &inv_b);
        if a_first {
            assert!(submit(&mut store, &mut dispatcher, inv_a, true, Ok(out_a)).is_ok());
            assert!(submit(&mut store, &mut dispatcher, inv_b, true, Ok(out_b)).is_ok());
        } else {
            assert!(submit(&mut store, &mut dispatcher, inv_b, true, Ok(out_b)).is_ok());
            assert!(submit(&mut store, &mut dispatcher, inv_a, true, Ok(out_a)).is_ok());
        }
        assert_eq!(read_counter(&store, a), 1);
        assert_eq!(read_counter(&store, b), 1);
        assert_eq!(store.head_of(a), 1);
        assert_eq!(store.head_of(b), 1);
        assert_eq!(dispatcher.pending_count(), 2);
    }
}

#[test]
fn equal_triggers_coalesce() {
    let mut store = Store::new();
    let mut dispatcher = Dispatcher::new();
    let cell = store.create_cell();
    let t = Trigger { kind: WorkflowKind::RevalidateEntry, cell_id: cell, subject: 42 };
    let other = Trigger { kind: WorkflowKind::Publish, cell_id: cell, subject: 42 };
    for triggers in [vec![t], vec![t, other]] {
        let mut ws = Workspace::open_head(&store, cell).unwrap();
        ws.put(1, vec![1]);
        let fx = Effect { workspace: ws, triggers, signals: vec![], callbacks: vec![] };
        assert_eq!(dispatcher.commit(&mut store, fx), Ok(vec![]));
    }
    assert_eq!(drain(&mut dispatcher), vec![t, other]);
}

#[test]
fn signals_delivered_in_order_only_after_commit() {
    let mut store = Store::new();
    let mut dispatcher = Dispatcher::new();
    let cell = store.create_cell();
    let mut sub = dispatcher.subscribe();
    let signals = vec![
        Signal::Trace(TraceEvent { cell_id: cell, zome_name: "z".to_string(), fn_name: "f".to_string() }),
        Signal::User(UserSignal { payload: vec![1] }),
        Signal::User(UserSignal { payload: vec![2] }),
    ];
    let ws = Workspace::open_head(&store, cell).unwrap();
    let hook = Callback { name: "metric".to_string() };
    let fx = Effect { workspace: ws, triggers: vec![], signals, callbacks: vec![hook.clone()] };
    assert_eq!(dispatcher.commit(&mut store, fx), Ok(vec![hook]));

    // A failed commit delivers nothing.
    store.arm_apply_failure(cell);
    let ws = Workspace::open_head(&store, cell).unwrap();
    let fx = Effect { workspace: ws, triggers: vec![], signals: vec![Signal::User(UserSignal { payload: vec![3] })], callbacks: vec![] };
    assert_eq!(dispatcher.commit(&mut store, fx), Err(DispatchError::Store(StoreError::Io)));

    let mut seen = Vec::new();
    while let Some(s) = dispatcher.poll(&mut sub) {
        seen.push(s);
    }
    assert_eq!(seen.len(), 3);
    assert!(seen[0].is_trace());
    match (&seen[1], &seen[2]) {
        (Signal::User(a), Signal::User(b)) => {
            assert_eq!(a.payload, vec![1]);
            assert_eq!(b.payload, vec![2]);
        }
        _ => panic!("user signals expected"),
    }
    // A late subscriber sees none of the earlier signals.
    let mut late = dispatcher.subscribe();
    assert!(dispatcher.poll(&mut late).is_none());
}

#[test]
fn denied_capability_changes_nothing() {
    let mut store = Store::new();
    let mut dispatcher = Dispatcher::new();
    let cell = store.create_cell();
    let inv = counter_invocation(cell, 0);
    let out = counter_guest(&store, &inv);
    assert_eq!(
        submit(&mut store, &mut dispatcher, inv, false, Ok(out)),
        Err(EngineError::Workflow(WorkflowError::CapabilityDenied))
    );
    assert_eq!(store.head_of(cell), 0);
    assert_eq!(dispatcher.pending_count(), 0);

    let mut wf = InvokeZomeWorkflow::new(counter_invocation(cell, 0));
    assert!(matches!(wf.start(false), Err(WorkflowError::CapabilityDenied)));
    assert_eq!(wf.state(), WorkflowState::Failed);
}

#[test]
fn failed_guest_leaves_store_untouched() {
    let mut store = Store::new();
    let mut dispatcher = Dispatcher::new();
    let cell = store.create_cell();
    let inv = counter_invocation(cell, 0);
    assert_eq!(
        submit(&mut store, &mut dispatcher, inv, true, Err(GuestError::Trap)),
        Err(EngineError::Workflow(WorkflowError::Guest(GuestError::Trap)))
    );
    assert_eq!(store.head_of(cell), 0);
    assert_eq!(read_counter(&store, cell), 0);

    // A workspace filled and then dropped leaves nothing behind either.
    let mut ws = Workspace::open_head(&store, cell).unwrap();
    ws.put(COUNTER_KEY, 5u64.to_le_bytes().to_vec());
    ws.append_entry(vec![5]);
    drop(ws);
    assert_eq!(store.head_of(cell), 0);
    assert_eq!(read_counter(&store, cell), 0);
}

#[test]
fn conflicting_commit_is_refused_whole() {
    let mut store = Store::new();
    let mut dispatcher = Dispatcher::new();
    let cell = store.create_cell();
    let mut first = Workspace::open_head(&store, cell).unwrap();
    let mut second = Workspace::open_head(&store, cell).unwrap();
    first.put(1, vec![1]);
    second.put(2, vec![2]);
    second.append_entry(vec![2]);
    let t = Trigger { kind: WorkflowKind::RevalidateEntry, cell_id: cell, subject: 0 };
    let fx1 = Effect { workspace: first, triggers: vec![], signals: vec![], callbacks: vec![] };
    let fx2 = Effect { workspace: second, triggers: vec![t], signals: vec![], callbacks: vec![] };
    assert_eq!(dispatcher.commit(&mut store, fx1), Ok(vec![]));
    assert_eq!(dispatcher.commit(&mut store, fx2), Err(DispatchError::Store(StoreError::Conflict)));
    let ws = Workspace::open_head(&store, cell).unwrap();
    assert_eq!(ws.get(1), Some(vec![1]));
    assert_eq!(ws.get(2), None);
    assert_eq!(ws.log_len(), 0);
    assert_eq!(dispatcher.pending_count(), 0);
}

#[test]
fn snapshot_reads_ignore_later_commits() {
    let mut store = Store::new();
    let mut dispatcher = Dispatcher::new();
    let cell = store.create_cell();
    let mut ws = Workspace::open_head(&store, cell).unwrap();
    ws.put(1, vec![10]);
    ws.put(2, vec![20]);
    let fx = Effect { workspace: ws, triggers: vec![], signals: vec![], callbacks: vec![] };
    assert_eq!(dispatcher.commit(&mut store, fx), Ok(vec![]));

    let reader = Workspace::open(&store, cell, 1).unwrap();
    let mut writer = Workspace::open_head(&store, cell).unwrap();
    writer.put(1, vec![11]);
    writer.put(3, vec![30]);
    let fx = Effect { workspace: writer, triggers: vec![], signals: vec![], callbacks: vec![] };
    assert_eq!(dispatcher.commit(&mut store, fx), Ok(vec![]));

    assert_eq!(reader.get(1), Some(vec![10]));
    assert_eq!(reader.get(2), Some(vec![20]));
    assert_eq!(reader.get(3), None);
    let again = Workspace::open(&store, cell, 1).unwrap();
    assert_eq!(again.get(1), Some(vec![10]));
    assert_eq!(again.get(3), None);
    let head = Workspace::open_head(&store, cell).unwrap();
    assert_eq!(head.get(1), Some(vec![11]));
    assert_eq!(head.get(3), Some(vec![30]));
}

#[test]
fn workspace_reads_own_writes_first() {
    let mut store = Store::new();
    let mut dispatcher = Dispatcher::new();
    let cell = store.create_cell();
    let mut ws = Workspace::open_head(&store, cell).unwrap();
    ws.put(1, vec![1]);
    let fx = Effect { workspace: ws, triggers: vec![], signals: vec![], callbacks: vec![] };
    assert_eq!(dispatcher.commit(&mut store, fx), Ok(vec![]));
    let mut ws = Workspace::open_head(&store, cell).unwrap();
    assert_eq!(ws.get(1), Some(vec![1]));
    ws.put(1, vec![2]);
    assert_eq!(ws.get(1), Some(vec![2]));
    let other = Workspace::open_head(&store, cell).unwrap();
    assert_eq!(other.get(1), Some(vec![1]));
}

#[test]
fn open_reports_missing_store_and_snapshot() {
    let mut store = Store::new();
    assert_eq!(Workspace::open(&store, 0, 0).err(), Some(WorkspaceError::StoreNotInitialized(0)));
    let cell = store.create_cell();
    assert_eq!(Workspace::open(&store, cell, 3).err(), Some(WorkspaceError::SnapshotNotFound(cell, 3)));
    let ws = Workspace::open(&store, cell, 0).unwrap();
    assert_eq!(ws.latest_entry(), Err(WorkspaceError::EmptyStore(cell)));
    let mut dispatcher = Dispatcher::new();
    assert_eq!(
        submit(&mut store, &mut dispatcher, counter_invocation(5, 0), true, Err(GuestError::Trap)),
        Err(EngineError::Workflow(WorkflowError::Workspace(WorkspaceError::StoreNotInitialized(5))))
    );
    assert_eq!(
        submit(&mut store, &mut dispatcher, counter_invocation(cell, 4), true, Err(GuestError::Trap)),
        Err(EngineError::Workflow(WorkflowError::Workspace(WorkspaceError::SnapshotNotFound(cell, 4))))
    );
}

#[test]
fn latest_entry_sees_buffered_append() {
    let mut store = Store::new();
    let cell = store.create_cell();
    let mut ws = Workspace::open_head(&store, cell).unwrap();
    assert_eq!(ws.append_entry(vec![4, 5]), 0);
    assert_eq!(ws.append_entry(vec![6]), 1);
    assert_eq!(ws.latest_entry(), Ok(vec![6]));
    assert_eq!(ws.entry(0), Some(vec![4, 5]));
    assert_eq!(ws.entry(2), None);
}

#[test]
fn can_invoke_zome_with_mock() {
    let mut store = Store::new();
    let cell = store.create_cell();
    let invocation = ZomeInvocation {
        cell_id: cell,
        zome_name: "zome".into(),
        fn_name: "fn".into(),
        as_at: 0,
        parameters: "args".into(),
        provenance: "mario".into(),
        cap: CapabilityRequest { secret: "holochain_2020".into() },
    };
    let mut wf = InvokeZomeWorkflow::new(invocation);
    let call = wf.start(true).unwrap();
    assert_eq!(call.zome_name, "zome");
    assert_eq!(call.fn_name, "fn");
    assert_eq!(call.parameters, b"args".to_vec());
    let ws = Workspace::open_head(&store, cell).unwrap();
    let out = GuestOutput {
        payload: b"KwyXHisn".to_vec(),
        entry: vec![1],
        writes: vec![],
        user_signal: Some(UserSignal { payload: vec![8] }),
    };
    let result = wf.workflow(ws, Ok(out));
    assert!(result.is_ok());
    let (res, fx) = result.unwrap();
    assert_eq!(res.payload, b"KwyXHisn".to_vec());
    assert_eq!(wf.state(), WorkflowState::Completed);
    assert_eq!(fx.triggers, vec![Trigger { kind: WorkflowKind::RevalidateEntry, cell_id: cell, subject: 0 }]);
    assert_eq!(fx.signals.len(), 2);
    assert!(fx.signals[0].is_trace());
    assert_eq!(fx.workspace.latest_entry(), Ok(vec![1]));
    // A finished workflow takes no further steps.
    assert!(!wf.cancel());
    let ws = Workspace::open_head(&store, cell).unwrap();
    assert!(matches!(wf.workflow(ws, Err(GuestError::Trap)), Err(WorkflowError::InvalidState)));
}

#[test]
fn cancelled_workflow_produces_no_effect() {
    let mut store = Store::new();
    let cell = store.create_cell();
    let mut wf = InvokeZomeWorkflow::new(counter_invocation(cell, 0));
    assert!(wf.start(true).is_ok());
    assert!(wf.cancel());
    assert_eq!(wf.state(), WorkflowState::Failed);
    let ws = Workspace::open_head(&store, cell).unwrap();
    let out = counter_guest(&store, &counter_invocation(cell, 0));
    assert!(matches!(wf.workflow(ws, Ok(out)), Err(WorkflowError::InvalidState)));
    let mut pending = InvokeZomeWorkflow::new(counter_invocation(cell, 0));
    assert!(pending.cancel());
    assert!(matches!(pending.start(true), Err(WorkflowError::InvalidState)));
    let mut running = InvokeZomeWorkflow::new(counter_invocation(cell, 0));
    assert!(running.start(true).is_ok());
    let ws = Workspace::open_head(&store, cell).unwrap();
    assert!(matches!(
        running.workflow(ws, Err(GuestError::Cancelled)),
        Err(WorkflowError::Guest(GuestError::Cancelled))
    ));
    assert_eq!(running.state(), WorkflowState::Failed);
}
