use indradb::batch::{
    execute_batch, execute_reads, perform, perform_read, reads_only, Action, ActionResult,
    BatchError, ScopeRequest,
};
use indradb::errors::Error;
use indradb::memory::MemoryDatastore;
use indradb::transaction::MemoryTransaction;
use regex::Regex;
use serde_json::Value;

fn create(t: &str) -> Action {
    Action::CreateVertex { t: t.to_string() }
}

fn set_vertex(id: u128, t: &str) -> Action {
    Action::SetVertex { id, t: t.to_string() }
}

fn set_edge(a: u128, t: &str, b: u128, w: f32) -> Action {
    Action::SetEdge { outbound_id: a, t: t.to_string(), inbound_id: b, weight: w.to_bits() }
}

fn some(t: &str) -> Option<String> {
    Some(t.to_string())
}

fn run(store: &mut MemoryDatastore, actions: Vec<Action>) -> Result<Vec<ActionResult>, BatchError> {
    let txn = MemoryTransaction::new(1);
    execute_batch(&txn, store, actions)
}

#[test]
fn batch_stops_at_the_first_action_that_fails() {
    let mut store = MemoryDatastore::new();
    let bogus = 0x16151dea_a538_4bf1_9559_851e256cf139u128;
    let stopped = run(&mut store, vec![create("a"), set_edge(bogus, "t", bogus, 0.1)]).unwrap_err();
    assert_eq!(stopped.index, 1);
    assert!(matches!(stopped.error, Error::VertexNotFound));
    let message = stopped.message();
    assert!(Regex::new(r"^Item #1: .+$").unwrap().is_match(&message));
    assert_eq!(message, "Item #1: vertex does not exist");
    // The vertex of the first action has been created and stays.
    let left = store.get_vertex_range(0, 10);
    assert_eq!(left.len(), 1);
    assert_eq!(left[0].t.as_str(), "a");
}

#[test]
fn batch_returns_one_result_for_each_action() {
    let mut store = MemoryDatastore::new();
    let results = run(
        &mut store,
        vec![
            set_vertex(1, "person"),
            set_vertex(2, "person"),
            set_edge(1, "knows", 2, 0.5),
            Action::GetEdge { outbound_id: 1, t: "knows".to_string(), inbound_id: 2 },
            Action::GetEdgeCount { outbound_id: 1, t: some("knows") },
            Action::GetVertex { id: 2 },
            Action::GetVertexRange { start_id: 0, limit: 10 },
            Action::GetReversedEdgeRange { inbound_id: 2, t: None, offset: 0, limit: 10 },
            create("thing"),
            Action::DeleteVertex { id: 2 },
            Action::GetEdgeCount { outbound_id: 1, t: None },
        ],
    )
    .unwrap();
    assert_eq!(results.len(), 11);
    assert!(matches!(results[0], ActionResult::Null));
    assert!(matches!(results[1], ActionResult::Null));
    assert!(matches!(results[2], ActionResult::Null));
    match &results[3] {
        ActionResult::Edge(e) => {
            assert_eq!((e.key.outbound_id, e.key.t.as_str(), e.key.inbound_id), (1, "knows", 2));
            assert_eq!(f32::from_bits(e.weight.bits()), 0.5);
        }
        other => panic!("not an edge: {:?}", other),
    }
    assert!(matches!(results[4], ActionResult::Count(1)));
    match &results[5] {
        ActionResult::Vertex(v) => assert_eq!((v.id, v.t.as_str()), (2, "person")),
        other => panic!("not a vertex: {:?}", other),
    }
    match &results[6] {
        ActionResult::Vertices(vs) => assert_eq!(vs.iter().map(|v| v.id).collect::<Vec<_>>(), vec![1, 2]),
        other => panic!("not vertices: {:?}", other),
    }
    match &results[7] {
        ActionResult::Edges(es) => assert_eq!(es.len(), 1),
        other => panic!("not edges: {:?}", other),
    }
    match &results[8] {
        ActionResult::Id(id) => assert!(store.has_vertex(*id)),
        other => panic!("not an identifier: {:?}", other),
    }
    assert!(matches!(results[9], ActionResult::Null));
    assert!(matches!(results[10], ActionResult::Count(0)));
}

#[test]
fn empty_batch_returns_nothing() {
    let mut store = MemoryDatastore::new();
    assert!(run(&mut store, Vec::new()).unwrap().is_empty());
}

#[test]
fn batch_error_names_the_place_of_the_action() {
    let mut store = MemoryDatastore::new();
    let mut actions: Vec<Action> = (0..12).map(|i| set_vertex(i, "v")).collect();
    actions.push(Action::GetVertex { id: 99 });
    actions.push(set_vertex(100, "v"));
    let stopped = run(&mut store, actions).unwrap_err();
    assert_eq!(stopped.index, 12);
    assert_eq!(stopped.message(), "Item #12: vertex does not exist");
    assert!(!store.has_vertex(100));
    assert!(store.has_vertex(11));
    let first = run(&mut store, vec![Action::GetVertex { id: 99 }]).unwrap_err();
    assert_eq!(first.message(), "Item #0: vertex does not exist");
    let far = BatchError { index: 1234567890, error: Error::Unsupported };
    assert_eq!(far.message(), "Item #1234567890: unsupported operation");
    let far = BatchError { index: usize::MAX, error: Error::UuidTaken };
    assert_eq!(far.message(), format!("Item #{}: UUID already taken", usize::MAX));
}

#[test]
fn actions_check_their_type_tags() {
    let mut store = MemoryDatastore::new();
    store.set_vertex(1, indradb::models::Type::new("v".to_string()).unwrap());
    let txn = MemoryTransaction::new(1);
    let long = "x".repeat(256);
    assert!(matches!(perform(&txn, &mut store, create("")), Err(Error::InvalidValue)));
    assert!(matches!(perform(&txn, &mut store, create(&long)), Err(Error::ValueTooLong)));
    assert!(matches!(perform(&txn, &mut store, set_vertex(5, "")), Err(Error::InvalidValue)));
    assert!(matches!(perform(&txn, &mut store, set_edge(1, &long, 1, 0.0)), Err(Error::ValueTooLong)));
    assert!(matches!(
        perform(&txn, &mut store, Action::GetEdgeCount { outbound_id: 1, t: some("") }),
        Err(Error::InvalidValue)
    ));
    assert!(matches!(
        perform(
            &txn,
            &mut store,
            Action::GetEdgeRange { outbound_id: 1, t: Some(long.clone()), offset: 0, limit: 1 }
        ),
        Err(Error::ValueTooLong)
    ));
    assert!(matches!(
        perform(&txn, &mut store, Action::GetEdgeCount { outbound_id: 1, t: None }),
        Ok(ActionResult::Count(0))
    ));
    assert_eq!(store.get_vertex_range(0, 10).len(), 1);
    assert_eq!(Error::InvalidValue.message(), "invalid value");
    assert_eq!(Error::ValueTooLong.message(), "value too long");
}

#[test]
fn actions_check_their_weights() {
    let mut store = MemoryDatastore::new();
    let stopped = run(
        &mut store,
        vec![set_vertex(1, "v"), set_vertex(2, "v"), set_edge(1, "t", 2, 1.5), set_edge(1, "t", 2, 0.5)],
    )
    .unwrap_err();
    assert_eq!(stopped.message(), "Item #2: invalid value");
    assert_eq!(store.get_edge_count(1, None), 0);
    for w in [f32::NAN, f32::INFINITY, f32::NEG_INFINITY, -1.5] {
        let stopped = run(&mut store, vec![set_edge(1, "t", 2, w)]).unwrap_err();
        assert!(matches!(stopped.error, Error::InvalidValue));
    }
    // The type tag is checked before the weight.
    let stopped = run(&mut store, vec![set_edge(1, &"x".repeat(300), 2, 7.0)]).unwrap_err();
    assert!(matches!(stopped.error, Error::ValueTooLong));
    assert!(run(&mut store, vec![set_edge(1, "t", 2, -1.0)]).is_ok());
}

#[test]
fn batch_runs_time_ranges() {
    let mut store = MemoryDatastore::new();
    run(&mut store, vec![set_vertex(1, "v"), set_vertex(2, "v"), set_vertex(3, "v")]).unwrap();
    let tag = |t: &str| indradb::models::Type::new(t.to_string()).unwrap();
    let w = indradb::models::Weight::new(0).unwrap();
    store.set_edge_at(indradb::models::EdgeKey::new(1, tag("t"), 2), w, 100).unwrap();
    store.set_edge_at(indradb::models::EdgeKey::new(1, tag("t"), 3), w, 200).unwrap();
    let results = run(
        &mut store,
        vec![
            Action::GetEdgeTimeRange { outbound_id: 1, t: some("t"), high: Some(200), low: Some(100), limit: 10 },
            Action::GetEdgeTimeRange { outbound_id: 1, t: None, high: None, low: None, limit: 10 },
            Action::GetReversedEdgeTimeRange { inbound_id: 2, t: None, high: Some(100), low: None, limit: 10 },
            Action::GetReversedEdgeCount { inbound_id: 3, t: some("t") },
            Action::GetEdgeRange { outbound_id: 1, t: some("t"), offset: 1, limit: 5 },
            Action::DeleteEdge { outbound_id: 1, t: "t".to_string(), inbound_id: 3 },
            Action::GetEdgeCount { outbound_id: 1, t: None },
        ],
    )
    .unwrap();
    let inbound = |r: &ActionResult| match r {
        ActionResult::Edges(es) => es.iter().map(|e| e.key.inbound_id).collect::<Vec<_>>(),
        other => panic!("not edges: {:?}", other),
    };
    assert_eq!(inbound(&results[0]), vec![3]);
    assert_eq!(inbound(&results[1]), vec![3, 2]);
    assert_eq!(inbound(&results[2]), vec![2]);
    assert!(matches!(results[3], ActionResult::Count(1)));
    assert_eq!(inbound(&results[4]), vec![2]);
    assert!(matches!(results[5], ActionResult::Null));
    assert!(matches!(results[6], ActionResult::Count(1)));
}

#[test]
fn batch_reads_and_writes_metadata_in_every_scope() {
    let mut store = MemoryDatastore::new();
    let edge = || ScopeRequest::Edge { outbound_id: 1, t: "t".to_string(), inbound_id: 2 };
    let results = run(
        &mut store,
        vec![
            set_vertex(1, "v"),
            set_vertex(2, "v"),
            set_edge(1, "t", 2, 0.0),
            Action::SetMetadata { scope: ScopeRequest::Global, key: "k".to_string(), value: Value::from(1u64) },
            Action::SetMetadata { scope: ScopeRequest::Account, key: "k".to_string(), value: Value::from(2u64) },
            Action::SetMetadata {
                scope: ScopeRequest::Vertex { id: 1 },
                key: "k".to_string(),
                value: Value::from(3u64),
            },
            Action::SetMetadata { scope: edge(), key: "k".to_string(), value: Value::from(4u64) },
            Action::GetMetadata { scope: ScopeRequest::Global, key: "k".to_string() },
            Action::GetMetadata { scope: ScopeRequest::Account, key: "k".to_string() },
            Action::GetMetadata { scope: ScopeRequest::Vertex { id: 1 }, key: "k".to_string() },
            Action::GetMetadata { scope: edge(), key: "k".to_string() },
            Action::DeleteMetadata { scope: ScopeRequest::Global, key: "k".to_string() },
        ],
    )
    .unwrap();
    for (at, expected) in [(7usize, 1u64), (8, 2), (9, 3), (10, 4)] {
        match &results[at] {
            ActionResult::Json(value) => assert_eq!(*value, Value::from(expected)),
            other => panic!("not a value: {:?}", other),
        }
    }
    let stopped = run(
        &mut store,
        vec![Action::GetMetadata { scope: ScopeRequest::Global, key: "k".to_string() }],
    )
    .unwrap_err();
    assert_eq!(stopped.message(), "Item #0: metadata does not exist");
    // The account is that of the transaction.
    let other = MemoryTransaction::new(2);
    let missing = perform(
        &other,
        &mut store,
        Action::GetMetadata { scope: ScopeRequest::Account, key: "k".to_string() },
    );
    assert!(matches!(missing, Err(Error::MetadataNotFound)));
    // The scope is checked before the name.
    let bad = perform(
        &other,
        &mut store,
        Action::GetMetadata {
            scope: ScopeRequest::Edge { outbound_id: 1, t: "x".repeat(256), inbound_id: 2 },
            key: String::new(),
        },
    );
    assert!(matches!(bad, Err(Error::ValueTooLong)));
    let bad = perform(
        &other,
        &mut store,
        Action::SetMetadata { scope: ScopeRequest::Global, key: String::new(), value: Value::Null },
    );
    assert!(matches!(bad, Err(Error::InvalidValue)));
    let bad = perform(
        &other,
        &mut store,
        Action::SetMetadata { scope: ScopeRequest::Vertex { id: 9 }, key: "k".to_string(), value: Value::Null },
    );
    assert!(matches!(bad, Err(Error::VertexNotFound)));
}

#[test]
fn transactions_commit_and_cannot_roll_back() {
    let mut store = MemoryDatastore::new();
    let txn = store.transaction(5);
    let id = txn.create_vertex(&mut store, indradb::models::Type::new("v".to_string()).unwrap()).unwrap();
    assert!(txn.commit().is_ok());
    assert!(store.has_vertex(id));
    let txn = store.transaction(5);
    txn.delete_vertex(&mut store, id).unwrap();
    assert!(matches!(txn.rollback(), Err(Error::Unsupported)));
    assert!(!store.has_vertex(id));
    assert_eq!(Error::Unsupported.message(), "unsupported operation");
}

#[test]
fn json_errors_carry_their_text() {
    let broken = serde_json::from_str::<Value>("[1, 2").unwrap_err();
    let text = broken.to_string();
    let error = Error::from(broken);
    assert!(matches!(error, Error::Json { .. }));
    assert_eq!(error.message(), format!("json error: {}", text));
    assert!(error.message().len() > "json error: ".len());
}

#[test]
fn actions_that_only_read_are_told_apart() {
    let reads = vec![
        Action::GetVertex { id: 1 },
        Action::GetVertexRange { start_id: 0, limit: 1 },
        Action::GetEdge { outbound_id: 1, t: "t".to_string(), inbound_id: 2 },
        Action::GetEdgeCount { outbound_id: 1, t: None },
        Action::GetEdgeRange { outbound_id: 1, t: None, offset: 0, limit: 1 },
        Action::GetEdgeTimeRange { outbound_id: 1, t: None, high: None, low: None, limit: 1 },
        Action::GetReversedEdgeCount { inbound_id: 1, t: None },
        Action::GetReversedEdgeRange { inbound_id: 1, t: None, offset: 0, limit: 1 },
        Action::GetReversedEdgeTimeRange { inbound_id: 1, t: None, high: None, low: None, limit: 1 },
        Action::GetMetadata { scope: ScopeRequest::Global, key: "k".to_string() },
    ];
    let writes = vec![
        create("v"),
        set_vertex(1, "v"),
        Action::DeleteVertex { id: 1 },
        set_edge(1, "t", 2, 0.0),
        Action::DeleteEdge { outbound_id: 1, t: "t".to_string(), inbound_id: 2 },
        Action::SetMetadata { scope: ScopeRequest::Global, key: "k".to_string(), value: Value::Null },
        Action::DeleteMetadata { scope: ScopeRequest::Global, key: "k".to_string() },
    ];
    assert!(reads.iter().all(|action| action.is_read()));
    assert!(writes.iter().all(|action| !action.is_read()));
    assert!(reads_only(&reads));
    assert!(!reads_only(&writes));
    assert!(reads_only(&Vec::new()));

    let mut store = MemoryDatastore::new();
    run(&mut store, vec![set_vertex(1, "v"), set_vertex(2, "v"), set_edge(1, "t", 2, 0.5)]).unwrap();
    let txn = MemoryTransaction::new(1);
    assert!(matches!(
        perform_read(&txn, &store, Action::GetEdgeCount { outbound_id: 1, t: some("t") }),
        Ok(ActionResult::Count(1))
    ));
    assert!(matches!(
        perform_read(&txn, &store, Action::GetVertex { id: 3 }),
        Err(Error::VertexNotFound)
    ));
    let stopped = execute_reads(&txn, &store, reads).unwrap_err();
    assert_eq!(stopped.message(), "Item #9: metadata does not exist");
    let results = execute_reads(
        &txn,
        &store,
        vec![Action::GetVertex { id: 2 }, Action::GetReversedEdgeCount { inbound_id: 2, t: None }],
    )
    .unwrap();
    assert!(matches!(results[0], ActionResult::Vertex(_)));
    assert!(matches!(results[1], ActionResult::Count(1)));
}
