use indradb::batch::{Action, ActionResult};
use indradb::datastore::{is_memory_scheme, open};
use indradb::errors::Error;
use indradb::memory::MemoryDatastore;
use indradb::transport::{
    handle, handle_reads, internal_error, Body, CredentialStore, Request, Response,
};

fn credentials() -> CredentialStore {
    let mut known = CredentialStore::new();
    known.add(7, "hunter2".to_string());
    known.add(8, "swordfish".to_string());
    known
}

fn request(method: &str, path: &str, account_id: u128, secret: &str, body: Option<Vec<Action>>) -> Request {
    Request { method: method.to_string(), path: path.to_string(), account_id, secret: secret.to_string(), body }
}

fn error_text(response: &Response) -> String {
    match &response.body {
        Body::Error(text) => text.clone(),
        other => panic!("not an error: {:?}", other),
    }
}

#[test]
fn bad_connection_string_is_refused() {
    assert!(matches!(open("foo://"), Err(Error::UnsupportedScheme)));
    assert!(matches!(open(""), Err(Error::UnsupportedScheme)));
    assert!(matches!(open("memory:/"), Err(Error::UnsupportedScheme)));
    assert!(matches!(open("Memory://"), Err(Error::UnsupportedScheme)));
    assert!(matches!(open(" memory://"), Err(Error::UnsupportedScheme)));
    assert!(matches!(open("rocksdb://memory://"), Err(Error::UnsupportedScheme)));
    assert_eq!(Error::UnsupportedScheme.message(), "unsupported datastore scheme");
}

#[test]
fn memory_connection_string_opens_an_empty_datastore() {
    let store = open("memory://").unwrap();
    assert!(store.get_vertex_range(0, 10).is_empty());
    assert!(open("memory://anything").is_ok());
    assert!(is_memory_scheme(b"memory://"));
    assert!(!is_memory_scheme(b"memory:/x"));
}

#[test]
fn credentials_must_match_in_full() {
    let known = credentials();
    assert!(known.authorizes(7, &"hunter2".to_string()));
    assert!(known.authorizes(8, &"swordfish".to_string()));
    assert!(!known.authorizes(7, &"swordfish".to_string()));
    assert!(!known.authorizes(8, &"hunter2".to_string()));
    assert!(!known.authorizes(7, &"hunter".to_string()));
    assert!(!known.authorizes(7, &String::new()));
    assert!(!known.authorizes(9, &"hunter2".to_string()));
    assert!(!CredentialStore::new().authorizes(7, &"hunter2".to_string()));
}

#[test]
fn unknown_routes_get_404() {
    let mut store = MemoryDatastore::new();
    let known = credentials();
    for (method, path) in [("POST", "/"), ("POST", "/transactions"), ("GET", "/transaction"), ("post", "/transaction")] {
        let response = handle(&known, &mut store, request(method, path, 7, "hunter2", Some(Vec::new())));
        assert_eq!(response.status, 404);
        assert_eq!(error_text(&response), "not found");
    }
}

#[test]
fn unknown_credentials_get_401_and_the_secret_is_not_repeated() {
    let mut store = MemoryDatastore::new();
    let known = credentials();
    let batch = vec![Action::SetVertex { id: 1, t: "v".to_string() }];
    let response = handle(&known, &mut store, request("POST", "/transaction", 7, "letmein-4711", Some(batch)));
    assert_eq!(response.status, 401);
    assert_eq!(error_text(&response), "unauthorized");
    assert!(!error_text(&response).contains("letmein-4711"));
    assert!(!store.has_vertex(1));
}

#[test]
fn malformed_body_gets_400() {
    let mut store = MemoryDatastore::new();
    let response = handle(&credentials(), &mut store, request("POST", "/transaction", 7, "hunter2", None));
    assert_eq!(response.status, 400);
    assert_eq!(error_text(&response), "malformed request");
}

#[test]
fn batch_that_succeeds_gets_200_with_its_results() {
    let mut store = MemoryDatastore::new();
    let batch = vec![
        Action::SetVertex { id: 1, t: "v".to_string() },
        Action::GetVertex { id: 1 },
    ];
    let response = handle(&credentials(), &mut store, request("POST", "/transaction", 8, "swordfish", Some(batch)));
    assert_eq!(response.status, 200);
    match response.body {
        Body::Results(results) => {
            assert_eq!(results.len(), 2);
            assert!(matches!(results[0], ActionResult::Null));
            assert!(matches!(results[1], ActionResult::Vertex(_)));
        }
        other => panic!("not results: {:?}", other),
    }
    assert!(store.has_vertex(1));
}

#[test]
fn batch_that_fails_gets_400_with_the_place_of_the_failure() {
    let mut store = MemoryDatastore::new();
    let bogus = 0x16151dea_a538_4bf1_9559_851e256cf139u128;
    let batch = vec![
        Action::CreateVertex { t: "a".to_string() },
        Action::SetEdge { outbound_id: bogus, t: "t".to_string(), inbound_id: bogus, weight: 0.1f32.to_bits() },
    ];
    let response = handle(&credentials(), &mut store, request("POST", "/transaction", 7, "hunter2", Some(batch)));
    assert_eq!(response.status, 400);
    assert_eq!(error_text(&response), "Item #1: vertex does not exist");
    assert_eq!(store.get_vertex_range(0, 10).len(), 1);
}

#[test]
fn server_failure_gets_500_and_says_nothing_more() {
    let response = internal_error();
    assert_eq!(response.status, 500);
    assert_eq!(error_text(&response), "internal error");
}

#[test]
fn requests_that_only_read_are_answered_without_change() {
    let mut store = MemoryDatastore::new();
    let known = credentials();
    let setup = vec![
        Action::SetVertex { id: 1, t: "v".to_string() },
        Action::SetVertex { id: 2, t: "v".to_string() },
        Action::SetEdge { outbound_id: 1, t: "t".to_string(), inbound_id: 2, weight: 0 },
    ];
    let writes = request("POST", "/transaction", 7, "hunter2", Some(setup));
    assert!(!writes.reads_only());
    assert_eq!(handle(&known, &mut store, writes).status, 200);

    let reads = || {
        vec![
            Action::GetVertex { id: 1 },
            Action::GetEdgeCount { outbound_id: 1, t: None },
            Action::GetEdge { outbound_id: 1, t: "t".to_string(), inbound_id: 2 },
        ]
    };
    let asked = request("POST", "/transaction", 7, "hunter2", Some(reads()));
    assert!(asked.reads_only());
    let response = handle_reads(&known, &store, asked);
    assert_eq!(response.status, 200);
    match response.body {
        Body::Results(results) => {
            assert_eq!(results.len(), 3);
            assert!(matches!(results[1], ActionResult::Count(1)));
        }
        other => panic!("not results: {:?}", other),
    }
    // The same request is answered alike on either path.
    let again = handle(&known, &mut store, request("POST", "/transaction", 7, "hunter2", Some(reads())));
    assert_eq!(again.status, 200);

    let failing = vec![Action::GetVertex { id: 1 }, Action::GetVertex { id: 9 }];
    let response = handle_reads(&known, &store, request("POST", "/transaction", 7, "hunter2", Some(failing)));
    assert_eq!(response.status, 400);
    assert_eq!(error_text(&response), "Item #1: vertex does not exist");

    let nothing = request("POST", "/transaction", 7, "hunter2", None);
    assert!(nothing.reads_only());
    assert_eq!(handle_reads(&known, &store, nothing).status, 400);
    let stranger = request("POST", "/transaction", 9, "hunter2", Some(reads()));
    assert_eq!(handle_reads(&known, &store, stranger).status, 401);
    let lost = request("GET", "/elsewhere", 7, "hunter2", Some(reads()));
    assert_eq!(handle_reads(&known, &store, lost).status, 404);
}
