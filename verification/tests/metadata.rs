use indradb::errors::Error;
use indradb::memory::MemoryDatastore;
use indradb::metadata::Scope;
use indradb::models::{EdgeKey, Type, Weight};
use indradb::transaction::MemoryTransaction;
use serde_json::Value;

fn tag(s: &str) -> Type {
    Type::new(s.to_string()).unwrap()
}

fn key(a: u128, t: &str, b: u128) -> EdgeKey {
    EdgeKey::new(a, tag(t), b)
}

fn text(s: &str) -> Value {
    Value::String(s.to_string())
}

fn graph() -> MemoryDatastore {
    let mut store = MemoryDatastore::new();
    for id in 1u128..=3 {
        store.set_vertex(id, tag("v"));
    }
    let w = Weight::new(0.5f32.to_bits()).unwrap();
    store.set_edge_at(key(1, "t", 2), w, 1).unwrap();
    store.set_edge_at(key(2, "t", 3), w, 2).unwrap();
    store.set_edge_at(key(1, "t", 3), w, 3).unwrap();
    store
}

#[test]
fn metadata_is_read_as_written() {
    let mut store = graph();
    assert!(matches!(store.get_metadata(&Scope::Global, &tag("k")), Err(Error::MetadataNotFound)));
    store.set_metadata(Scope::Global, tag("k"), text("one")).unwrap();
    assert_eq!(store.get_metadata(&Scope::Global, &tag("k")).unwrap(), text("one"));
    store.set_metadata(Scope::Global, tag("k"), Value::from(2u64)).unwrap();
    assert_eq!(store.get_metadata(&Scope::Global, &tag("k")).unwrap(), Value::from(2u64));
    assert!(matches!(store.get_metadata(&Scope::Global, &tag("other")), Err(Error::MetadataNotFound)));
    store.delete_metadata(&Scope::Global, &tag("k"));
    assert!(matches!(store.get_metadata(&Scope::Global, &tag("k")), Err(Error::MetadataNotFound)));
    store.delete_metadata(&Scope::Global, &tag("k"));
    assert_eq!(Error::MetadataNotFound.message(), "metadata does not exist");
}

#[test]
fn scopes_keep_their_names_apart() {
    let mut store = graph();
    store.set_metadata(Scope::Global, tag("k"), text("global")).unwrap();
    store.set_metadata(Scope::Account { id: 1 }, tag("k"), text("account 1")).unwrap();
    store.set_metadata(Scope::Account { id: 2 }, tag("k"), text("account 2")).unwrap();
    store.set_metadata(Scope::Vertex { id: 1 }, tag("k"), text("vertex 1")).unwrap();
    store.set_metadata(Scope::Edge { key: key(1, "t", 2) }, tag("k"), text("edge")).unwrap();
    assert_eq!(store.get_metadata(&Scope::Global, &tag("k")).unwrap(), text("global"));
    assert_eq!(store.get_metadata(&Scope::Account { id: 1 }, &tag("k")).unwrap(), text("account 1"));
    assert_eq!(store.get_metadata(&Scope::Account { id: 2 }, &tag("k")).unwrap(), text("account 2"));
    assert_eq!(store.get_metadata(&Scope::Vertex { id: 1 }, &tag("k")).unwrap(), text("vertex 1"));
    assert_eq!(
        store.get_metadata(&Scope::Edge { key: key(1, "t", 2) }, &tag("k")).unwrap(),
        text("edge")
    );
    assert!(matches!(
        store.get_metadata(&Scope::Vertex { id: 2 }, &tag("k")),
        Err(Error::MetadataNotFound)
    ));
    store.delete_metadata(&Scope::Account { id: 1 }, &tag("k"));
    assert_eq!(store.get_metadata(&Scope::Account { id: 2 }, &tag("k")).unwrap(), text("account 2"));
    assert_eq!(store.get_metadata(&Scope::Global, &tag("k")).unwrap(), text("global"));
}

#[test]
fn metadata_needs_what_its_scope_names() {
    let mut store = graph();
    assert!(matches!(
        store.set_metadata(Scope::Vertex { id: 9 }, tag("k"), Value::Null),
        Err(Error::VertexNotFound)
    ));
    assert!(matches!(
        store.set_metadata(Scope::Edge { key: key(3, "t", 1) }, tag("k"), Value::Null),
        Err(Error::EdgeNotFound)
    ));
    assert!(matches!(
        store.set_metadata(Scope::Edge { key: key(1, "t", 9) }, tag("k"), Value::Null),
        Err(Error::VertexNotFound)
    ));
    assert!(store.set_metadata(Scope::Account { id: 9 }, tag("k"), Value::Null).is_ok());
    assert_eq!(Error::EdgeNotFound.message(), "edge does not exist");
}

#[test]
fn deleting_a_vertex_removes_the_metadata_that_hangs_on_it() {
    let mut store = graph();
    store.set_metadata(Scope::Global, tag("k"), text("global")).unwrap();
    store.set_metadata(Scope::Account { id: 2 }, tag("k"), text("account")).unwrap();
    store.set_metadata(Scope::Vertex { id: 1 }, tag("k"), text("v1")).unwrap();
    store.set_metadata(Scope::Vertex { id: 2 }, tag("k"), text("v2")).unwrap();
    store.set_metadata(Scope::Edge { key: key(1, "t", 2) }, tag("k"), text("e12")).unwrap();
    store.set_metadata(Scope::Edge { key: key(2, "t", 3) }, tag("k"), text("e23")).unwrap();
    store.set_metadata(Scope::Edge { key: key(1, "t", 3) }, tag("k"), text("e13")).unwrap();
    store.delete_vertex(2);
    assert_eq!(store.get_metadata(&Scope::Global, &tag("k")).unwrap(), text("global"));
    assert_eq!(store.get_metadata(&Scope::Account { id: 2 }, &tag("k")).unwrap(), text("account"));
    assert_eq!(store.get_metadata(&Scope::Vertex { id: 1 }, &tag("k")).unwrap(), text("v1"));
    assert_eq!(
        store.get_metadata(&Scope::Edge { key: key(1, "t", 3) }, &tag("k")).unwrap(),
        text("e13")
    );
    for scope in [
        Scope::Vertex { id: 2 },
        Scope::Edge { key: key(1, "t", 2) },
        Scope::Edge { key: key(2, "t", 3) },
    ] {
        assert!(matches!(store.get_metadata(&scope, &tag("k")), Err(Error::MetadataNotFound)));
    }
}

#[test]
fn deleting_an_edge_removes_its_metadata() {
    let mut store = graph();
    store.set_metadata(Scope::Edge { key: key(1, "t", 2) }, tag("a"), text("x")).unwrap();
    store.set_metadata(Scope::Edge { key: key(1, "t", 2) }, tag("b"), text("y")).unwrap();
    store.set_metadata(Scope::Edge { key: key(1, "t", 3) }, tag("a"), text("z")).unwrap();
    store.set_metadata(Scope::Vertex { id: 1 }, tag("a"), text("v")).unwrap();
    store.delete_edge(&key(1, "t", 2));
    for name in ["a", "b"] {
        assert!(matches!(
            store.get_metadata(&Scope::Edge { key: key(1, "t", 2) }, &tag(name)),
            Err(Error::MetadataNotFound)
        ));
    }
    assert_eq!(
        store.get_metadata(&Scope::Edge { key: key(1, "t", 3) }, &tag("a")).unwrap(),
        text("z")
    );
    assert_eq!(store.get_metadata(&Scope::Vertex { id: 1 }, &tag("a")).unwrap(), text("v"));
}

#[test]
fn writing_an_edge_again_keeps_its_metadata() {
    let mut store = graph();
    store.set_metadata(Scope::Edge { key: key(1, "t", 2) }, tag("a"), text("x")).unwrap();
    store.set_edge_at(key(1, "t", 2), Weight::new(0).unwrap(), 50).unwrap();
    assert_eq!(
        store.get_metadata(&Scope::Edge { key: key(1, "t", 2) }, &tag("a")).unwrap(),
        text("x")
    );
}

#[test]
fn account_metadata_is_that_of_the_transaction() {
    let mut store = graph();
    let first = MemoryTransaction::new(11);
    let second = store.transaction(22);
    assert_eq!(first.account_id(), 11);
    assert_eq!(second.account_id(), 22);
    first.set_account_metadata(&mut store, tag("k"), text("mine")).unwrap();
    assert_eq!(first.get_account_metadata(&store, &tag("k")).unwrap(), text("mine"));
    assert!(matches!(second.get_account_metadata(&store, &tag("k")), Err(Error::MetadataNotFound)));
    assert_eq!(store.get_metadata(&Scope::Account { id: 11 }, &tag("k")).unwrap(), text("mine"));
    second.delete_account_metadata(&mut store, &tag("k")).unwrap();
    assert_eq!(first.get_account_metadata(&store, &tag("k")).unwrap(), text("mine"));
    first.delete_account_metadata(&mut store, &tag("k")).unwrap();
    assert!(matches!(first.get_account_metadata(&store, &tag("k")), Err(Error::MetadataNotFound)));
}
