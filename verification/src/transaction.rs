//! Transactions: the operations of the datastore as a caller bound to an
//! account sees them. The in-memory datastore applies each operation at
//! once, so a commit has nothing left to do and a rollback cannot be done.

use crate::errors::Error;
use crate::index::{edge_views, page, select, IndexKind};
use crate::memory::{
    anchored, incident_keys, next_stamp, tag_view, EdgeData, MemoryDatastore, edge_of,
};
use crate::metadata::{EntryFilterView, MetadataKeyView, Scope, ScopeView};
use crate::models::{Edge, EdgeKey, EdgeKeyView, EdgeView, Type, Vertex, VertexView, Weight};
use crate::util::is_random_value;
use crate::vertices::{vertex_page, vertex_views};
use serde_json::Value as JsonValue;
use vstd::prelude::*;

verus! {

/// What `get_vertex` owes: the vertex where it exists, else
/// `VertexNotFound`.
pub open spec fn vertex_read(store: MemoryDatastore, id: u128, found: Result<VertexView, Error>) -> bool {
    if store@.vertices.contains_key(id) {
        found == Ok::<VertexView, Error>(VertexView { id, t: store@.vertices[id] })
    } else {
        found == Err::<VertexView, Error>(Error::VertexNotFound)
    }
}

/// What `create_vertex` owes: a vertex of the given tag under an
/// identifier that can be drawn and was free; or `UuidTaken` and no change,
/// and then some identifier that can be drawn was in use.
pub open spec fn vertex_created(
    before: MemoryDatastore,
    t: Seq<u8>,
    after: MemoryDatastore,
    made: Result<u128, Error>,
) -> bool {
    &&& after.wf()
    &&& after@.edges == before@.edges
    &&& after@.metadata == before@.metadata
    &&& match made {
        Ok(id) => {
            &&& is_random_value(id)
            &&& !before@.vertices.contains_key(id)
            &&& after@.vertices == before@.vertices.insert(id, t)
        },
        Err(e) => {
            &&& e == Error::UuidTaken
            &&& after@ == before@
            &&& exists|id: u128|
                is_random_value(id) && #[trigger] before@.vertices.contains_key(id)
        },
    }
}

/// What `set_vertex` owes: the vertex has the given tag, and nothing else
/// changed.
pub open spec fn vertex_set(before: MemoryDatastore, id: u128, t: Seq<u8>, after: MemoryDatastore) -> bool {
    &&& after.wf()
    &&& after@.vertices == before@.vertices.insert(id, t)
    &&& after@.edges == before@.edges
    &&& after@.metadata == before@.metadata
    &&& after.outbound_index() == before.outbound_index()
    &&& after.inbound_index() == before.inbound_index()
}

/// What `delete_vertex` owes: the vertex is gone, with the edges that
/// started or ended at it and the metadata in its scope and in theirs.
pub open spec fn vertex_deleted(before: MemoryDatastore, id: u128, after: MemoryDatastore) -> bool {
    &&& after.wf()
    &&& after@.vertices == before@.vertices.remove(id)
    &&& after@.edges == before@.edges.remove_keys(incident_keys(id))
    &&& after@.metadata == before@.metadata.remove_keys((EntryFilterView::OfVertex { id }).keys())
}

/// What `get_edge` owes: the edge where it exists, else `VertexNotFound`
/// where an end is missing and `EdgeNotFound` where none is.
pub open spec fn edge_read(store: MemoryDatastore, key: EdgeKeyView, found: Result<EdgeView, Error>) -> bool {
    if store@.edges.contains_key(key) {
        found == Ok::<EdgeView, Error>(edge_of(key, store@.edges[key]))
    } else {
        found == Err::<EdgeView, Error>(store@.edge_missing(key))
    }
}

/// What `set_edge` owes: where both ends exist, the edge has the given
/// weight and the stamp that follows its previous one at some time of the
/// clock; else `VertexNotFound` and no change.
pub open spec fn edge_set(
    before: MemoryDatastore,
    key: EdgeKeyView,
    weight: u32,
    after: MemoryDatastore,
    done: Result<(), Error>,
) -> bool {
    &&& after.wf()
    &&& after@.vertices == before@.vertices
    &&& after@.metadata == before@.metadata
    &&& if before@.has_ends(key) {
        &&& done is Ok
        &&& exists|now: u64|
            after@.edges == before@.edges.insert(
                key,
                EdgeData { weight, updated_at: #[trigger] next_stamp(before@.stamp_of(key), now) },
            )
    } else {
        done == Err::<(), Error>(Error::VertexNotFound) && after@ == before@
    }
}

/// What `delete_edge` owes: the edge is gone, with the metadata in its
/// scope.
pub open spec fn edge_deleted(before: MemoryDatastore, key: EdgeKeyView, after: MemoryDatastore) -> bool {
    &&& after.wf()
    &&& after@.vertices == before@.vertices
    &&& after@.edges == before@.edges.remove(key)
    &&& after@.metadata == before@.metadata.remove_keys((EntryFilterView::OfEdge { key }).keys())
}

/// The index that range queries on the given side read.
pub open spec fn index_of(store: MemoryDatastore, side: IndexKind) -> Seq<EdgeView> {
    match side {
        IndexKind::Inbound => store.inbound_index(),
        _ => store.outbound_index(),
    }
}

/// The edges that a range query on the given side selects, in the order in
/// which it lists them.
pub open spec fn selected(
    store: MemoryDatastore,
    side: IndexKind,
    anchor: u128,
    t: Option<Seq<u8>>,
    high: Option<u64>,
    low: Option<u64>,
) -> Seq<EdgeView> {
    select(index_of(store, side), anchored(side, anchor, t, high, low), true)
}

/// What `get_metadata` owes: the value where one is kept, else
/// `MetadataNotFound`.
pub open spec fn metadata_read(
    store: MemoryDatastore,
    key: MetadataKeyView,
    found: Result<JsonValue, Error>,
) -> bool {
    if store@.metadata.contains_key(key) {
        found == Ok::<JsonValue, Error>(store@.metadata[key])
    } else {
        found == Err::<JsonValue, Error>(Error::MetadataNotFound)
    }
}

/// What `set_metadata` owes: where the scope exists, the value is kept
/// under the key; else the error that names what is missing, and no change.
pub open spec fn metadata_set(
    before: MemoryDatastore,
    key: MetadataKeyView,
    value: JsonValue,
    after: MemoryDatastore,
    done: Result<(), Error>,
) -> bool {
    &&& after.wf()
    &&& after@.vertices == before@.vertices
    &&& after@.edges == before@.edges
    &&& if before@.scope_exists(key.scope) {
        done is Ok && after@.metadata == before@.metadata.insert(key, value)
    } else {
        after@ == before@ && done == Err::<(), Error>(
            match key.scope {
                ScopeView::Edge { key: edge } => before@.edge_missing(edge),
                _ => Error::VertexNotFound,
            },
        )
    }
}

/// What `delete_metadata` owes: nothing is kept under the key any more.
pub open spec fn metadata_deleted(before: MemoryDatastore, key: MetadataKeyView, after: MemoryDatastore) -> bool {
    &&& after.wf()
    &&& after@.vertices == before@.vertices
    &&& after@.edges == before@.edges
    &&& after@.metadata == before@.metadata.remove(key)
}

/// A transaction on the in-memory datastore, bound to an account.
#[derive(Debug, Clone, Copy)]
pub struct MemoryTransaction {
    account_id: u128,
}

impl MemoryTransaction {
    /// The account that the transaction is bound to.
    pub closed spec fn account(&self) -> u128 {
        self.account_id
    }

    /// A transaction bound to the given account.
    pub fn new(account_id: u128) -> (txn: MemoryTransaction)
        ensures
            txn.account() == account_id,
    {
        MemoryTransaction { account_id }
    }

    /// The account that the transaction is bound to.
    pub fn account_id(&self) -> (id: u128)
        ensures
            id == self.account(),
    {
        self.account_id
    }

    /// The scope of the metadata of this transaction's account.
    pub fn account_scope(&self) -> (scope: Scope)
        ensures
            scope@ == (ScopeView::Account { id: self.account() }),
    {
        Scope::Account { id: self.account_id }
    }

    /// Looks a vertex up by its identifier.
    pub fn get_vertex(&self, store: &MemoryDatastore, id: u128) -> (found: Result<Vertex, Error>)
        requires
            store.wf(),
        ensures
            vertex_read(
                *store,
                id,
                match found {
                    Ok(v) => Ok(v@),
                    Err(e) => Err(e),
                },
            ),
    {
        store.get_vertex(id)
    }

    /// The first `limit` vertices, in ascending order, whose identifier is
    /// not below `start_id`.
    pub fn get_vertex_range(&self, store: &MemoryDatastore, start_id: u128, limit: u16) -> (found:
        Result<Vec<Vertex>, Error>)
        requires
            store.wf(),
        ensures
            found is Ok,
            vertex_views(found->Ok_0@) == vertex_page(store.vertex_index(), start_id, limit as int),
    {
        Ok(store.get_vertex_range(start_id, limit))
    }

    /// Creates a vertex under a fresh identifier, and returns the
    /// identifier.
    pub fn create_vertex(&self, store: &mut MemoryDatastore, t: Type) -> (made: Result<u128, Error>)
        requires
            old(store).wf(),
        ensures
            vertex_created(*old(store), t@, *final(store), made),
    {
        store.create_vertex(t)
    }

    /// Sets the type tag of a vertex, creating the vertex where it does not
    /// exist.
    pub fn set_vertex(&self, store: &mut MemoryDatastore, v: Vertex) -> (done: Result<(), Error>)
        requires
            old(store).wf(),
        ensures
            done is Ok,
            vertex_set(*old(store), v.id, v.t@, *final(store)),
    {
        store.set_vertex(v.id, v.t);
        Ok(())
    }

    /// Removes a vertex and what hangs on it.
    pub fn delete_vertex(&self, store: &mut MemoryDatastore, id: u128) -> (done: Result<(), Error>)
        requires
            old(store).wf(),
        ensures
            done is Ok,
            vertex_deleted(*old(store), id, *final(store)),
    {
        store.delete_vertex(id);
        Ok(())
    }

    /// Looks an edge up by its identity.
    pub fn get_edge(&self, store: &MemoryDatastore, key: &EdgeKey) -> (found: Result<Edge, Error>)
        requires
            store.wf(),
        ensures
            edge_read(
                *store,
                key@,
                match found {
                    Ok(e) => Ok(e@),
                    Err(e) => Err(e),
                },
            ),
    {
        store.get_edge(key)
    }

    /// Writes an edge at the current time.
    pub fn set_edge(&self, store: &mut MemoryDatastore, key: EdgeKey, weight: Weight) -> (done:
        Result<(), Error>)
        requires
            old(store).wf(),
        ensures
            edge_set(*old(store), key@, weight@, *final(store), done),
    {
        store.set_edge(key, weight)
    }

    /// Removes an edge and the metadata in its scope.
    pub fn delete_edge(&self, store: &mut MemoryDatastore, key: &EdgeKey) -> (done: Result<(), Error>)
        requires
            old(store).wf(),
        ensures
            done is Ok,
            edge_deleted(*old(store), key@, *final(store)),
    {
        store.delete_edge(key);
        Ok(())
    }

    /// Counts the edges that start at `outbound_id`, of the type `t` where
    /// one is given.
    pub fn get_edge_count(&self, store: &MemoryDatastore, outbound_id: u128, t: Option<Type>) -> (count:
        Result<u64, Error>)
        requires
            store.wf(),
        ensures
            count is Ok,
            count->Ok_0 == selected(
                *store,
                IndexKind::Outbound,
                outbound_id,
                tag_view(t),
                None,
                None,
            ).len(),
    {
        Ok(store.get_edge_count(outbound_id, t))
    }

    /// The edges that start at `outbound_id`, newest first: after the first
    /// `offset` of them, up to `limit`.
    pub fn get_edge_range(
        &self,
        store: &MemoryDatastore,
        outbound_id: u128,
        t: Option<Type>,
        offset: u64,
        limit: u16,
    ) -> (found: Result<Vec<Edge>, Error>)
        requires
            store.wf(),
        ensures
            found is Ok,
            edge_views(found->Ok_0@) == page(
                selected(*store, IndexKind::Outbound, outbound_id, tag_view(t), None, None),
                offset as int,
                limit as int,
            ),
    {
        Ok(store.get_edge_range(outbound_id, t, offset, limit))
    }

    /// The edges that start at `outbound_id` and were last written after
    /// `low` and at or before `high`, newest first, up to `limit`.
    pub fn get_edge_time_range(
        &self,
        store: &MemoryDatastore,
        outbound_id: u128,
        t: Option<Type>,
        high: Option<u64>,
        low: Option<u64>,
        limit: u16,
    ) -> (found: Result<Vec<Edge>, Error>)
        requires
            store.wf(),
        ensures
            found is Ok,
            edge_views(found->Ok_0@) == page(
                selected(*store, IndexKind::Outbound, outbound_id, tag_view(t), high, low),
                0,
                limit as int,
            ),
    {
        Ok(store.get_edge_time_range(outbound_id, t, high, low, limit))
    }

    /// Counts the edges that end at `inbound_id`, of the type `t` where one
    /// is given.
    pub fn get_reversed_edge_count(
        &self,
        store: &MemoryDatastore,
        inbound_id: u128,
        t: Option<Type>,
    ) -> (count: Result<u64, Error>)
        requires
            store.wf(),
        ensures
            count is Ok,
            count->Ok_0 == selected(
                *store,
                IndexKind::Inbound,
                inbound_id,
                tag_view(t),
                None,
                None,
            ).len(),
    {
        Ok(store.get_reversed_edge_count(inbound_id, t))
    }

    /// The edges that end at `inbound_id`, newest first: after the first
    /// `offset` of them, up to `limit`.
    pub fn get_reversed_edge_range(
        &self,
        store: &MemoryDatastore,
        inbound_id: u128,
        t: Option<Type>,
        offset: u64,
        limit: u16,
    ) -> (found: Result<Vec<Edge>, Error>)
        requires
            store.wf(),
        ensures
            found is Ok,
            edge_views(found->Ok_0@) == page(
                selected(*store, IndexKind::Inbound, inbound_id, tag_view(t), None, None),
                offset as int,
                limit as int,
            ),
    {
        Ok(store.get_reversed_edge_range(inbound_id, t, offset, limit))
    }

    /// The edges that end at `inbound_id` and were last written after `low`
    /// and at or before `high`, newest first, up to `limit`.
    pub fn get_reversed_edge_time_range(
        &self,
        store: &MemoryDatastore,
        inbound_id: u128,
        t: Option<Type>,
        high: Option<u64>,
        low: Option<u64>,
        limit: u16,
    ) -> (found: Result<Vec<Edge>, Error>)
        requires
            store.wf(),
        ensures
            found is Ok,
            edge_views(found->Ok_0@) == page(
                selected(*store, IndexKind::Inbound, inbound_id, tag_view(t), high, low),
                0,
                limit as int,
            ),
    {
        Ok(store.get_reversed_edge_time_range(inbound_id, t, high, low, limit))
    }

    /// Reads the metadata kept under a scope and a name.
    pub fn get_metadata(&self, store: &MemoryDatastore, scope: &Scope, name: &Type) -> (found:
        Result<JsonValue, Error>)
        requires
            store.wf(),
        ensures
            metadata_read(*store, MetadataKeyView { scope: scope@, name: name@ }, found),
    {
        store.get_metadata(scope, name)
    }

    /// Keeps a value under a scope and a name.
    pub fn set_metadata(
        &self,
        store: &mut MemoryDatastore,
        scope: Scope,
        name: Type,
        value: JsonValue,
    ) -> (done: Result<(), Error>)
        requires
            old(store).wf(),
        ensures
            metadata_set(
                *old(store),
                MetadataKeyView { scope: scope@, name: name@ },
                value,
                *final(store),
                done,
            ),
    {
        store.set_metadata(scope, name, value)
    }

    /// Removes the metadata kept under a scope and a name.
    pub fn delete_metadata(&self, store: &mut MemoryDatastore, scope: &Scope, name: &Type) -> (done:
        Result<(), Error>)
        requires
            old(store).wf(),
        ensures
            done is Ok,
            metadata_deleted(
                *old(store),
                MetadataKeyView { scope: scope@, name: name@ },
                *final(store),
            ),
    {
        store.delete_metadata(scope, name);
        Ok(())
    }

    /// Reads the metadata that this transaction's account keeps under a
    /// name.
    pub fn get_account_metadata(&self, store: &MemoryDatastore, name: &Type) -> (found: Result<
        JsonValue,
        Error,
    >)
        requires
            store.wf(),
        ensures
            metadata_read(
                *store,
                MetadataKeyView { scope: ScopeView::Account { id: self.account() }, name: name@ },
                found,
            ),
    {
        store.get_metadata(&self.account_scope(), name)
    }

    /// Keeps a value under a name for this transaction's account. This
    /// always succeeds.
    pub fn set_account_metadata(&self, store: &mut MemoryDatastore, name: Type, value: JsonValue) -> (done:
        Result<(), Error>)
        requires
            old(store).wf(),
        ensures
            done is Ok,
            metadata_set(
                *old(store),
                MetadataKeyView { scope: ScopeView::Account { id: self.account() }, name: name@ },
                value,
                *final(store),
                done,
            ),
    {
        store.set_metadata(self.account_scope(), name, value)
    }

    /// Removes the metadata that this transaction's account keeps under a
    /// name.
    pub fn delete_account_metadata(&self, store: &mut MemoryDatastore, name: &Type) -> (done: Result<
        (),
        Error,
    >)
        requires
            old(store).wf(),
        ensures
            done is Ok,
            metadata_deleted(
                *old(store),
                MetadataKeyView { scope: ScopeView::Account { id: self.account() }, name: name@ },
                *final(store),
            ),
    {
        store.delete_metadata(&self.account_scope(), name);
        Ok(())
    }

    /// Ends the transaction and keeps what it did. Every operation was
    /// applied when it was made, so this always succeeds.
    pub fn commit(self) -> (done: Result<(), Error>)
        ensures
            done is Ok,
    {
        Ok(())
    }

    /// Ends the transaction and undoes what it did. The in-memory datastore
    /// cannot do that: this always fails with `Unsupported`.
    pub fn rollback(self) -> (done: Result<(), Error>)
        ensures
            done == Err::<(), Error>(Error::Unsupported),
    {
        Err(Error::Unsupported)
    }
}

} // verus!
